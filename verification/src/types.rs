//! The value vocabulary shared by every plan: storage classes, affinities, collating
//! sequences and database namespaces.

#[allow(unused_imports)]
use vstd::prelude::*;

verus! {

/// A column affinity.
#[derive(Debug, Clone, Copy, PartialEq, Eq, Structural)]
pub enum Affinity {
    Text,
    Numeric,
    Integer,
    Real,
    Blob,
}

/// A collating sequence.
#[derive(Debug, Clone, Copy, PartialEq, Eq, Structural)]
pub enum Collation {
    Binary,
    NoCase,
    Rtrim,
}

/// The database namespace (`main`, `temp`, or an attached file) an object lives in.
#[derive(Debug, Clone, Copy, PartialEq, Eq, Structural)]
pub struct DbIndex {
    pub index: usize,
}

impl DbIndex {
    /// The `main` namespace.
    pub fn main() -> (r: DbIndex)
        ensures
            r.index == 0,
    {
        DbIndex { index: 0 }
    }
}

/// A literal value. A real is held by the bits of its IEEE-754 encoding: the planner
/// carries it and never computes with it.
#[derive(Debug, Clone)]
pub enum Value {
    Null,
    Integer(i64),
    Real(u64),
    Text(String),
    Blob(Vec<u8>),
}

/// What a [`Value`] holds, with its text and bytes as sequences.
pub enum ValueView {
    Null,
    Integer(i64),
    Real(u64),
    Text(Seq<char>),
    Blob(Seq<u8>),
}

impl Value {
    /// The mathematical value.
    pub open spec fn model(self) -> ValueView {
        match self {
            Value::Null => ValueView::Null,
            Value::Integer(i) => ValueView::Integer(i),
            Value::Real(bits) => ValueView::Real(bits),
            Value::Text(s) => ValueView::Text(s@),
            Value::Blob(b) => ValueView::Blob(b@),
        }
    }

    /// A second copy of this value.
    pub fn dup(&self) -> (r: Value)
        ensures
            r.model() == self.model(),
    {
        match self {
            Value::Null => Value::Null,
            Value::Integer(i) => Value::Integer(*i),
            Value::Real(bits) => Value::Real(*bits),
            Value::Text(s) => Value::Text(s.clone()),
            Value::Blob(b) => {
                let mut copy: Vec<u8> = Vec::new();
                let mut i: usize = 0;
                while i < b.len()
                    invariant
                        i <= b.len(),
                        copy@ == b@.subrange(0, i as int),
                    decreases b.len() - i,
                {
                    copy.push(b[i]);
                    i = i + 1;
                }
                assert(copy@ =~= b@);
                Value::Blob(copy)
            },
        }
    }
}

} // verus!
