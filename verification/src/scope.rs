//! The row sources of a `FROM` clause.

#[allow(unused_imports)]
use vstd::prelude::*;
use crate::catalog::TableDef;
use crate::types::{Affinity, Collation, DbIndex};

verus! {

/// A column of a source that is not a base table. A hidden column is left out of `*`.
#[derive(Debug, Clone)]
pub struct SynthCol {
    pub name: String,
    pub affinity: Affinity,
    pub collation: Collation,
    pub hidden: bool,
}

/// One source of a `FROM` clause. `base` is the register of its first column.
#[allow(inconsistent_fields)]
#[derive(Debug)]
pub enum Source<'a> {
    BaseTable { exposed_name: String, table: &'a TableDef, db: DbIndex, base: usize },
    /// `json_referenced` says whether a hidden `json` column was named anywhere.
    Derived {
        exposed_name: String,
        columns: Vec<SynthCol>,
        base: usize,
        json_referenced: bool,
    },
}

impl<'a> Source<'a> {
    /// Whether the source's hidden `json` column is named anywhere.
    pub open spec fn reads_json(self) -> bool {
        match self {
            Source::BaseTable { .. } => false,
            Source::Derived { json_referenced, .. } => json_referenced,
        }
    }

    /// Whether the source's hidden `json` column is named anywhere.
    pub fn json_referenced(&self) -> (r: bool)
        ensures
            r == self.reads_json(),
    {
        match self {
            Source::BaseTable { .. } => false,
            Source::Derived { json_referenced, .. } => *json_referenced,
        }
    }
}

} // verus!
