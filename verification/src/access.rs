//! Access paths: the leaves of a plan, which read one base table.

#[allow(unused_imports)]
use vstd::prelude::*;
use crate::expr::EvalExpr;
use crate::types::DbIndex;

verus! {

/// Which way a b-tree is walked.
#[derive(Debug, Clone, Copy, PartialEq, Eq, Structural)]
pub enum ScanDirection {
    Forward,
    Reverse,
}

/// One end of a range.
#[derive(Debug, Clone)]
pub struct RangeBound {
    pub value: EvalExpr,
    pub inclusive: bool,
}

/// A full table scan in ascending rowid order.
#[derive(Debug, Clone)]
pub struct SeqScan {
    pub table: String,
    pub db: DbIndex,
    pub column_count: usize,
}

/// What a rowid scan looks up.
#[derive(Debug, Clone)]
pub enum RowidOp {
    /// The one row with this rowid, if there is one.
    Eq(EvalExpr),
    /// The rows whose rowid lies between the bounds.
    Range { lo: Option<RangeBound>, hi: Option<RangeBound> },
}

/// A scan of the table b-tree by rowid.
#[derive(Debug, Clone)]
pub struct RowidScan {
    pub table: String,
    pub db: DbIndex,
    pub column_count: usize,
    pub op: RowidOp,
    pub direction: ScanDirection,
}

/// What an index scan looks up.
#[derive(Debug, Clone)]
pub enum IndexOp {
    /// The entries whose leading key columns equal `eq_prefix` and whose next key column
    /// lies between the bounds.
    Seek { eq_prefix: Vec<EvalExpr>, lo: Option<RangeBound>, hi: Option<RangeBound> },
    /// Every entry.
    FullScan,
}

/// A scan of an index b-tree. Unless `covering`, each entry's row is fetched from the table.
#[derive(Debug, Clone)]
pub struct IndexScan {
    pub table: String,
    pub db: DbIndex,
    pub column_count: usize,
    pub index: String,
    pub op: IndexOp,
    pub direction: ScanDirection,
    pub covering: bool,
}

} // verus!
