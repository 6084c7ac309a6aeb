//! Reading a `MIN` or `MAX` over a whole table off one end of a b-tree.
//!
//! A single plain `MIN(column)` or `MAX(column)` with no other aggregate, no grouping and no
//! `WHERE` is the first non-NULL or the last key of a b-tree ordered by that column: the
//! table's own for the rowid, or an index whose first key column it is. Everything else keeps
//! the aggregate over the scan.

#[allow(unused_imports)]
use vstd::prelude::*;
use crate::access::SeqScan;
use crate::catalog::{Catalog, IndexDef, TableDef};
use crate::expr::{AggregateCall, EvalExpr};
use crate::plan::{Aggregate, MinMaxSeek, MinMaxSource, PlanNode};
use crate::scope::Source;
use crate::search::{least, least_from};
use crate::text::{eq_ignore_ascii_case, same_name};
use crate::types::{Affinity, Collation, DbIndex};

verus! {

/// The register of the argument of an aggregate call that is a plain one-argument call on a
/// column, compared bytewise.
pub open spec fn plain_argument(call: AggregateCall) -> Option<usize> {
    if !call.distinct && call.filter is None && call.order_by@.len() == 0 && call.args@.len() == 1
        && (call.arg_collations@.len() > 0 ==> call.arg_collations@[0] == Collation::Binary) {
        match call.args@[0] {
            EvalExpr::Column(reg) => Some(reg),
            _ => None,
        }
    } else {
        None
    }
}

/// The register of the argument, where the aggregate is one plain call over one group and
/// nothing else.
pub open spec fn sole_argument(agg: Aggregate) -> Option<usize> {
    if agg.group_by@.len() == 0 && agg.having is None && agg.minmax_bare is None
        && agg.bare_arbitrary is None && agg.aggregates@.len() == 1 {
        plain_argument(agg.aggregates@[0])
    } else {
        None
    }
}

/// Whether the first key column of `ix`, an index over all rows, is column `want` of the
/// table, a plain column kept ascending and bytewise.
pub open spec fn leftmost_serves(ix: IndexDef, td: TableDef, want: int) -> bool {
    &&& !ix.partial
    &&& ix.columns@.len() > 0
    &&& ix.key_columns@.len() > 0
    &&& !(ix.key_exprs@.len() > 0 && ix.key_exprs@[0])
    &&& !ix.key_columns@[0].descending
    &&& ix.key_columns@[0].binary()
    &&& td.register_of(ix.columns@[0]@) == Some(want)
}

/// The first index that serves the extremum of column `want`.
pub open spec fn leftmost_index(
    indexes: Seq<IndexDef>,
    db: DbIndex,
    td: TableDef,
    want: int,
) -> Option<int> {
    least(
        |i: int| indexes[i].is_on(db, td.name@) && leftmost_serves(indexes[i], td, want),
        indexes.len() as int,
    )
}

/// The b-tree that holds the extremum of register `reg` of a row of `td` placed at register
/// `base`: the table's own for the rowid, else an index. A column of `BLOB` affinity has none,
/// since equal values of it may be stored differently.
pub open spec fn extremum_source(
    indexes: Seq<IndexDef>,
    db: DbIndex,
    td: TableDef,
    base: int,
    reg: int,
) -> Option<MinMaxSource> {
    let n = td.columns@.len();
    if reg == base + n {
        Some(MinMaxSource::Rowid)
    } else if base <= reg < base + n && td.columns@[reg - base].affinity != Affinity::Blob {
        match leftmost_index(indexes, db, td, reg - base) {
            Some(k) => Some(MinMaxSource::Index { index: indexes[k].name }),
            None => None,
        }
    } else {
        None
    }
}

/// The seek that replaces an aggregate, if there is one. `is_max` is absent where the query is
/// not a single `MIN` or `MAX`.
pub open spec fn seek_of(
    sources: Seq<Source<'_>>,
    indexes: Seq<IndexDef>,
    agg: Aggregate,
    is_max: Option<bool>,
) -> Option<MinMaxSeek> {
    match (is_max, sole_argument(agg), *agg.input) {
        (Some(max), Some(reg), PlanNode::SeqScan(scan)) => if sources.len() == 1 {
            match sources[0] {
                Source::BaseTable { table, db, base, .. } => if db == scan.db && same_name(
                    table.name@,
                    scan.table@,
                ) && !table.without_rowid {
                    match extremum_source(indexes, db, *table, base as int, reg as int) {
                        Some(source) => Some(
                            MinMaxSeek { table: scan.table, db: scan.db, is_max: max, source },
                        ),
                        None => None,
                    }
                } else {
                    None
                },
                Source::Derived { .. } => None,
            }
        } else {
            None
        },
        _ => None,
    }
}

/// Replace an aggregate by a seek where that gives the same value; else keep it.
pub fn try_optimize(
    sources: &Vec<Source<'_>>,
    catalog: &Catalog,
    agg: Aggregate,
    is_max: Option<bool>,
) -> (r: PlanNode)
    ensures
        r == match seek_of(sources@, catalog.indexes@, agg, is_max) {
            Some(seek) => PlanNode::MinMaxSeek(seek),
            None => PlanNode::Aggregate(agg),
        },
{
    match seek_plan(sources, catalog, &agg, is_max) {
        Some(seek) => PlanNode::MinMaxSeek(seek),
        None => PlanNode::Aggregate(agg),
    }
}

/// The seek that replaces an aggregate, if there is one.
pub fn seek_plan(
    sources: &Vec<Source<'_>>,
    catalog: &Catalog,
    agg: &Aggregate,
    is_max: Option<bool>,
) -> (r: Option<MinMaxSeek>)
    ensures
        r == seek_of(sources@, catalog.indexes@, *agg, is_max),
{
    let max: bool = match is_max {
        Some(m) => m,
        None => {
            return None;
        },
    };
    if agg.group_by.len() != 0 || agg.having.is_some() {
        return None;
    }
    if agg.minmax_bare.is_some() || agg.bare_arbitrary.is_some() {
        return None;
    }
    if agg.aggregates.len() != 1 {
        return None;
    }
    let call: &AggregateCall = &agg.aggregates[0];
    if call.distinct || call.filter.is_some() || call.order_by.len() != 0 || call.args.len() != 1 {
        return None;
    }
    let reg: usize = match &call.args[0] {
        EvalExpr::Column(r) => *r,
        _ => {
            return None;
        },
    };
    if call.arg_collations.len() > 0 && call.arg_collations[0] != Collation::Binary {
        return None;
    }
    let scan: &SeqScan = match &*agg.input {
        PlanNode::SeqScan(s) => s,
        _ => {
            return None;
        },
    };
    if sources.len() != 1 {
        return None;
    }
    let (table, db, base): (&TableDef, DbIndex, usize) = match &sources[0] {
        Source::BaseTable { table, db, base, .. } => (*table, *db, *base),
        Source::Derived { .. } => {
            return None;
        },
    };
    if db != scan.db || !eq_ignore_ascii_case(table.name.as_str(), scan.table.as_str())
        || table.without_rowid {
        return None;
    }
    let n: usize = table.columns.len();
    if reg < base {
        return None;
    }
    let i: usize = reg - base;
    if i == n {
        return Some(seek_node(scan, max, MinMaxSource::Rowid));
    }
    if i > n {
        return None;
    }
    if table.columns[i].affinity == Affinity::Blob {
        return None;
    }
    match find_leftmost(catalog, db, table, i) {
        Some(k) => Some(
            seek_node(
                scan,
                max,
                MinMaxSource::Index { index: catalog.indexes[k].name.clone() },
            ),
        ),
        None => None,
    }
}

fn find_leftmost(catalog: &Catalog, db: DbIndex, table: &TableDef, want: usize) -> (r: Option<usize>)
    ensures
        match (r, leftmost_index(catalog.indexes@, db, *table, want as int)) {
            (Some(i), Some(k)) => i == k && i < catalog.indexes@.len(),
            (None, None) => true,
            _ => false,
        },
{
    let ghost p = |i: int|
        catalog.indexes@[i].is_on(db, table.name@) && leftmost_serves(
            catalog.indexes@[i],
            *table,
            want as int,
        );
    let mut i: usize = 0;
    while i < catalog.indexes.len()
        invariant
            i <= catalog.indexes.len(),
            p == (|i: int|
                catalog.indexes@[i].is_on(db, table.name@) && leftmost_serves(
                    catalog.indexes@[i],
                    *table,
                    want as int,
                )),
            least(p, catalog.indexes@.len() as int) == least_from(
                p,
                i as int,
                catalog.indexes@.len() as int,
            ),
        decreases catalog.indexes.len() - i,
    {
        let ix: &IndexDef = &catalog.indexes[i];
        if ix.on_table(db, table.name.as_str()) && index_leftmost_serves(ix, table, want) {
            assert(p(i as int));
            return Some(i);
        }
        assert(!p(i as int));
        i = i + 1;
    }
    None
}

/// Whether the first key column of `ix` is column `want` of the table, kept ascending and
/// bytewise, and the index holds every row.
pub fn index_leftmost_serves(ix: &IndexDef, table: &TableDef, want: usize) -> (r: bool)
    ensures
        r == leftmost_serves(*ix, *table, want as int),
{
    if ix.partial || ix.columns.len() == 0 || ix.key_columns.len() == 0 {
        return false;
    }
    if ix.key_exprs.len() > 0 && ix.key_exprs[0] {
        return false;
    }
    if ix.key_columns[0].descending || !ix.key_columns[0].is_binary() {
        return false;
    }
    match table.col_reg(ix.columns[0].as_str()) {
        Some(reg) => reg == want,
        None => false,
    }
}

fn seek_node(scan: &SeqScan, is_max: bool, source: MinMaxSource) -> (r: MinMaxSeek)
    ensures
        r == (MinMaxSeek { table: scan.table, db: scan.db, is_max, source }),
{
    MinMaxSeek { table: scan.table.clone(), db: scan.db, is_max, source }
}

} // verus!
