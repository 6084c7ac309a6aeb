//! Serving an `ORDER BY` from the order in which a b-tree is walked.
//!
//! A query over one base table is sorted above its scan. Where the scan, walked one way,
//! already emits the sorted order, the scan is rewritten and the sort left out. Ties decide:
//! the sort is stable, so rows equal on every key keep the order in which the scan under the
//! sort emits them, and a rewritten scan has to emit exactly that order.
//!
//! * By rowid, either way: rowids are unique, so there are no ties.
//! * By an index, forward only: either the index that the `WHERE` clause already seeks, with
//!   the keys continuing after the columns it fixes, or an index whose key columns are exactly
//!   the keys, whose ties come in ascending rowid as those of a table scan do. A reverse walk
//!   would reverse the ties.

#[allow(unused_imports)]
use vstd::prelude::*;
use crate::access::{IndexOp, IndexScan, RowidOp, RowidScan, ScanDirection};
use crate::catalog::{index_at, table_at, Catalog, IndexDef, TableDef};
use crate::expr::{EvalExpr, SortKey};
use crate::plan::PlanNode;
use crate::search::{least, least_from};
use crate::types::{Collation, DbIndex};

verus! {

/// How the scan under a sort is changed so that it emits the sorted order.
#[derive(Debug)]
pub enum LeafRewrite {
    /// Not at all.
    Keep,
    /// A table scan becomes a walk of the table from the largest rowid down.
    ReverseRowid,
    /// A rowid scan is walked this way.
    RowidDirection(ScanDirection),
    /// An index scan is walked forward.
    IndexForward,
    /// A table scan becomes a forward walk of this index.
    FullIndex(String),
}

/// The direction all keys agree on.
pub open spec fn common_direction(keys: Seq<SortKey>) -> Option<ScanDirection> {
    if forall|i: int| 0 <= i < keys.len() ==> !(#[trigger] keys[i]).desc {
        Some(ScanDirection::Forward)
    } else if forall|i: int| 0 <= i < keys.len() ==> (#[trigger] keys[i]).desc {
        Some(ScanDirection::Reverse)
    } else {
        None
    }
}

/// Where a b-tree walked in direction `dir` puts NULLs: they are its least keys.
pub open spec fn walk_puts_nulls_first(dir: ScanDirection) -> bool {
    dir == ScanDirection::Forward
}

/// Whether the key asks for NULLs where the walk puts them. A key that does not say takes
/// them first when ascending and last when descending, which is where the walk puts them.
pub open spec fn nulls_agree(key: SortKey, dir: ScanDirection) -> bool {
    match key.nulls_first {
        None => true,
        Some(first) => first == walk_puts_nulls_first(dir),
    }
}

/// The base-table scan under a chain of filters.
pub open spec fn leaf_of(node: PlanNode) -> Option<PlanNode>
    decreases node,
{
    match node {
        PlanNode::Filter { input, .. } => leaf_of(*input),
        PlanNode::SeqScan(_) => Some(node),
        PlanNode::RowidScan(_) => Some(node),
        PlanNode::IndexScan(_) => Some(node),
        _ => None,
    }
}

/// Table name, namespace and column count of a base-table scan.
pub open spec fn leaf_table(leaf: PlanNode) -> Option<(Seq<char>, DbIndex, usize)> {
    match leaf {
        PlanNode::SeqScan(s) => Some((s.table@, s.db, s.column_count)),
        PlanNode::RowidScan(s) => Some((s.table@, s.db, s.column_count)),
        PlanNode::IndexScan(s) => Some((s.table@, s.db, s.column_count)),
        _ => None,
    }
}

/// The register of the scanned row that a key over the projected row orders by: the key is a
/// projected column, and that column is a register of the table's row (`n` is the rowid).
pub open spec fn traced(key: SortKey, exprs: Seq<EvalExpr>, n: nat) -> Option<usize> {
    match key.expr {
        EvalExpr::Column(out) => if out < exprs.len() {
            match exprs[out as int] {
                EvalExpr::Column(reg) => if reg <= n {
                    Some(reg)
                } else {
                    None
                },
                _ => None,
            }
        } else {
            None
        },
        _ => None,
    }
}

/// Whether every key traces to a register.
pub open spec fn all_traced(keys: Seq<SortKey>, exprs: Seq<EvalExpr>, n: nat) -> bool {
    forall|i: int| 0 <= i < keys.len() ==> traced(#[trigger] keys[i], exprs, n) is Some
}

/// The registers the keys order by.
pub open spec fn traced_registers(keys: Seq<SortKey>, exprs: Seq<EvalExpr>, n: nat) -> Seq<usize> {
    Seq::new(keys.len(), |i: int| traced(keys[i], exprs, n)->Some_0)
}

/// Whether key column `pos` of `idx` is the column in register `reg` of a row of `td`, a plain
/// column kept ascending and bytewise.
pub open spec fn position_serves(idx: IndexDef, td: TableDef, reg: usize, pos: int) -> bool {
    &&& pos < idx.columns@.len()
    &&& pos < idx.key_columns@.len()
    &&& pos < idx.key_exprs@.len()
    &&& !idx.key_exprs@[pos]
    &&& !idx.key_columns@[pos].descending
    &&& idx.key_columns@[pos].binary()
    &&& td.register_of(idx.columns@[pos]@) == Some(reg as int)
}

/// Whether the key columns of `idx` from position `p` on are the given registers, in order.
pub open spec fn run_serves(idx: IndexDef, td: TableDef, regs: Seq<usize>, p: nat) -> bool {
    forall|j: int| 0 <= j < regs.len() ==> position_serves(idx, td, #[trigger] regs[j], p + j)
}

/// Whether the whole key of `idx`, an index of the scanned table over all its rows, is the
/// given registers.
pub open spec fn index_is_exactly(
    idx: IndexDef,
    db: DbIndex,
    table: Seq<char>,
    td: TableDef,
    regs: Seq<usize>,
) -> bool {
    &&& idx.is_on(db, table)
    &&& !idx.partial
    &&& idx.columns@.len() == regs.len()
    &&& run_serves(idx, td, regs, 0)
}

/// The first index whose whole key is the given registers.
pub open spec fn exact_index(
    indexes: Seq<IndexDef>,
    db: DbIndex,
    table: Seq<char>,
    td: TableDef,
    regs: Seq<usize>,
) -> Option<int> {
    least(|i: int| index_is_exactly(indexes[i], db, table, td, regs), indexes.len() as int)
}

/// The rewrite that serves an order by the rowid alone.
pub open spec fn by_rowid(regs: Seq<usize>, n: nat, dir: ScanDirection, leaf: PlanNode) -> Option<
    LeafRewrite,
> {
    if regs.len() == 1 && regs[0] == n {
        match leaf {
            PlanNode::SeqScan(_) => match dir {
                ScanDirection::Forward => Some(LeafRewrite::Keep),
                ScanDirection::Reverse => Some(LeafRewrite::ReverseRowid),
            },
            PlanNode::RowidScan(_) => Some(LeafRewrite::RowidDirection(dir)),
            _ => None,
        }
    } else {
        None
    }
}

/// The rewrite that serves an order by key columns of an index.
pub open spec fn by_index(
    indexes: Seq<IndexDef>,
    td: TableDef,
    n: nat,
    regs: Seq<usize>,
    dir: ScanDirection,
    leaf: PlanNode,
) -> Option<LeafRewrite> {
    if dir != ScanDirection::Forward || exists|i: int| 0 <= i < regs.len() && #[trigger] regs[i] >= n {
        None
    } else {
        match leaf {
            PlanNode::IndexScan(s) => match s.op {
                IndexOp::Seek { eq_prefix, .. } => match index_at(indexes, s.db, s.index@) {
                    Some(k) => if !indexes[k].partial && run_serves(
                        indexes[k],
                        td,
                        regs,
                        eq_prefix@.len(),
                    ) {
                        Some(LeafRewrite::IndexForward)
                    } else {
                        None
                    },
                    None => None,
                },
                IndexOp::FullScan => None,
            },
            PlanNode::SeqScan(s) => match exact_index(indexes, s.db, s.table@, td, regs) {
                Some(k) => Some(LeafRewrite::FullIndex(indexes[k].name)),
                None => None,
            },
            _ => None,
        }
    }
}

/// The rewrite of a leaf under a projection that makes it emit the order of `keys`, if there
/// is one.
pub open spec fn leaf_rewrite(
    catalog: Catalog,
    leaf: PlanNode,
    exprs: Seq<EvalExpr>,
    keys: Seq<SortKey>,
) -> Option<LeafRewrite> {
    match (common_direction(keys), leaf_table(leaf)) {
        (Some(dir), Some((table, db, column_count))) => match table_at(catalog.tables@, db, table) {
            Some(k) => {
                let td = catalog.tables@[k];
                let n = td.columns@.len();
                let regs = traced_registers(keys, exprs, n);
                if td.without_rowid || column_count != n || !all_traced(keys, exprs, n) {
                    None
                } else {
                    match by_rowid(regs, n, dir, leaf) {
                        Some(rw) => Some(rw),
                        None => by_index(catalog.indexes@, td, n, regs, dir, leaf),
                    }
                }
            },
            None => None,
        },
        _ => None,
    }
}

/// Whether every key is compared bytewise and puts NULLs where a walk in the keys' common
/// direction puts them.
pub open spec fn keys_fit_a_walk(keys: Seq<SortKey>) -> bool {
    &&& keys.len() > 0
    &&& common_direction(keys) is Some
    &&& forall|i: int|
        0 <= i < keys.len() ==> (#[trigger] keys[i]).collation == Collation::Binary && nulls_agree(
            keys[i],
            common_direction(keys)->Some_0,
        )
}

/// The rewrite that serves the order `keys` of a projection, if there is one.
pub open spec fn order_rewrite(catalog: Catalog, node: PlanNode, keys: Seq<SortKey>) -> Option<
    LeafRewrite,
> {
    match node {
        PlanNode::Project { input, exprs } => if keys_fit_a_walk(keys) {
            match leaf_of(*input) {
                Some(leaf) => leaf_rewrite(catalog, leaf, exprs@, keys),
                None => None,
            }
        } else {
            None
        },
        _ => None,
    }
}

/// A leaf after its rewrite.
pub open spec fn rewritten_leaf(leaf: PlanNode, rw: LeafRewrite) -> PlanNode {
    match (leaf, rw) {
        (PlanNode::SeqScan(s), LeafRewrite::ReverseRowid) => PlanNode::RowidScan(
            RowidScan {
                table: s.table,
                db: s.db,
                column_count: s.column_count,
                op: RowidOp::Range { lo: None, hi: None },
                direction: ScanDirection::Reverse,
            },
        ),
        (PlanNode::SeqScan(s), LeafRewrite::FullIndex(index)) => PlanNode::IndexScan(
            IndexScan {
                table: s.table,
                db: s.db,
                column_count: s.column_count,
                index,
                op: IndexOp::FullScan,
                direction: ScanDirection::Forward,
                covering: false,
            },
        ),
        (PlanNode::RowidScan(s), LeafRewrite::RowidDirection(dir)) => PlanNode::RowidScan(
            RowidScan { direction: dir, ..s },
        ),
        (PlanNode::IndexScan(s), LeafRewrite::IndexForward) => PlanNode::IndexScan(
            IndexScan { direction: ScanDirection::Forward, ..s },
        ),
        _ => leaf,
    }
}

/// A chain of filters over a leaf, with the leaf rewritten and the filters as they are.
pub open spec fn with_leaf_rewritten(node: PlanNode, rw: LeafRewrite) -> PlanNode
    decreases node,
{
    match node {
        PlanNode::Filter { input, predicate } => PlanNode::Filter {
            input: Box::new(with_leaf_rewritten(*input, rw)),
            predicate,
        },
        _ => rewritten_leaf(node, rw),
    }
}

/// A projection whose scan is rewritten.
pub open spec fn project_rewritten(node: PlanNode, rw: LeafRewrite) -> PlanNode {
    match node {
        PlanNode::Project { input, exprs } => PlanNode::Project {
            input: Box::new(with_leaf_rewritten(*input, rw)),
            exprs,
        },
        _ => node,
    }
}

/// Rewrite the scan under the projection `node` so that it emits the order of `keys`. The node
/// comes back as it was where no rewrite serves the order: the caller then sorts.
///
/// The caller holds that nothing between the scan and the sort reorders rows: the query has no
/// `DISTINCT`, no aggregate, and no outer row before its own columns.
pub fn satisfy_order_by(catalog: &Catalog, node: PlanNode, keys: &Vec<SortKey>) -> (r: Result<
    PlanNode,
    PlanNode,
>)
    ensures
        r == match order_rewrite(*catalog, node, keys@) {
            Some(rw) => Ok::<PlanNode, PlanNode>(project_rewritten(node, rw)),
            None => Err(node),
        },
{
    match find_rewrite(catalog, &node, keys) {
        Some(rw) => match node {
            PlanNode::Project { input, exprs } => Ok(
                PlanNode::Project { input: Box::new(replace_leaf(*input, rw)), exprs },
            ),
            other => Ok(other),
        },
        None => Err(node),
    }
}

fn find_rewrite(catalog: &Catalog, node: &PlanNode, keys: &Vec<SortKey>) -> (r: Option<LeafRewrite>)
    ensures
        r == order_rewrite(*catalog, *node, keys@),
{
    let (input, exprs) = match node {
        PlanNode::Project { input, exprs } => (input, exprs),
        _ => {
            return None;
        },
    };
    if keys.len() == 0 {
        return None;
    }
    let dir: ScanDirection = match uniform_direction(keys) {
        Some(d) => d,
        None => {
            return None;
        },
    };
    if !keys_match_walk(keys, dir) {
        return None;
    }
    let leaf: &PlanNode = match base_table_leaf(input) {
        Some(l) => l,
        None => {
            return None;
        },
    };
    let info: LeafInfo = match leaf_info(leaf) {
        Some(i) => i,
        None => {
            return None;
        },
    };
    let td: &TableDef = match catalog.table_in(info.db, info.table) {
        Some(t) => t,
        None => {
            return None;
        },
    };
    if td.without_rowid {
        return None;
    }
    let n: usize = td.columns.len();
    if info.column_count != n {
        return None;
    }
    let regs: Vec<usize> = match trace_keys(keys, exprs, n) {
        Some(v) => v,
        None => {
            return None;
        },
    };
    match mechanism_a_rowid(&regs, n, dir, leaf) {
        Some(rw) => Some(rw),
        None => mechanism_b_index(catalog, td, n, &regs, dir, leaf),
    }
}

/// Whether every key is compared bytewise and puts NULLs where the walk puts them.
fn keys_match_walk(keys: &Vec<SortKey>, dir: ScanDirection) -> (r: bool)
    ensures
        r == (forall|i: int|
            0 <= i < keys@.len() ==> (#[trigger] keys@[i]).collation == Collation::Binary
                && nulls_agree(keys@[i], dir)),
{
    let mut i: usize = 0;
    while i < keys.len()
        invariant
            i <= keys.len(),
            forall|k: int|
                0 <= k < i ==> (#[trigger] keys@[k]).collation == Collation::Binary && nulls_agree(
                    keys@[k],
                    dir,
                ),
        decreases keys.len() - i,
    {
        let key: &SortKey = &keys[i];
        if key.collation != Collation::Binary || !null_order_ok(key, dir) {
            return false;
        }
        i = i + 1;
    }
    true
}

/// The direction all keys agree on, if they do.
pub fn uniform_direction(keys: &Vec<SortKey>) -> (r: Option<ScanDirection>)
    ensures
        r == common_direction(keys@),
{
    let mut all_asc: bool = true;
    let mut all_desc: bool = true;
    let mut i: usize = 0;
    while i < keys.len()
        invariant
            i <= keys.len(),
            all_asc == (forall|k: int| 0 <= k < i ==> !(#[trigger] keys@[k]).desc),
            all_desc == (forall|k: int| 0 <= k < i ==> (#[trigger] keys@[k]).desc),
        decreases keys.len() - i,
    {
        if keys[i].desc {
            all_asc = false;
        } else {
            all_desc = false;
        }
        i = i + 1;
    }
    if all_asc {
        Some(ScanDirection::Forward)
    } else if all_desc {
        Some(ScanDirection::Reverse)
    } else {
        None
    }
}

/// Whether the key asks for NULLs where a walk in direction `dir` puts them.
pub fn null_order_ok(key: &SortKey, dir: ScanDirection) -> (r: bool)
    ensures
        r == nulls_agree(*key, dir),
{
    match (dir, key.nulls_first) {
        (_, None) => true,
        (ScanDirection::Forward, Some(nulls_first)) => nulls_first,
        (ScanDirection::Reverse, Some(nulls_first)) => !nulls_first,
    }
}

/// The base-table scan under a chain of filters, if that is what `node` is.
pub fn base_table_leaf(node: &PlanNode) -> (r: Option<&PlanNode>)
    ensures
        match (r, leaf_of(*node)) {
            (Some(leaf), Some(l)) => *leaf == l,
            (None, None) => true,
            _ => false,
        },
    decreases node,
{
    match node {
        PlanNode::Filter { input, .. } => base_table_leaf(input),
        PlanNode::SeqScan(_) => Some(node),
        PlanNode::RowidScan(_) => Some(node),
        PlanNode::IndexScan(_) => Some(node),
        _ => None,
    }
}

/// The table a leaf scans.
struct LeafInfo<'a> {
    table: &'a str,
    db: DbIndex,
    column_count: usize,
}

fn leaf_info(leaf: &PlanNode) -> (r: Option<LeafInfo<'_>>)
    ensures
        match (r, leaf_table(*leaf)) {
            (Some(info), Some((table, db, column_count))) => info.table@ == table && info.db == db
                && info.column_count == column_count,
            (None, None) => true,
            _ => false,
        },
{
    match leaf {
        PlanNode::SeqScan(s) => Some(
            LeafInfo { table: s.table.as_str(), db: s.db, column_count: s.column_count },
        ),
        PlanNode::RowidScan(s) => Some(
            LeafInfo { table: s.table.as_str(), db: s.db, column_count: s.column_count },
        ),
        PlanNode::IndexScan(s) => Some(
            LeafInfo { table: s.table.as_str(), db: s.db, column_count: s.column_count },
        ),
        _ => None,
    }
}

/// The registers of the table's row that the keys order by, if each key is a plain column.
pub fn trace_keys(keys: &Vec<SortKey>, exprs: &Vec<EvalExpr>, n: usize) -> (r: Option<Vec<usize>>)
    ensures
        match r {
            Some(v) => all_traced(keys@, exprs@, n as nat) && v@ == traced_registers(
                keys@,
                exprs@,
                n as nat,
            ),
            None => !all_traced(keys@, exprs@, n as nat),
        },
{
    let mut regs: Vec<usize> = Vec::new();
    let mut i: usize = 0;
    while i < keys.len()
        invariant
            i <= keys.len(),
            regs.len() == i,
            forall|k: int|
                0 <= k < i ==> traced(#[trigger] keys@[k], exprs@, n as nat) == Some(regs@[k]),
        decreases keys.len() - i,
    {
        let out: usize = match &keys[i].expr {
            EvalExpr::Column(o) => *o,
            _ => {
                assert(traced(keys@[i as int], exprs@, n as nat) is None);
                return None;
            },
        };
        if out >= exprs.len() {
            assert(traced(keys@[i as int], exprs@, n as nat) is None);
            return None;
        }
        let reg: usize = match &exprs[out] {
            EvalExpr::Column(r) => *r,
            _ => {
                assert(traced(keys@[i as int], exprs@, n as nat) is None);
                return None;
            },
        };
        if reg > n {
            assert(traced(keys@[i as int], exprs@, n as nat) is None);
            return None;
        }
        regs.push(reg);
        i = i + 1;
    }
    assert(regs@ =~= traced_registers(keys@, exprs@, n as nat));
    Some(regs)
}

/// Serve an order by the rowid alone, either way.
pub fn mechanism_a_rowid(regs: &Vec<usize>, n: usize, dir: ScanDirection, leaf: &PlanNode) -> (r:
    Option<LeafRewrite>)
    ensures
        r == by_rowid(regs@, n as nat, dir, *leaf),
{
    if regs.len() != 1 || regs[0] != n {
        return None;
    }
    match leaf {
        PlanNode::SeqScan(_) => match dir {
            ScanDirection::Forward => Some(LeafRewrite::Keep),
            ScanDirection::Reverse => Some(LeafRewrite::ReverseRowid),
        },
        PlanNode::RowidScan(_) => Some(LeafRewrite::RowidDirection(dir)),
        _ => None,
    }
}

/// Serve an ascending order by key columns of an index.
pub fn mechanism_b_index(
    catalog: &Catalog,
    td: &TableDef,
    n: usize,
    regs: &Vec<usize>,
    dir: ScanDirection,
    leaf: &PlanNode,
) -> (r: Option<LeafRewrite>)
    ensures
        r == by_index(catalog.indexes@, *td, n as nat, regs@, dir, *leaf),
{
    if dir != ScanDirection::Forward {
        return None;
    }
    let mut i: usize = 0;
    while i < regs.len()
        invariant
            i <= regs.len(),
            dir == ScanDirection::Forward,
            forall|k: int| 0 <= k < i ==> #[trigger] regs@[k] < n,
        decreases regs.len() - i,
    {
        if regs[i] >= n {
            return None;
        }
        i = i + 1;
    }
    match leaf {
        PlanNode::IndexScan(s) => match &s.op {
            IndexOp::Seek { eq_prefix, .. } => match catalog.index_in(s.db, s.index.as_str()) {
                Some(idx) => if !idx.partial && index_run_serves_order(
                    idx,
                    td,
                    regs,
                    eq_prefix.len(),
                ) {
                    Some(LeafRewrite::IndexForward)
                } else {
                    None
                },
                None => None,
            },
            IndexOp::FullScan => None,
        },
        PlanNode::SeqScan(s) => {
            match find_exact_index(catalog, s.db, s.table.as_str(), td, regs) {
                Some(k) => Some(LeafRewrite::FullIndex(catalog.indexes[k].name.clone())),
                None => None,
            }
        },
        _ => None,
    }
}

fn find_exact_index(
    catalog: &Catalog,
    db: DbIndex,
    table: &str,
    td: &TableDef,
    regs: &Vec<usize>,
) -> (r: Option<usize>)
    ensures
        match (r, exact_index(catalog.indexes@, db, table@, *td, regs@)) {
            (Some(i), Some(k)) => i == k && i < catalog.indexes@.len(),
            (None, None) => true,
            _ => false,
        },
{
    let ghost p = |i: int| index_is_exactly(catalog.indexes@[i], db, table@, *td, regs@);
    let mut i: usize = 0;
    while i < catalog.indexes.len()
        invariant
            i <= catalog.indexes.len(),
            p == (|i: int| index_is_exactly(catalog.indexes@[i], db, table@, *td, regs@)),
            least(p, catalog.indexes@.len() as int) == least_from(
                p,
                i as int,
                catalog.indexes@.len() as int,
            ),
        decreases catalog.indexes.len() - i,
    {
        let idx: &IndexDef = &catalog.indexes[i];
        if idx.on_table(db, table) && !idx.partial && idx.columns.len() == regs.len()
            && index_run_serves_order(idx, td, regs, 0) {
            assert(p(i as int));
            return Some(i);
        }
        assert(!p(i as int));
        i = i + 1;
    }
    None
}

/// Whether the key columns of `idx` from position `p` on are the given registers, in order,
/// each a plain column kept ascending and bytewise.
pub fn index_run_serves_order(idx: &IndexDef, td: &TableDef, regs: &Vec<usize>, p: usize) -> (r:
    bool)
    ensures
        r == run_serves(*idx, *td, regs@, p as nat),
{
    let mut j: usize = 0;
    while j < regs.len()
        invariant
            j <= regs.len(),
            forall|k: int|
                0 <= k < j ==> position_serves(*idx, *td, #[trigger] regs@[k], p + k),
        decreases regs.len() - j,
    {
        let want: usize = regs[j];
        if p >= idx.columns.len() || j >= idx.columns.len() - p {
            return false;
        }
        let pos: usize = p + j;
        if pos >= idx.key_columns.len() || pos >= idx.key_exprs.len() {
            return false;
        }
        if idx.key_exprs[pos] {
            return false;
        }
        if idx.key_columns[pos].descending || !idx.key_columns[pos].is_binary() {
            return false;
        }
        match td.col_reg(idx.columns[pos].as_str()) {
            Some(reg) => if reg != want {
                return false;
            },
            None => {
                return false;
            },
        }
        assert(position_serves(*idx, *td, regs@[j as int], p + j));
        j = j + 1;
    }
    true
}

/// Rewrite the leaf under a chain of filters.
pub fn replace_leaf(node: PlanNode, rw: LeafRewrite) -> (r: PlanNode)
    ensures
        r == with_leaf_rewritten(node, rw),
    decreases node,
{
    match node {
        PlanNode::Filter { input, predicate } => PlanNode::Filter {
            input: Box::new(replace_leaf(*input, rw)),
            predicate,
        },
        PlanNode::SeqScan(s) => match rw {
            LeafRewrite::ReverseRowid => PlanNode::RowidScan(
                RowidScan {
                    table: s.table,
                    db: s.db,
                    column_count: s.column_count,
                    op: RowidOp::Range { lo: None, hi: None },
                    direction: ScanDirection::Reverse,
                },
            ),
            LeafRewrite::FullIndex(index) => PlanNode::IndexScan(
                IndexScan {
                    table: s.table,
                    db: s.db,
                    column_count: s.column_count,
                    index,
                    op: IndexOp::FullScan,
                    direction: ScanDirection::Forward,
                    covering: false,
                },
            ),
            _ => PlanNode::SeqScan(s),
        },
        PlanNode::RowidScan(s) => match rw {
            LeafRewrite::RowidDirection(dir) => PlanNode::RowidScan(
                RowidScan {
                    table: s.table,
                    db: s.db,
                    column_count: s.column_count,
                    op: s.op,
                    direction: dir,
                },
            ),
            _ => PlanNode::RowidScan(s),
        },
        PlanNode::IndexScan(s) => match rw {
            LeafRewrite::IndexForward => PlanNode::IndexScan(
                IndexScan {
                    table: s.table,
                    db: s.db,
                    column_count: s.column_count,
                    index: s.index,
                    op: s.op,
                    direction: ScanDirection::Forward,
                    covering: s.covering,
                },
            ),
            _ => PlanNode::IndexScan(s),
        },
        other => other,
    }
}

} // verus!
