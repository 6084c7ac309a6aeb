//! A scan rewritten by [`order_scan`](crate::compile::order_scan) emits, row for row, what a
//! stable sort above the scan as it was would emit.

#[allow(unused_imports)]
use vstd::prelude::*;
use crate::access::{IndexOp, RowidOp, ScanDirection};
use crate::catalog::{column_named, index_at, table_at, Catalog, IndexDef, KeyColumn, TableDef};
use crate::compile::order_scan::{
    all_traced, by_index, by_rowid, common_direction, exact_index, index_is_exactly,
    keys_fit_a_walk, leaf_of, leaf_rewrite, leaf_table, nulls_agree, order_rewrite, position_serves,
    project_rewritten, rewritten_leaf, run_serves, traced, traced_registers, with_leaf_rewritten,
    LeafRewrite,
};
use crate::expr::{EvalExpr, SortKey};
use crate::plan::PlanNode;
use crate::search::lemma_least_from;
use crate::text::{fold, same_name};
use crate::types::{Collation, DbIndex};

verus! {

/// A stored value as a b-tree compares it: NULL, or a value at a place in the bytewise order.
pub enum Cell {
    Null,
    At(int),
}

impl Cell {
    /// The order of a b-tree: NULL before every value.
    pub open spec fn less(self, other: Cell) -> bool {
        match (self, other) {
            (Cell::Null, Cell::At(_)) => true,
            (Cell::At(i), Cell::At(j)) => i < j,
            _ => false,
        }
    }
}

/// A row of a table: its rowid and the cells of its columns.
pub struct StoredRow {
    pub rowid: int,
    pub cells: Seq<Cell>,
}

impl StoredRow {
    /// Register `r` of the row: a column, or the rowid after the columns.
    pub open spec fn register(self, r: int) -> Cell {
        if 0 <= r < self.cells.len() {
            self.cells[r]
        } else {
            Cell::At(self.rowid)
        }
    }
}

/// Whether `a` comes strictly before `b` under one key compared bytewise. A key that does not
/// say where NULLs go takes them first when ascending and last when descending.
pub open spec fn key_before(key: SortKey, a: Cell, b: Cell) -> bool {
    let nulls_first = match key.nulls_first {
        Some(first) => first,
        None => !key.desc,
    };
    match (a, b) {
        (Cell::Null, Cell::Null) => false,
        (Cell::Null, Cell::At(_)) => nulls_first,
        (Cell::At(_), Cell::Null) => !nulls_first,
        (Cell::At(i), Cell::At(j)) => if key.desc {
            j < i
        } else {
            i < j
        },
    }
}

/// What key `i` orders a row by: the value of its expression on the row that the projection makes
/// of it, as the key's collation compares it.
pub open spec fn key_cell(
    st: Storage,
    keys: Seq<SortKey>,
    exprs: Seq<EvalExpr>,
    row: StoredRow,
    i: int,
) -> Cell {
    (st.collated)(
        keys[i].collation,
        (st.on_output)(keys[i].expr, exprs.map_values(|e: EvalExpr| (st.on_row)(e, row))),
    )
}

/// Whether `a` comes strictly before `b` under the keys from position `i` on: at the first of
/// them on which they differ.
pub open spec fn sorts_before(
    st: Storage,
    keys: Seq<SortKey>,
    exprs: Seq<EvalExpr>,
    a: StoredRow,
    b: StoredRow,
    i: int,
) -> bool
    decreases keys.len() - i,
{
    if i >= keys.len() {
        false
    } else if key_cell(st, keys, exprs, a, i) == key_cell(st, keys, exprs, b, i) {
        sorts_before(st, keys, exprs, a, b, i + 1)
    } else {
        key_before(keys[i], key_cell(st, keys, exprs, a, i), key_cell(st, keys, exprs, b, i))
    }
}

/// Whether `a` stands before `b` in `s`.
pub open spec fn stands_before(s: Seq<StoredRow>, a: StoredRow, b: StoredRow) -> bool {
    exists|i: int, j: int| 0 <= i < j < s.len() && #[trigger] s[i] == a && #[trigger] s[j] == b
}

/// The order of a stable sort: by the keys, and by position in the input where they tie.
pub open spec fn stable_before(
    st: Storage,
    input: Seq<StoredRow>,
    keys: Seq<SortKey>,
    exprs: Seq<EvalExpr>,
    a: StoredRow,
    b: StoredRow,
) -> bool {
    ||| sorts_before(st, keys, exprs, a, b, 0)
    ||| !sorts_before(st, keys, exprs, b, a, 0) && stands_before(input, a, b)
}

/// Whether `s` lists the rows of `rows`, each once.
pub open spec fn lists(s: Seq<StoredRow>, rows: Set<StoredRow>) -> bool {
    &&& s.no_duplicates()
    &&& forall|r: StoredRow| #[trigger] rows.contains(r) <==> s.contains(r)
}

/// Whether `out` is `input` sorted stably by the keys.
pub open spec fn is_stable_sort(
    st: Storage,
    input: Seq<StoredRow>,
    out: Seq<StoredRow>,
    keys: Seq<SortKey>,
    exprs: Seq<EvalExpr>,
) -> bool {
    &&& lists(out, input.to_set())
    &&& forall|i: int, j: int|
        0 <= i < j < out.len() ==> stable_before(
            st,
            input,
            keys,
            exprs,
            #[trigger] out[i],
            #[trigger] out[j],
        )
}

/// What a database holds of one table and its indexes, and what the expressions of a statement
/// give on it.
pub struct Storage {
    /// The namespace and the name of the table.
    pub db: DbIndex,
    pub table: Seq<char>,
    /// Whether the rows of the table are kept by something else than their rowid, and then
    /// which of two comes first.
    pub without_rowid: bool,
    pub kept_before: spec_fn(StoredRow, StoredRow) -> bool,
    /// The register at which a scan of the table places its rows.
    pub base: int,
    /// The rows of the table.
    pub rows: Set<StoredRow>,
    /// Whether the predicate of a partial index takes a row in.
    pub entered: spec_fn(int, StoredRow) -> bool,
    /// What key column `pos` of index `k` holds for a row, as that column compares it.
    pub cell: spec_fn(int, StoredRow, int) -> Cell,
    /// The value of an expression that a seek fixes a key column to.
    pub value: spec_fn(EvalExpr) -> Cell,
    /// Whether an entry of an index lies within the bounds of a seek.
    pub in_bounds: spec_fn(int, IndexOp, StoredRow) -> bool,
    /// Whether a rowid scan with a bound finds a row.
    pub finds_rowid: spec_fn(RowidOp, StoredRow) -> bool,
    /// Whether a predicate keeps a row.
    pub keeps: spec_fn(EvalExpr, StoredRow) -> bool,
    /// The value of an expression on a row of the table, and on a projected row.
    pub on_row: spec_fn(EvalExpr, StoredRow) -> Cell,
    pub on_output: spec_fn(EvalExpr, Seq<Cell>) -> Cell,
    /// A value as a collation compares it.
    pub collated: spec_fn(Collation, Cell) -> Cell,
}

/// Whether a key column of an index is compared bytewise.
pub open spec fn bytewise(key: KeyColumn) -> bool {
    key.collation matches Some(name) ==> fold(name@) == "binary"@
}

/// Whether `name` names column `i` of the table: it is the first column of that name.
pub open spec fn names_column(td: TableDef, name: Seq<char>, i: int) -> bool {
    &&& 0 <= i < td.columns@.len()
    &&& same_name(td.columns@[i].name@, name)
    &&& forall|j: int| 0 <= j < i ==> !same_name((#[trigger] td.columns@[j]).name@, name)
}

/// The cell of a row that column `i` stands for: its own, or the rowid where it is another name
/// of the rowid.
pub open spec fn column_cell(td: TableDef, r: StoredRow, i: int) -> Cell {
    if td.rowid_alias matches Some(alias) && alias == i {
        Cell::At(r.rowid)
    } else {
        r.cells[i]
    }
}

/// Whether an index is one of the stored table.
pub open spec fn of_table(st: Storage, idx: IndexDef) -> bool {
    idx.db == st.db && fold(idx.table@) == fold(st.table)
}

/// The position of the index of a name.
pub open spec fn tree_of(indexes: Seq<IndexDef>, db: DbIndex, name: Seq<char>) -> int {
    choose|k: int|
        0 <= k < indexes.len() && (#[trigger] indexes[k]).db == db && fold(indexes[k].name@) == fold(
            name,
        )
}

/// Whether there is an index of a name.
pub open spec fn is_index(indexes: Seq<IndexDef>, db: DbIndex, name: Seq<char>) -> bool {
    exists|k: int|
        0 <= k < indexes.len() && (#[trigger] indexes[k]).db == db && fold(indexes[k].name@) == fold(
            name,
        )
}

/// Whether the table's own b-tree keeps `a` before `b`.
pub open spec fn row_before(st: Storage, a: StoredRow, b: StoredRow) -> bool {
    if st.without_rowid {
        (st.kept_before)(a, b)
    } else {
        a.rowid < b.rowid
    }
}

/// Whether key column `pos` of an index is a column of the table and compared bytewise.
pub open spec fn plain_key(idx: IndexDef, pos: int) -> bool {
    &&& 0 <= pos < idx.columns@.len()
    &&& pos < idx.key_columns@.len()
    &&& bytewise(idx.key_columns@[pos])
    &&& !(pos < idx.key_exprs@.len() && idx.key_exprs@[pos])
}

/// Whether the storage is that of the table: rowids are unique, a plain key column of an index
/// holds the cell of its column, and a register gives the cell that it holds. What another
/// expression gives, or how a column compares that is not compared bytewise, is left open.
pub open spec fn stores(st: Storage, indexes: Seq<IndexDef>, td: TableDef) -> bool {
    &&& fold(st.table) == fold(td.name@)
    &&& st.without_rowid == td.without_rowid
    &&& forall|r: StoredRow| #[trigger] st.rows.contains(r) ==> r.cells.len() == td.columns@.len()
    &&& forall|a: StoredRow, b: StoredRow|
        #[trigger] st.rows.contains(a) && #[trigger] st.rows.contains(b) && a.rowid == b.rowid ==> a
            == b
    &&& forall|k: int, r: StoredRow, pos: int, i: int|
        #![trigger (st.cell)(k, r, pos), names_column(td, indexes[k].columns@[pos]@, i)]
        0 <= k < indexes.len() && st.rows.contains(r) && of_table(st, indexes[k]) && plain_key(
            indexes[k],
            pos,
        ) && names_column(td, indexes[k].columns@[pos]@, i) ==> (st.cell)(k, r, pos) == column_cell(
            td,
            r,
            i,
        )
    &&& forall|reg: usize, r: StoredRow|
        #![trigger (st.on_row)(EvalExpr::Column(reg), r)]
        st.rows.contains(r) && st.base <= reg <= st.base + r.cells.len() ==> (st.on_row)(
            EvalExpr::Column(reg),
            r,
        ) == r.register(reg - st.base)
    &&& forall|out: usize, row: Seq<Cell>|
        #![trigger (st.on_output)(EvalExpr::Column(out), row)]
        out < row.len() ==> (st.on_output)(EvalExpr::Column(out), row) == row[out as int]
    &&& forall|c: Cell| #[trigger] (st.collated)(Collation::Binary, c) == c
}

/// Whether an index has an entry for a row: one of the table that is not partial has one for every
/// row.
pub open spec fn has_entry(st: Storage, indexes: Seq<IndexDef>, k: int, r: StoredRow) -> bool {
    of_table(st, indexes[k]) && st.rows.contains(r) && (indexes[k].partial ==> (st.entered)(k, r))
}

/// Whether key column `pos` of an index is kept from the largest cell down.
pub open spec fn kept_descending(idx: IndexDef, pos: int) -> bool {
    pos < idx.key_columns@.len() && idx.key_columns@[pos].descending
}

/// Whether the entry of `a` in index `k` comes before that of `b`: by the key columns from `i`
/// on, each in the direction in which it is declared, and by rowid where they are equal.
pub open spec fn entry_before(
    st: Storage,
    indexes: Seq<IndexDef>,
    k: int,
    a: StoredRow,
    b: StoredRow,
    i: int,
) -> bool
    decreases indexes[k].columns@.len() - i,
{
    let x = (st.cell)(k, a, i);
    let y = (st.cell)(k, b, i);
    if i >= indexes[k].columns@.len() {
        row_before(st, a, b)
    } else if x == y {
        entry_before(st, indexes, k, a, b, i + 1)
    } else if kept_descending(indexes[k], i) {
        y.less(x)
    } else {
        x.less(y)
    }
}

/// Whether a scan emits `a` before `b`.
pub open spec fn scan_before(
    st: Storage,
    indexes: Seq<IndexDef>,
    leaf: PlanNode,
    a: StoredRow,
    b: StoredRow,
) -> bool {
    match leaf {
        PlanNode::SeqScan(_) => row_before(st, a, b),
        PlanNode::RowidScan(s) => match s.direction {
            ScanDirection::Forward => row_before(st, a, b),
            ScanDirection::Reverse => row_before(st, b, a),
        },
        PlanNode::IndexScan(s) => {
            let k = tree_of(indexes, s.db, s.index@);
            match s.direction {
                ScanDirection::Forward => entry_before(st, indexes, k, a, b, 0),
                ScanDirection::Reverse => entry_before(st, indexes, k, b, a, 0),
            }
        },
        _ => false,
    }
}

/// Whether a seek finds the entry of a row: the key columns that it fixes hold the values it
/// fixes them to, and the entry lies within its bounds.
pub open spec fn seek_finds(st: Storage, k: int, op: IndexOp, r: StoredRow) -> bool {
    match op {
        IndexOp::Seek { eq_prefix, .. } => {
            &&& forall|pos: int|
                0 <= pos < eq_prefix@.len() ==> #[trigger] (st.cell)(k, r, pos) == (st.value)(
                    eq_prefix@[pos],
                )
            &&& (st.in_bounds)(k, op, r)
        },
        IndexOp::FullScan => true,
    }
}

/// Whether a scan is one of the stored table.
pub open spec fn reads(st: Storage, db: DbIndex, table: Seq<char>) -> bool {
    db == st.db && fold(table) == fold(st.table)
}

/// Whether a scan finds a row.
pub open spec fn scan_finds(
    st: Storage,
    indexes: Seq<IndexDef>,
    leaf: PlanNode,
    r: StoredRow,
) -> bool {
    match leaf {
        PlanNode::SeqScan(s) => reads(st, s.db, s.table@) && st.rows.contains(r),
        PlanNode::RowidScan(s) => reads(st, s.db, s.table@) && st.rows.contains(r) && match s.op {
            RowidOp::Range { lo: None, hi: None } => true,
            _ => (st.finds_rowid)(s.op, r),
        },
        PlanNode::IndexScan(s) => {
            let k = tree_of(indexes, s.db, s.index@);
            &&& reads(st, s.db, s.table@)
            &&& is_index(indexes, s.db, s.index@)
            &&& has_entry(st, indexes, k, r)
            &&& seek_finds(st, k, s.op, r)
        },
        _ => false,
    }
}

/// The scan under a chain of filters.
pub open spec fn scan_under(node: PlanNode) -> Option<PlanNode>
    decreases node,
{
    match node {
        PlanNode::Filter { input, .. } => scan_under(*input),
        PlanNode::SeqScan(_) | PlanNode::RowidScan(_) | PlanNode::IndexScan(_) => Some(node),
        _ => None,
    }
}

/// Whether a chain of filters keeps a row.
pub open spec fn filters_keep(st: Storage, node: PlanNode, r: StoredRow) -> bool
    decreases node,
{
    match node {
        PlanNode::Filter { input, predicate } => (st.keeps)(predicate, r) && filters_keep(
            st,
            *input,
            r,
        ),
        _ => true,
    }
}

/// Whether `out` is what a chain of filters over a scan emits: the rows that the scan finds and
/// the filters keep, each once, in the order of the scan.
pub open spec fn emits(
    st: Storage,
    indexes: Seq<IndexDef>,
    node: PlanNode,
    out: Seq<StoredRow>,
) -> bool {
    &&& scan_under(node) matches Some(leaf)
    &&& out.no_duplicates()
    &&& forall|r: StoredRow| #[trigger]
        out.contains(r) <==> scan_finds(st, indexes, leaf, r) && filters_keep(st, node, r)
    &&& forall|i: int, j: int|
        0 <= i < j < out.len() ==> scan_before(
            st,
            indexes,
            leaf,
            #[trigger] out[i],
            #[trigger] out[j],
        )
}

/// Whether the keys tell any two of the rows apart.
pub open spec fn no_ties(
    st: Storage,
    rows: Seq<StoredRow>,
    keys: Seq<SortKey>,
    exprs: Seq<EvalExpr>,
) -> bool {
    forall|a: StoredRow, b: StoredRow|
        #[trigger] rows.contains(a) && #[trigger] rows.contains(b) && a != b ==> sorts_before(
            st,
            keys,
            exprs,
            a,
            b,
            0,
        ) || sorts_before(st, keys, exprs, b, a, 0)
}

/// Whether a leaf walks an index from its end.
pub open spec fn walks_back(leaf: PlanNode) -> bool {
    leaf matches PlanNode::IndexScan(s) && s.direction == ScanDirection::Reverse
}

/// Whether no two indexes of a namespace have the same name.
pub open spec fn index_names_unique(indexes: Seq<IndexDef>) -> bool {
    forall|i: int, j: int|
        0 <= i < j < indexes.len() ==> !((#[trigger] indexes[i]).db == (#[trigger] indexes[j]).db
            && same_name(indexes[i].name@, indexes[j].name@))
}

/// The order of a stable sort is asymmetric, so an input has only one stable sort.
pub proof fn a_stable_sort_is_unique(
    st: Storage,
    input: Seq<StoredRow>,
    x: Seq<StoredRow>,
    y: Seq<StoredRow>,
    keys: Seq<SortKey>,
    exprs: Seq<EvalExpr>,
)
    requires
        input.no_duplicates(),
        is_stable_sort(st, input, x, keys, exprs),
        is_stable_sort(st, input, y, keys, exprs),
    ensures
        x == y,
{
    x.unique_seq_to_set();
    y.unique_seq_to_set();
    assert(x.to_set() =~= input.to_set()) by {
        assert forall|r: StoredRow| x.to_set().contains(r) == input.to_set().contains(r) by {
            assert(input.to_set().contains(r) <==> x.contains(r));
        }
    }
    assert(y.to_set() =~= input.to_set()) by {
        assert forall|r: StoredRow| y.to_set().contains(r) == input.to_set().contains(r) by {
            assert(input.to_set().contains(r) <==> y.contains(r));
        }
    }
    assert(x.len() == y.len());
    assert forall|i: int| 0 <= i < x.len() implies x[i] == y[i] by {
        same_at(st, input, x, y, keys, exprs, i);
    }
    assert(x =~= y);
}

proof fn same_at(
    st: Storage,
    input: Seq<StoredRow>,
    x: Seq<StoredRow>,
    y: Seq<StoredRow>,
    keys: Seq<SortKey>,
    exprs: Seq<EvalExpr>,
    i: int,
)
    requires
        input.no_duplicates(),
        is_stable_sort(st, input, x, keys, exprs),
        is_stable_sort(st, input, y, keys, exprs),
        x.len() == y.len(),
        0 <= i < x.len(),
    ensures
        x[i] == y[i],
    decreases i,
{
    assert forall|k: int| 0 <= k < i implies x[k] == y[k] by {
        same_at(st, input, x, y, keys, exprs, k);
    }
    if x[i] != y[i] {
        assert(x.contains(x[i]) && y.contains(y[i]));
        assert(input.to_set().contains(x[i]) && input.to_set().contains(y[i]));
        assert(y.contains(x[i]) && x.contains(y[i]));
        let j = choose|j: int| 0 <= j < y.len() && y[j] == x[i];
        let l = choose|l: int| 0 <= l < x.len() && x[l] == y[i];
        assert(j > i) by {
            if j < i {
                assert(x[j] == x[i]);
            }
        }
        assert(l > i) by {
            if l < i {
                assert(y[l] == y[i]);
            }
        }
        assert(stable_before(st, input, keys, exprs, y[i], y[j]));
        assert(stable_before(st, input, keys, exprs, x[i], x[l]));
        asymmetric(st, keys, exprs, x[i], y[i], 0);
        let a = x[i];
        let b = y[i];
        assert(stands_before(input, a, b) && stands_before(input, b, a));
        let (i1, j1) = choose|i1: int, j1: int|
            0 <= i1 < j1 < input.len() && #[trigger] input[i1] == a && #[trigger] input[j1] == b;
        let (i2, j2) = choose|i2: int, j2: int|
            0 <= i2 < j2 < input.len() && #[trigger] input[i2] == b && #[trigger] input[j2] == a;
        assert(input[i1] == input[j2]);
        assert(input[j1] == input[i2]);
    }
}

proof fn asymmetric(
    st: Storage,
    keys: Seq<SortKey>,
    exprs: Seq<EvalExpr>,
    a: StoredRow,
    b: StoredRow,
    i: int,
)
    ensures
        !(sorts_before(st, keys, exprs, a, b, i) && sorts_before(st, keys, exprs, b, a, i)),
    decreases keys.len() - i,
{
    if i < keys.len() {
        asymmetric(st, keys, exprs, a, b, i + 1);
    }
}

/// Entries in the order of an index are never out of the order of the keys that a run of its
/// key columns serves; where the run ends the key, they are in the order of the keys and then
/// of the rowid.
proof fn run_keeps_key_order(
    st: Storage,
    indexes: Seq<IndexDef>,
    k: int,
    td: TableDef,
    keys: Seq<SortKey>,
    exprs: Seq<EvalExpr>,
    p: nat,
    a: StoredRow,
    b: StoredRow,
    i: int,
)
    requires
        0 <= k < indexes.len(),
        stores(st, indexes, td),
        st.base == 0,
        of_table(st, indexes[k]),
        !td.without_rowid,
        st.rows.contains(a),
        st.rows.contains(b),
        common_direction(keys) == Some(ScanDirection::Forward),
        keys_fit_a_walk(keys),
        all_traced(keys, exprs, td.columns@.len()),
        run_serves(
            indexes[k],
            td,
            traced_registers(keys, exprs, td.columns@.len()),
            p,
        ),
        0 <= i <= keys.len(),
        entry_before(st, indexes, k, a, b, p + i),
    ensures
        !sorts_before(st, keys, exprs, b, a, i),
        p + keys.len() == indexes[k].columns@.len() ==> sorts_before(st, keys, exprs, a, b, i)
            || a.rowid < b.rowid,
    decreases keys.len() - i,
{
    if i < keys.len() {
        let regs = traced_registers(keys, exprs, td.columns@.len());
        assert(position_serves(indexes[k], td, regs[i], p + i));
        assert(traced(keys[i], exprs, td.columns@.len()) is Some);
        let x = (st.cell)(k, a, p + i);
        let y = (st.cell)(k, b, p + i);
        let name = indexes[k].columns@[p + i]@;
        binary_is_bytewise(indexes[k].key_columns@[p + i]);
        traced_key_reads_the_register(st, indexes, td, keys, exprs, a, i);
        traced_key_reads_the_register(st, indexes, td, keys, exprs, b, i);
        let c = register_holds_the_column(td, name, a);
        let d = register_holds_the_column(td, name, b);
        assert(c == d);
        assert(plain_key(indexes[k], p + i));
        assert(x == key_cell(st, keys, exprs, a, i));
        assert(y == key_cell(st, keys, exprs, b, i));
        assert(!keys[i].desc && nulls_agree(keys[i], ScanDirection::Forward));
        if x == y {
            run_keeps_key_order(st, indexes, k, td, keys, exprs, p, a, b, i + 1);
        } else {
            assert(x.less(y));
            assert(key_before(keys[i], x, y));
            assert(!key_before(keys[i], y, x));
        }
    }
}

/// Entries that agree on the first `p` key columns are ordered by the columns after them.
proof fn equal_prefix_is_passed(
    st: Storage,
    indexes: Seq<IndexDef>,
    k: int,
    a: StoredRow,
    b: StoredRow,
    p: int,
)
    requires
        0 <= p <= indexes[k].columns@.len(),
        forall|pos: int|
            0 <= pos < p ==> #[trigger] (st.cell)(k, a, pos) == (st.cell)(k, b, pos),
        entry_before(st, indexes, k, a, b, 0),
    ensures
        entry_before(st, indexes, k, a, b, p),
    decreases p,
{
    if p > 0 {
        equal_prefix_is_passed(st, indexes, k, a, b, p - 1);
    }
}

pub proof fn named_index_is_found(indexes: Seq<IndexDef>, k: int)
    requires
        0 <= k < indexes.len(),
        index_names_unique(indexes),
    ensures
        index_at(indexes, indexes[k].db, indexes[k].name@) == Some(k),
        tree_of(indexes, indexes[k].db, indexes[k].name@) == k,
        is_index(indexes, indexes[k].db, indexes[k].name@),
{
    let p = |i: int|
        indexes[i].db == indexes[k].db && same_name(indexes[i].name@, indexes[k].name@);
    lemma_least_from(p, 0, indexes.len() as int);
    assert(p(k));
    let t = tree_of(indexes, indexes[k].db, indexes[k].name@);
    assert(0 <= t < indexes.len() && indexes[t].db == indexes[k].db && fold(indexes[t].name@)
        == fold(indexes[k].name@));
}

/// The index that a scan names is the one that is found for it.
proof fn found_index_is_the_tree(indexes: Seq<IndexDef>, db: DbIndex, name: Seq<char>)
    requires
        index_names_unique(indexes),
        index_at(indexes, db, name) is Some,
    ensures
        0 <= tree_of(indexes, db, name) < indexes.len(),
        index_at(indexes, db, name) == Some(tree_of(indexes, db, name)),
        is_index(indexes, db, name),
{
    let p = |i: int| indexes[i].db == db && same_name(indexes[i].name@, name);
    lemma_least_from(p, 0, indexes.len() as int);
    let k = index_at(indexes, db, name)->Some_0;
    assert(p(k));
    let t = tree_of(indexes, db, name);
    assert(0 <= t < indexes.len() && indexes[t].db == db && fold(indexes[t].name@) == fold(name));
}

/// The register of a column holds the cell that the column stands for.
pub proof fn register_holds_the_column(td: TableDef, name: Seq<char>, r: StoredRow) -> (i: int)
    requires
        td.register_of(name) is Some,
        r.cells.len() == td.columns@.len(),
    ensures
        names_column(td, name, i),
        column_cell(td, r, i) == r.register(td.register_of(name)->Some_0),
{
    let p = |i: int| same_name(td.columns@[i].name@, name);
    lemma_least_from(p, 0, td.columns@.len() as int);
    let i = column_named(td.columns@, name)->Some_0;
    assert forall|j: int| 0 <= j < i implies !same_name((#[trigger] td.columns@[j]).name@, name) by {
        assert(!p(j));
    }
    assert(td.columns@.len() == td.columns.len());
    i
}

/// A key column that is ordered bytewise says so, or says nothing.
pub proof fn binary_is_bytewise(key: KeyColumn)
    requires
        key.binary(),
    ensures
        bytewise(key),
{
    reveal_strlit("BINARY");
    reveal_strlit("binary");
    assert(fold("BINARY"@) =~= "binary"@);
}

/// A key that traces to a register orders by what the register holds.
proof fn traced_key_reads_the_register(
    st: Storage,
    indexes: Seq<IndexDef>,
    td: TableDef,
    keys: Seq<SortKey>,
    exprs: Seq<EvalExpr>,
    row: StoredRow,
    i: int,
)
    requires
        stores(st, indexes, td),
        st.base == 0,
        st.rows.contains(row),
        0 <= i < keys.len(),
        keys[i].collation == Collation::Binary,
        traced(keys[i], exprs, td.columns@.len()) is Some,
    ensures
        key_cell(st, keys, exprs, row, i) == row.register(
            traced(keys[i], exprs, td.columns@.len())->Some_0 as int,
        ),
{
    let out = keys[i].expr->Column_0;
    let projected = exprs.map_values(|e: EvalExpr| (st.on_row)(e, row));
    assert(projected[out as int] == (st.on_row)(exprs[out as int], row));
    assert((st.on_output)(EvalExpr::Column(out), projected) == projected[out as int]);
}

/// Under a walk by rowid, rows come in the order of a single key that is the rowid.
proof fn rowid_walk_sorts(
    st: Storage,
    indexes: Seq<IndexDef>,
    keys: Seq<SortKey>,
    exprs: Seq<EvalExpr>,
    td: TableDef,
    a: StoredRow,
    b: StoredRow,
)
    requires
        stores(st, indexes, td),
        st.base == 0,
        st.rows.contains(a),
        st.rows.contains(b),
        keys.len() == 1,
        keys[0].collation == Collation::Binary,
        traced(keys[0], exprs, td.columns@.len()) == Some(td.columns@.len() as usize),
        if keys[0].desc {
            b.rowid < a.rowid
        } else {
            a.rowid < b.rowid
        },
    ensures
        sorts_before(st, keys, exprs, a, b, 0),
{
    traced_key_reads_the_register(st, indexes, td, keys, exprs, a, 0);
    traced_key_reads_the_register(st, indexes, td, keys, exprs, b, 0);
    assert(td.columns@.len() == td.columns.len());
    assert(key_cell(st, keys, exprs, a, 0) == Cell::At(a.rowid));
    assert(key_cell(st, keys, exprs, b, 0) == Cell::At(b.rowid));
}

/// A rewrite changes the scan and leaves the filters above it as they are.
proof fn filters_stay(st: Storage, node: PlanNode, rw: LeafRewrite, r: StoredRow)
    requires
        leaf_of(node) is Some,
    ensures
        scan_under(node) == leaf_of(node),
        scan_under(with_leaf_rewritten(node, rw)) == Some(
            rewritten_leaf(leaf_of(node)->Some_0, rw),
        ),
        filters_keep(st, with_leaf_rewritten(node, rw), r) == filters_keep(st, node, r),
    decreases node,
{
    if let PlanNode::Filter { input, .. } = node {
        filters_stay(st, *input, rw, r);
    }
}

/// The rewritten scan finds the rows that the scan found: it differs in direction, or it is a
/// walk of the table or of an index that has an entry for every row.
proof fn the_same_rows_are_found(
    st: Storage,
    catalog: Catalog,
    leaf: PlanNode,
    exprs: Seq<EvalExpr>,
    keys: Seq<SortKey>,
    r: StoredRow,
)
    requires
        leaf_rewrite(catalog, leaf, exprs, keys) is Some,
        index_names_unique(catalog.indexes@),
        leaf_table(leaf)->Some_0.1 == st.db,
    ensures
        scan_finds(
            st,
            catalog.indexes@,
            rewritten_leaf(leaf, leaf_rewrite(catalog, leaf, exprs, keys)->Some_0),
            r,
        ) == scan_finds(st, catalog.indexes@, leaf, r),
{
    let indexes = catalog.indexes@;
    let rw = leaf_rewrite(catalog, leaf, exprs, keys)->Some_0;
    if let PlanNode::SeqScan(s) = leaf {
        if rw is FullIndex {
            let td = catalog.tables@[table_at(catalog.tables@, s.db, s.table@)->Some_0];
            let regs = traced_registers(keys, exprs, td.columns@.len());
            let k = exact_index(indexes, s.db, s.table@, td, regs)->Some_0;
            lemma_least_from(
                |i: int| index_is_exactly(indexes[i], s.db, s.table@, td, regs),
                0,
                indexes.len() as int,
            );
            named_index_is_found(indexes, k);
        }
    }
}

/// Only a projection of a chain of filters over a scan is rewritten. It stays a projection of the
/// same columns, of filters over a scan of the same table as wide as before, which takes from an
/// index alone only what it took from it before.
pub proof fn only_the_scan_under_a_projection_changes(
    catalog: Catalog,
    node: PlanNode,
    keys: Seq<SortKey>,
)
    requires
        order_rewrite(catalog, node, keys) is Some,
    ensures
        ({
            let rw = order_rewrite(catalog, node, keys)->Some_0;
            &&& node matches PlanNode::Project { input, exprs }
            &&& project_rewritten(node, rw) matches PlanNode::Project {
                input: new_input,
                exprs: new_exprs,
            }
            &&& new_exprs == exprs
            &&& scan_under(*input) matches Some(leaf)
            &&& scan_under(*new_input) matches Some(new_leaf)
            &&& scanned(new_leaf) == scanned(leaf)
            &&& index_alone(new_leaf) ==> index_alone(leaf)
        }),
{
    let rw = order_rewrite(catalog, node, keys)->Some_0;
    let st: Storage = arbitrary();
    filters_stay(st, *node->Project_input, rw, arbitrary());
}

/// Whether a scan takes its rows from an index without fetching them from the table.
pub open spec fn index_alone(leaf: PlanNode) -> bool {
    leaf matches PlanNode::IndexScan(s) && s.covering
}

/// The table that a scan reads, its namespace, and how many columns a row has.
pub open spec fn scanned(leaf: PlanNode) -> (Seq<char>, DbIndex, usize) {
    match leaf {
        PlanNode::SeqScan(s) => (s.table@, s.db, s.column_count),
        PlanNode::RowidScan(s) => (s.table@, s.db, s.column_count),
        PlanNode::IndexScan(s) => (s.table@, s.db, s.column_count),
        _ => arbitrary(),
    }
}

/// Whether table `j` of the catalog is the first of a name in a namespace.
pub open spec fn is_first_table(catalog: Catalog, db: DbIndex, name: Seq<char>, j: int) -> bool {
    &&& 0 <= j < catalog.tables@.len()
    &&& catalog.tables@[j].db == db
    &&& fold(catalog.tables@[j].name@) == fold(name)
    &&& forall|i: int|
        0 <= i < j ==> !((#[trigger] catalog.tables@[i]).db == db && fold(catalog.tables@[i].name@)
            == fold(name))
}

/// Whether the stored table is the one that a scan with no row before its own reads, and `td` its
/// definition.
pub open spec fn holds_the_table(
    catalog: Catalog,
    st: Storage,
    td: TableDef,
    leaf: PlanNode,
) -> bool {
    &&& stores(st, catalog.indexes@, td)
    &&& st.base == 0
    &&& reads(st, scanned(leaf).1, scanned(leaf).0)
    &&& exists|j: int| #[trigger]
        is_first_table(catalog, st.db, st.table, j) && catalog.tables@[j] == td
}

proof fn the_first_table_is_found(
    catalog: Catalog,
    db: DbIndex,
    name: Seq<char>,
    alias: Seq<char>,
)
    requires
        fold(name) == fold(alias),
    ensures
        forall|j: int| #[trigger]
            is_first_table(catalog, db, name, j) ==> table_at(catalog.tables@, db, alias) == Some(j),
{
    let p = |i: int| catalog.tables@[i].db == db && same_name(catalog.tables@[i].name@, alias);
    lemma_least_from(p, 0, catalog.tables@.len() as int);
    assert forall|j: int| #[trigger] is_first_table(catalog, db, name, j) implies table_at(
        catalog.tables@,
        db,
        alias,
    ) == Some(j) by {
        assert(p(j));
        let found = table_at(catalog.tables@, db, alias)->Some_0;
        if found < j {
            assert(p(found));
        }
    }
}

/// A projection whose scan is rewritten to serve an order emits exactly what a stable sort by
/// the keys makes of the rows that it emitted before, so the sort may be left out.
///
/// `before` is what the row source under the projection emits, and `after` what it emits once
/// its scan is rewritten. An index that was walked from its end emits rows that tie the other
/// way round, so there the keys have to tell the rows apart.
pub proof fn a_rewritten_scan_emits_the_sorted_rows(
    catalog: Catalog,
    st: Storage,
    node: PlanNode,
    keys: Seq<SortKey>,
    td: TableDef,
    before: Seq<StoredRow>,
    after: Seq<StoredRow>,
)
    requires
        order_rewrite(catalog, node, keys) is Some,
        index_names_unique(catalog.indexes@),
        holds_the_table(catalog, st, td, scan_under(*node->Project_input)->Some_0),
        emits(st, catalog.indexes@, *node->Project_input, before),
        emits(
            st,
            catalog.indexes@,
            *project_rewritten(node, order_rewrite(catalog, node, keys)->Some_0)->Project_input,
            after,
        ),
        walks_back(scan_under(*node->Project_input)->Some_0) ==> no_ties(
            st,
            before,
            keys,
            node->Project_exprs@,
        ),
    ensures
        is_stable_sort(st, before, after, keys, node->Project_exprs@),
{
    let exprs = node->Project_exprs@;
    let input = *node->Project_input;
    let leaf = leaf_of(input)->Some_0;
    let rw = order_rewrite(catalog, node, keys)->Some_0;
    let new_leaf = rewritten_leaf(leaf, rw);
    let n = td.columns@.len();
    let dir = common_direction(keys)->Some_0;
    let regs = traced_registers(keys, exprs, n);
    let indexes = catalog.indexes@;
    filters_stay(st, input, rw, arbitrary());
    the_first_table_is_found(catalog, st.db, st.table, leaf_table(leaf)->Some_0.0);
    assert forall|r: StoredRow| before.contains(r) == after.contains(r) by {
        filters_stay(st, input, rw, r);
        the_same_rows_are_found(st, catalog, leaf, exprs, keys, r);
    }
    assert(lists(after, before.to_set())) by {
        assert forall|r: StoredRow| #[trigger] before.to_set().contains(r) <==> after.contains(r) by {
            assert(before.contains(r) == after.contains(r));
        }
    }
    assert forall|i: int, j: int| 0 <= i < j < after.len() implies stable_before(
        st,
        before,
        keys,
        exprs,
        #[trigger] after[i],
        #[trigger] after[j],
    ) by {
        let a = after[i];
        let b = after[j];
        filters_stay(st, input, rw, a);
        assert(after.contains(a) && after.contains(b));
        assert(before.contains(a) && before.contains(b));
        assert(scan_finds(st, indexes, leaf, a) && scan_finds(st, indexes, leaf, b));
        assert(st.rows.contains(a) && st.rows.contains(b));
        assert(scan_before(st, indexes, new_leaf, a, b));
        if by_rowid(regs, n, dir, leaf) is Some {
            assert(traced(keys[0], exprs, n) is Some);
            assert(regs[0] == n);
            assert(keys[0].desc == (dir == ScanDirection::Reverse));
            rowid_walk_sorts(st, indexes, keys, exprs, td, a, b);
        } else {
            assert(by_index(indexes, td, n, regs, dir, leaf) == Some(rw));
            match leaf {
                PlanNode::IndexScan(s) => {
                    found_index_is_the_tree(indexes, s.db, s.index@);
                    let k = index_at(indexes, s.db, s.index@)->Some_0;
                    let p = s.op->Seek_eq_prefix@.len();
                    lemma_least_from(
                        |i: int| indexes[i].db == s.db && same_name(indexes[i].name@, s.index@),
                        0,
                        indexes.len() as int,
                    );
                    assert(position_serves(indexes[k], td, regs[0], p as int));
                    assert(entry_before(st, indexes, k, a, b, 0));
                    equal_prefix_is_passed(st, indexes, k, a, b, p as int);
                    run_keeps_key_order(st, indexes, k, td, keys, exprs, p, a, b, 0);
                    assert(a != b);
                    if walks_back(leaf) {
                        assert(sorts_before(st, keys, exprs, a, b, 0));
                    } else {
                        // The walk is the one there was before, so `a` stands before `b` there.
                        let ia = choose|q: int| 0 <= q < before.len() && before[q] == a;
                        let ib = choose|q: int| 0 <= q < before.len() && before[q] == b;
                        if ib < ia {
                            assert(scan_before(st, indexes, leaf, before[ib], before[ia]));
                            entries_asymmetric(st, indexes, k, a, b, 0);
                        }
                        assert(before[ia] == a && before[ib] == b && ia < ib);
                        assert(stands_before(before, a, b));
                    }
                },
                PlanNode::SeqScan(s) => {
                    let k = exact_index(indexes, s.db, s.table@, td, regs)->Some_0;
                    lemma_least_from(
                        |i: int| index_is_exactly(indexes[i], s.db, s.table@, td, regs),
                        0,
                        indexes.len() as int,
                    );
                    named_index_is_found(indexes, k);
                    assert(entry_before(st, indexes, k, a, b, 0));
                    run_keeps_key_order(st, indexes, k, td, keys, exprs, 0, a, b, 0);
                    if !sorts_before(st, keys, exprs, a, b, 0) {
                        let ia = choose|q: int| 0 <= q < before.len() && before[q] == a;
                        let ib = choose|q: int| 0 <= q < before.len() && before[q] == b;
                        assert(a.rowid < b.rowid);
                        if ib < ia {
                            assert(scan_before(st, indexes, leaf, before[ib], before[ia]));
                        }
                        assert(before[ia] == a && before[ib] == b && ia < ib);
                        assert(stands_before(before, a, b));
                    }
                },
                _ => {},
            }
        }
    }
}

proof fn entries_asymmetric(
    st: Storage,
    indexes: Seq<IndexDef>,
    k: int,
    a: StoredRow,
    b: StoredRow,
    i: int,
)
    requires
        !st.without_rowid,
    ensures
        !(entry_before(st, indexes, k, a, b, i) && entry_before(st, indexes, k, b, a, i)),
    decreases indexes[k].columns@.len() - i,
{
    if i < indexes[k].columns@.len() {
        entries_asymmetric(st, indexes, k, a, b, i + 1);
    }
}

/// Whether `td` is the one table of the catalog that a scan reads.
pub open spec fn is_scanned_table(catalog: Catalog, td: TableDef, leaf: PlanNode) -> bool {
    &&& exists|j: int|
        0 <= j < catalog.tables@.len() && (#[trigger] catalog.tables@[j]).db == scanned(leaf).1
            && fold(catalog.tables@[j].name@) == fold(scanned(leaf).0)
    &&& forall|j: int|
        0 <= j < catalog.tables@.len() && (#[trigger] catalog.tables@[j]).db == scanned(leaf).1
            && fold(catalog.tables@[j].name@) == fold(scanned(leaf).0) ==> catalog.tables@[j] == td
}

proof fn the_scanned_table_is_found(catalog: Catalog, td: TableDef, leaf: PlanNode)
    requires
        is_scanned_table(catalog, td, leaf),
    ensures
        table_at(catalog.tables@, scanned(leaf).1, scanned(leaf).0) is Some,
        catalog.tables@[table_at(
            catalog.tables@,
            scanned(leaf).1,
            scanned(leaf).0,
        )->Some_0] == td,
{
    let p = |i: int|
        catalog.tables@[i].db == scanned(leaf).1 && same_name(
            catalog.tables@[i].name@,
            scanned(leaf).0,
        );
    lemma_least_from(p, 0, catalog.tables@.len() as int);
    let j = choose|j: int|
        0 <= j < catalog.tables@.len() && (#[trigger] catalog.tables@[j]).db == scanned(leaf).1
            && fold(catalog.tables@[j].name@) == fold(scanned(leaf).0);
    assert(p(j));
}

/// An order by the rowid alone, either way, needs no sort over a scan of the table or of a range of
/// its rowids, as long as it asks for NULLs where they would be anyway.
pub proof fn an_order_by_rowid_needs_no_sort(
    catalog: Catalog,
    input: PlanNode,
    exprs: Vec<EvalExpr>,
    key: SortKey,
    td: TableDef,
    out: usize,
)
    requires
        scan_under(input) is Some,
        scan_under(input)->Some_0 is SeqScan || scan_under(input)->Some_0 is RowidScan,
        is_scanned_table(catalog, td, scan_under(input)->Some_0),
        !td.without_rowid,
        scanned(scan_under(input)->Some_0).2 == td.columns@.len(),
        key.expr == EvalExpr::Column(out),
        out < exprs@.len(),
        exprs@[out as int] == EvalExpr::Column(td.columns@.len() as usize),
        key.collation == Collation::Binary,
        key.nulls_first is None || key.nulls_first == Some(!key.desc),
    ensures
        order_rewrite(
            catalog,
            PlanNode::Project { input: Box::new(input), exprs },
            seq![key],
        ) is Some,
{
    let leaf = scan_under(input)->Some_0;
    let keys = seq![key];
    let n = td.columns@.len();
    the_scan_is_the_leaf(input);
    the_scanned_table_is_found(catalog, td, leaf);
    assert(td.columns@.len() == td.columns.len());
    assert(keys[0] == key);
    if key.desc {
        assert(!(forall|i: int| 0 <= i < keys.len() ==> !(#[trigger] keys[i]).desc)) by {
            assert(keys[0].desc);
        }
    }
    assert(common_direction(keys) == Some(
        if key.desc {
            ScanDirection::Reverse
        } else {
            ScanDirection::Forward
        },
    ));
    assert(keys_fit_a_walk(keys));
    let regs = traced_registers(keys, exprs@, n);
    assert(traced(keys[0], exprs@, n) == Some(n as usize));
    assert(all_traced(keys, exprs@, n));
    assert(regs.len() == 1 && regs[0] == n);
}

proof fn the_scan_is_the_leaf(node: PlanNode)
    requires
        scan_under(node) is Some,
    ensures
        leaf_of(node) == scan_under(node),
        leaf_table(scan_under(node)->Some_0) == Some(scanned(scan_under(node)->Some_0)),
    decreases node,
{
    if let PlanNode::Filter { input, .. } = node {
        the_scan_is_the_leaf(*input);
    }
}

/// Only an index over all rows serves an order.
pub proof fn a_partial_index_serves_no_order(catalog: Catalog, node: PlanNode, keys: Seq<SortKey>)
    requires
        order_rewrite(catalog, node, keys) is Some,
        index_names_unique(catalog.indexes@),
    ensures
        ({
            let rw = order_rewrite(catalog, node, keys)->Some_0;
            let leaf = scan_under(*project_rewritten(node, rw)->Project_input)->Some_0;
            leaf matches PlanNode::IndexScan(s) ==> !catalog.indexes@[tree_of(
                catalog.indexes@,
                s.db,
                s.index@,
            )].partial
        }),
{
    let rw = order_rewrite(catalog, node, keys)->Some_0;
    let indexes = catalog.indexes@;
    let input = *node->Project_input;
    let st: Storage = arbitrary();
    filters_stay(st, input, rw, arbitrary());
    let leaf = leaf_of(input)->Some_0;
    match leaf {
        PlanNode::IndexScan(s) => {
            found_index_is_the_tree(indexes, s.db, s.index@);
        },
        PlanNode::SeqScan(s) => {
            if rw is FullIndex {
                let td = catalog.tables@[table_at(catalog.tables@, s.db, s.table@)->Some_0];
                let exprs = node->Project_exprs@;
                let regs = traced_registers(keys, exprs, td.columns@.len());
                let k = exact_index(indexes, s.db, s.table@, td, regs)->Some_0;
                lemma_least_from(
                    |i: int| index_is_exactly(indexes[i], s.db, s.table@, td, regs),
                    0,
                    indexes.len() as int,
                );
                named_index_is_found(indexes, k);
            }
        },
        _ => {},
    }
}

/// Whether key `i` is ascending and bytewise, has NULLs first, and orders by column `reg` of the
/// table through the projection.
pub open spec fn ascends_by(key: SortKey, exprs: Seq<EvalExpr>, reg: usize) -> bool {
    &&& !key.desc
    &&& key.nulls_first is None || key.nulls_first == Some(true)
    &&& key.collation == Collation::Binary
    &&& key.expr matches EvalExpr::Column(out) && out < exprs.len() && exprs[out as int]
        == EvalExpr::Column(reg)
}

/// Whether key column `pos` of an index is column `reg` of the table, kept ascending and bytewise.
pub open spec fn keeps_column(idx: IndexDef, td: TableDef, reg: usize, pos: int) -> bool {
    &&& plain_key(idx, pos)
    &&& pos < idx.key_exprs@.len()
    &&& !kept_descending(idx, pos)
    &&& names_column(td, idx.columns@[pos]@, reg as int)
    &&& td.rowid_alias != Some(reg)
}

proof fn a_kept_column_serves(idx: IndexDef, td: TableDef, reg: usize, pos: int)
    requires
        keeps_column(idx, td, reg, pos),
    ensures
        position_serves(idx, td, reg, pos),
{
    let name = idx.columns@[pos]@;
    let q = |j: int| same_name(td.columns@[j].name@, name);
    lemma_least_from(q, 0, td.columns@.len() as int);
    assert(q(reg as int));
    let found = column_named(td.columns@, name)->Some_0;
    assert(found == reg) by {
        if found < reg {
            assert(q(found));
        }
    }
    assert(idx.key_columns@[pos].binary()) by {
        reveal_strlit("BINARY");
        reveal_strlit("binary");
        assert(fold("BINARY"@) =~= "binary"@);
    }
}

/// An ascending order by the whole key of an index over all rows needs no sort over a scan of the
/// table.
pub proof fn an_order_by_a_whole_index_needs_no_sort(
    catalog: Catalog,
    input: PlanNode,
    exprs: Vec<EvalExpr>,
    keys: Seq<SortKey>,
    regs: Seq<usize>,
    td: TableDef,
    k: int,
)
    requires
        scan_under(input) is Some,
        scan_under(input)->Some_0 is SeqScan,
        is_scanned_table(catalog, td, scan_under(input)->Some_0),
        !td.without_rowid,
        scanned(scan_under(input)->Some_0).2 == td.columns@.len(),
        keys.len() > 0,
        regs.len() == keys.len(),
        forall|i: int| 0 <= i < keys.len() ==> ascends_by(#[trigger] keys[i], exprs@, regs[i]),
        0 <= k < catalog.indexes@.len(),
        catalog.indexes@[k].db == scanned(scan_under(input)->Some_0).1,
        fold(catalog.indexes@[k].table@) == fold(scanned(scan_under(input)->Some_0).0),
        !catalog.indexes@[k].partial,
        catalog.indexes@[k].columns@.len() == keys.len(),
        forall|i: int|
            0 <= i < regs.len() ==> keeps_column(catalog.indexes@[k], td, #[trigger] regs[i], i),
    ensures
        order_rewrite(catalog, PlanNode::Project { input: Box::new(input), exprs }, keys) is Some,
{
    let leaf = scan_under(input)->Some_0;
    let n = td.columns@.len();
    let indexes = catalog.indexes@;
    the_scan_is_the_leaf(input);
    the_scanned_table_is_found(catalog, td, leaf);
    assert(td.columns@.len() == td.columns.len());
    assert forall|i: int| 0 <= i < keys.len() implies !(#[trigger] keys[i]).desc by {
        assert(ascends_by(keys[i], exprs@, regs[i]));
    }
    assert(common_direction(keys) == Some(ScanDirection::Forward));
    assert forall|i: int| 0 <= i < keys.len() implies (#[trigger] keys[i]).collation
        == Collation::Binary && nulls_agree(keys[i], ScanDirection::Forward) by {
        assert(ascends_by(keys[i], exprs@, regs[i]));
    }
    assert forall|i: int| 0 <= i < keys.len() implies traced(#[trigger] keys[i], exprs@, n) == Some(
        regs[i],
    ) by {
        assert(ascends_by(keys[i], exprs@, regs[i]));
        assert(keeps_column(indexes[k], td, regs[i], i));
    }
    assert(all_traced(keys, exprs@, n)) by {
        assert forall|i: int| 0 <= i < keys.len() implies traced(#[trigger] keys[i], exprs@, n) is Some by {
            assert(traced(keys[i], exprs@, n) == Some(regs[i]));
        }
    }
    assert(traced_registers(keys, exprs@, n) =~= regs);
    assert forall|i: int| 0 <= i < regs.len() implies (#[trigger] regs[i]) < n by {
        assert(keeps_column(indexes[k], td, regs[i], i));
    }
    assert forall|j: int| 0 <= j < regs.len() implies position_serves(
        indexes[k],
        td,
        #[trigger] regs[j],
        0 + j,
    ) by {
        a_kept_column_serves(indexes[k], td, regs[j], j);
    }
    let s = leaf->SeqScan_0;
    let p = |i: int| index_is_exactly(indexes[i], s.db, s.table@, td, regs);
    lemma_least_from(p, 0, indexes.len() as int);
    assert(run_serves(indexes[k], td, regs, 0));
    assert(p(k));
}

} // verus!
