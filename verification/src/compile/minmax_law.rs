//! A seek of [`minmax_index`](crate::compile::minmax_index) finds the value that the aggregate
//! over the scan computes.

#[allow(unused_imports)]
use vstd::prelude::*;
use crate::catalog::{column_named, Catalog, IndexDef, TableDef};
use crate::compile::minmax_index::{leftmost_index, leftmost_serves, seek_of, sole_argument};
use crate::compile::order_law::{
    binary_is_bytewise, emits, entry_before, has_entry, index_names_unique, kept_descending,
    named_index_is_found, names_column, plain_key, register_holds_the_column, row_before, stores,
    tree_of, Cell, Storage, StoredRow,
};
use crate::expr::{AggregateCall, EvalExpr};
use crate::plan::{Aggregate, MinMaxSource, PlanNode};
use crate::scope::Source;
use crate::search::lemma_least_from;
use crate::text::{fold, same_name};
use crate::types::{Affinity, Collation, DbIndex};

verus! {

/// Whether a row counts towards an aggregate call: it passes the call's `FILTER`.
pub open spec fn counts(st: Storage, call: AggregateCall, r: StoredRow) -> bool {
    call.filter matches Some(f) ==> (st.keeps)(f, r)
}

/// The collation under which the argument of a call is compared.
pub open spec fn argument_collation(call: AggregateCall) -> Collation {
    if call.arg_collations@.len() > 0 {
        call.arg_collations@[0]
    } else {
        Collation::Binary
    }
}

/// The argument of a call on a row, as the call compares it.
pub open spec fn argument_on(st: Storage, call: AggregateCall, r: StoredRow) -> Cell {
    (st.collated)(argument_collation(call), (st.on_row)(call.args@[0], r))
}

/// Whether `c` is the `MAX` (or `MIN`) that a call computes over `rows`: NULL where no row that
/// counts has a value, else the argument of some row that counts, which the argument of no such
/// row exceeds (or is below).
pub open spec fn is_extremum(
    st: Storage,
    call: AggregateCall,
    is_max: bool,
    rows: Set<StoredRow>,
    c: Cell,
) -> bool {
    match c {
        Cell::Null => forall|r: StoredRow| #[trigger]
            rows.contains(r) && counts(st, call, r) ==> argument_on(st, call, r) is Null,
        Cell::At(v) => {
            &&& exists|r: StoredRow| #[trigger]
                rows.contains(r) && counts(st, call, r) && argument_on(st, call, r) == c
            &&& forall|r: StoredRow| #[trigger]
                rows.contains(r) && counts(st, call, r) ==> match argument_on(st, call, r) {
                    Cell::Null => true,
                    Cell::At(w) => if is_max {
                        w <= v
                    } else {
                        v <= w
                    },
                }
        },
    }
}

/// What a seek reads off a b-tree whose keys, in order, are `keys`: the last key for `MAX`, the
/// first that is not NULL for `MIN`, and NULL where there is none.
pub open spec fn read_off(keys: Seq<Cell>, is_max: bool) -> Cell
    decreases keys.len(),
{
    if keys.len() == 0 {
        Cell::Null
    } else if is_max {
        keys.last()
    } else if keys[0] is Null {
        read_off(keys.drop_first(), is_max)
    } else {
        keys[0]
    }
}

/// The first keys of the entries of a b-tree, in the order of the b-tree.
pub open spec fn first_keys(
    source: MinMaxSource,
    st: Storage,
    k: int,
    entries: Seq<StoredRow>,
) -> Seq<Cell> {
    match source {
        MinMaxSource::Rowid => entries.map_values(|r: StoredRow| Cell::At(r.rowid)),
        MinMaxSource::Index { .. } => entries.map_values(|r: StoredRow| (st.cell)(k, r, 0)),
    }
}

/// Whether a b-tree has an entry for a row: the table's own has one for every row of the table.
pub open spec fn in_tree(
    source: MinMaxSource,
    st: Storage,
    indexes: Seq<IndexDef>,
    k: int,
    r: StoredRow,
) -> bool {
    match source {
        MinMaxSource::Rowid => st.rows.contains(r),
        MinMaxSource::Index { .. } => has_entry(st, indexes, k, r),
    }
}

/// Whether `entries` are the entries of the b-tree in its order: the table's own, or index `k`.
pub open spec fn in_tree_order(
    source: MinMaxSource,
    st: Storage,
    indexes: Seq<IndexDef>,
    k: int,
    entries: Seq<StoredRow>,
) -> bool {
    &&& entries.no_duplicates()
    &&& forall|r: StoredRow| #[trigger]
        entries.contains(r) <==> in_tree(source, st, indexes, k, r)
    &&& forall|i: int, j: int|
        0 <= i < j < entries.len() ==> match source {
            MinMaxSource::Rowid => row_before(st, #[trigger] entries[i], #[trigger] entries[j]),
            MinMaxSource::Index { .. } => entry_before(
                st,
                indexes,
                k,
                #[trigger] entries[i],
                #[trigger] entries[j],
                0,
            ),
        }
}

/// Whether keys come in the order of a b-tree.
spec fn ascending(keys: Seq<Cell>) -> bool {
    forall|i: int, j: int|
        0 <= i < j < keys.len() ==> #[trigger] keys[i] == #[trigger] keys[j] || keys[i].less(
            keys[j],
        )
}

proof fn read_off_is_extremum(keys: Seq<Cell>, is_max: bool)
    requires
        ascending(keys),
    ensures
        match read_off(keys, is_max) {
            Cell::Null => forall|i: int| 0 <= i < keys.len() ==> #[trigger] keys[i] is Null,
            Cell::At(v) => {
                &&& exists|i: int| 0 <= i < keys.len() && #[trigger] keys[i] == Cell::At(v)
                &&& forall|i: int|
                    0 <= i < keys.len() ==> match #[trigger] keys[i] {
                        Cell::Null => true,
                        Cell::At(w) => if is_max {
                            w <= v
                        } else {
                            v <= w
                        },
                    }
            },
        },
    decreases keys.len(),
{
    if keys.len() > 0 {
        if is_max {
            let last = keys.len() - 1;
            assert(keys[last] == keys.last());
            assert forall|i: int| 0 <= i < last implies #[trigger] keys[i] == keys[last]
                || keys[i].less(keys[last]) by {}
        } else if keys[0] is Null {
            let rest = keys.drop_first();
            assert forall|i: int, j: int| 0 <= i < j < rest.len() implies #[trigger] rest[i]
                == #[trigger] rest[j] || rest[i].less(rest[j]) by {
                assert(rest[i] == keys[i + 1] && rest[j] == keys[j + 1]);
            }
            read_off_is_extremum(rest, is_max);
            assert forall|i: int| 0 < i < keys.len() implies keys[i] == rest[i - 1] by {}
            match read_off(rest, is_max) {
                Cell::Null => {
                    assert forall|i: int| 0 <= i < keys.len() implies #[trigger] keys[i] is Null by {
                        if i > 0 {
                            assert(rest[i - 1] is Null);
                        }
                    }
                },
                Cell::At(v) => {
                    let i = choose|i: int| 0 <= i < rest.len() && #[trigger] rest[i] == Cell::At(v);
                    assert(keys[i + 1] == Cell::At(v));
                    assert forall|i: int| 0 <= i < keys.len() implies match #[trigger] keys[i] {
                        Cell::Null => true,
                        Cell::At(w) => v <= w,
                    } by {
                        if i > 0 {
                            assert(keys[i] == rest[i - 1]);
                        }
                    }
                },
            }
        } else {
            assert(keys[0] == read_off(keys, is_max));
            assert forall|i: int| 0 < i < keys.len() implies keys[0] == #[trigger] keys[i]
                || keys[0].less(keys[i]) by {}
        }
    }
}

/// A seek stands only for an aggregate that is one call with one argument over the whole of its
/// input: nothing groups the rows, nothing drops the one group, and no other column is carried.
/// Its input is a scan of the one table of the query, kept by rowid, and the b-tree of the seek
/// is one of that table. A column of `BLOB` affinity is not read off an index.
pub proof fn a_seek_replaces_one_call_over_one_table(
    sources: Seq<Source<'_>>,
    catalog: Catalog,
    agg: Aggregate,
    asked: Option<bool>,
)
    requires
        seek_of(sources, catalog.indexes@, agg, asked) is Some,
    ensures
        ({
            let seek = seek_of(sources, catalog.indexes@, agg, asked)->Some_0;
            &&& asked == Some(seek.is_max)
            &&& agg.group_by@.len() == 0
            &&& agg.having is None
            &&& agg.minmax_bare is None
            &&& agg.bare_arbitrary is None
            &&& agg.aggregates@.len() == 1
            &&& agg.aggregates@[0].args@.len() == 1
            &&& !agg.aggregates@[0].distinct
            &&& agg.aggregates@[0].order_by@.len() == 0
            &&& sources.len() == 1
            &&& sources[0] matches Source::BaseTable { table, db, base, .. }
            &&& *agg.input matches PlanNode::SeqScan(scan)
            &&& scan.db == db
            &&& fold(scan.table@) == fold(table.name@)
            &&& seek.db == db
            &&& fold(seek.table@) == fold(table.name@)
            &&& !table.without_rowid
            &&& agg.aggregates@[0].args@[0] matches EvalExpr::Column(reg)
            &&& base <= reg <= base + table.columns@.len()
            &&& seek.source is Rowid <==> reg == base + table.columns@.len()
            &&& seek.source is Index ==> table.columns@[reg - base].affinity != Affinity::Blob
        }),
{
}

/// The value read off the b-tree of the seek is the `MIN` or `MAX` that the aggregate computes
/// over the rows that its own input emits, which are all the rows of the table.
///
/// `rows` are the rows that the input of the aggregate emits, and `entries` the entries of the
/// b-tree that the seek names, in its order: the table's own, or index `k`, which is the first that
/// serves or the one index of its name. An index that serves has an entry for every row, whatever
/// its later key columns are.
pub proof fn a_seek_finds_the_extremum(
    sources: Seq<Source<'_>>,
    catalog: Catalog,
    agg: Aggregate,
    is_max: bool,
    st: Storage,
    k: int,
    rows: Seq<StoredRow>,
    entries: Seq<StoredRow>,
)
    requires
        seek_of(sources, catalog.indexes@, agg, Some(is_max)) is Some,
        ({
            let seek = seek_of(sources, catalog.indexes@, agg, Some(is_max))->Some_0;
            &&& stores(st, catalog.indexes@, *sources[0]->BaseTable_table)
            &&& st.db == sources[0]->BaseTable_db
            &&& st.base == sources[0]->BaseTable_base
            &&& seek.source matches MinMaxSource::Index { index } ==> leftmost_index(
                catalog.indexes@,
                sources[0]->BaseTable_db,
                *sources[0]->BaseTable_table,
                sole_argument(agg)->Some_0 - sources[0]->BaseTable_base,
            ) == Some(k) || index_names_unique(catalog.indexes@) && k == tree_of(
                catalog.indexes@,
                seek.db,
                index@,
            )
            &&& in_tree_order(seek.source, st, catalog.indexes@, k, entries)
        }),
    ensures
        ({
            let seek = seek_of(sources, catalog.indexes@, agg, Some(is_max))->Some_0;
            let value = read_off(first_keys(seek.source, st, k, entries), seek.is_max);
            &&& is_extremum(st, agg.aggregates@[0], is_max, st.rows, value)
            &&& emits(st, catalog.indexes@, *agg.input, rows) ==> is_extremum(
                st,
                agg.aggregates@[0],
                is_max,
                rows.to_set(),
                value,
            )
        }),
{
    let td = *sources[0]->BaseTable_table;
    let db = sources[0]->BaseTable_db;
    let source = seek_of(sources, catalog.indexes@, agg, Some(is_max))->Some_0.source;
    let call = agg.aggregates@[0];
    let column = sole_argument(agg)->Some_0;
    let reg = column - st.base;
    let keys = first_keys(source, st, k, entries);
    let indexes = catalog.indexes@;
    if source is Index {
        lemma_least_from(
            |i: int| indexes[i].is_on(db, td.name@) && leftmost_serves(indexes[i], td, reg),
            0,
            indexes.len() as int,
        );
        let found = leftmost_index(indexes, db, td, reg)->Some_0;
        if index_names_unique(indexes) {
            named_index_is_found(indexes, found);
        }
        assert(k == found);
        binary_is_bytewise(indexes[k].key_columns@[0]);
        assert(plain_key(indexes[k], 0));
    }
    assert forall|r: StoredRow| #[trigger] st.rows.contains(r) implies argument_on(st, call, r)
        == r.register(reg) by {
        assert((st.on_row)(EvalExpr::Column(column), r) == r.register(reg));
    }
    if emits(st, indexes, *agg.input, rows) {
        assert forall|r: StoredRow| #[trigger] rows.to_set().contains(r) == st.rows.contains(r) by {
            assert(rows.contains(r) == st.rows.contains(r));
        }
        assert(rows.to_set() =~= st.rows);
    }
    assert forall|i: int| 0 <= i < entries.len() implies #[trigger] keys[i] == argument_on(
        st,
        call,
        entries[i],
    ) by {
        assert(entries.contains(entries[i]));
        assert(st.rows.contains(entries[i]));
        if source is Index {
            let c = register_holds_the_column(td, indexes[k].columns@[0]@, entries[i]);
            assert((st.cell)(k, entries[i], 0) == entries[i].register(reg));
        }
    }
    assert(ascending(keys)) by {
        assert forall|i: int, j: int| 0 <= i < j < keys.len() implies #[trigger] keys[i]
            == #[trigger] keys[j] || keys[i].less(keys[j]) by {
            let a = entries[i];
            let b = entries[j];
            if source is Index {
                assert(entry_before(st, indexes, k, a, b, 0));
            }
        }
    }
    read_off_is_extremum(keys, is_max);
    match read_off(keys, is_max) {
        Cell::Null => {
            assert forall|r: StoredRow| #[trigger] st.rows.contains(r) implies argument_on(
                st,
                call,
                r,
            ) is Null by {
                assert(entries.contains(r));
                let i = choose|i: int| 0 <= i < entries.len() && entries[i] == r;
                assert(keys[i] is Null);
            }
        },
        Cell::At(v) => {
            let i = choose|i: int| 0 <= i < keys.len() && #[trigger] keys[i] == Cell::At(v);
            assert(entries.contains(entries[i]));
            assert(st.rows.contains(entries[i]));
            assert forall|r: StoredRow| #[trigger] st.rows.contains(r) implies match argument_on(
                st,
                call,
                r,
            ) {
                Cell::Null => true,
                Cell::At(w) => if is_max {
                    w <= v
                } else {
                    v <= w
                },
            } by {
                assert(entries.contains(r));
                let j = choose|j: int| 0 <= j < entries.len() && entries[j] == r;
                assert(keys[j] == argument_on(st, call, r));
            }
        },
    }
}

/// Whether index `ix` keeps its entries by column `i` of the table first, ascending and bytewise,
/// and has one for every row.
pub open spec fn leads_with(ix: IndexDef, td: TableDef, db: DbIndex, i: int) -> bool {
    &&& ix.db == db
    &&& fold(ix.table@) == fold(td.name@)
    &&& !ix.partial
    &&& plain_key(ix, 0)
    &&& !kept_descending(ix, 0)
    &&& names_column(td, ix.columns@[0]@, i)
    &&& td.rowid_alias != Some(i as usize)
}

/// A single `MIN` or `MAX` of a plain column over a whole table is sought wherever a b-tree keeps
/// its rows by that column: the table's own for the rowid, or an index that leads with the column,
/// which is not of `BLOB` affinity.
pub proof fn an_extremum_is_sought_where_a_tree_has_it(
    sources: Seq<Source<'_>>,
    catalog: Catalog,
    agg: Aggregate,
    is_max: bool,
    k: int,
)
    requires
        agg.group_by@.len() == 0,
        agg.having is None,
        agg.minmax_bare is None,
        agg.bare_arbitrary is None,
        agg.aggregates@.len() == 1,
        agg.aggregates@[0].args@.len() == 1,
        !agg.aggregates@[0].distinct,
        agg.aggregates@[0].filter is None,
        agg.aggregates@[0].order_by@.len() == 0,
        argument_collation(agg.aggregates@[0]) == Collation::Binary,
        agg.aggregates@[0].args@[0] is Column,
        *agg.input is SeqScan,
        sources.len() == 1,
        sources[0] is BaseTable,
        sources[0]->BaseTable_db == agg.input->SeqScan_0.db,
        fold(sources[0]->BaseTable_table.name@) == fold(agg.input->SeqScan_0.table@),
        !sources[0]->BaseTable_table.without_rowid,
        ({
            let td = *sources[0]->BaseTable_table;
            let i = agg.aggregates@[0].args@[0]->Column_0 - sources[0]->BaseTable_base;
            ||| i == td.columns@.len()
            ||| {
                &&& 0 <= i < td.columns@.len()
                &&& td.columns@[i].affinity != Affinity::Blob
                &&& 0 <= k < catalog.indexes@.len()
                &&& leads_with(catalog.indexes@[k], td, sources[0]->BaseTable_db, i)
            }
        }),
    ensures
        seek_of(sources, catalog.indexes@, agg, Some(is_max)) is Some,
{
    let td = *sources[0]->BaseTable_table;
    let db = sources[0]->BaseTable_db;
    let i = agg.aggregates@[0].args@[0]->Column_0 - sources[0]->BaseTable_base;
    let indexes = catalog.indexes@;
    assert(sole_argument(agg) == Some(agg.aggregates@[0].args@[0]->Column_0));
    if i != td.columns@.len() {
        let p = |j: int| indexes[j].is_on(db, td.name@) && leftmost_serves(indexes[j], td, i);
        lemma_least_from(p, 0, indexes.len() as int);
        let name = indexes[k].columns@[0]@;
        let q = |j: int| same_name(td.columns@[j].name@, name);
        lemma_least_from(q, 0, td.columns@.len() as int);
        assert(q(i));
        let found = column_named(td.columns@, name)->Some_0;
        assert(found == i) by {
            if found < i {
                assert(q(found));
            }
        }
        assert(td.register_of(name) == Some(i));
        assert(indexes[k].key_columns@[0].binary()) by {
            reveal_strlit("BINARY");
            reveal_strlit("binary");
            assert(fold("BINARY"@) =~= "binary"@);
        }
        assert(p(k));
    }
}

} // verus!
