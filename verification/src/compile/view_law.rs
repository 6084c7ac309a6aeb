//! What a statement on a view does: the frames that it fires triggers on hold the rows that its
//! text denotes, and the triggers are those declared for it.

#[allow(unused_imports)]
use vstd::prelude::*;
use crate::catalog::Catalog;
use crate::compile::assignments::SetClause;
use crate::compile::instead_of::{
    arity_error, assigned_names, columns_of, firing_error, frames_have_two_halves, goes_to,
    insert_arity_error, insert_columns, inserted_values, is_frame, is_insert_frame, is_instead_of,
    is_kept_scan, is_source, is_view_delete, is_view_insert, is_view_update, known_columns,
    named_positions, own_columns, scan_columns, set_columns, some_fires, updated_values,
    view_column, view_item_outputs, view_outputs, view_shape, InsertSource, ViewCol, ViewDelete,
    ViewInsert, ViewScan, ViewTarget, ViewUpdate,
};
use crate::compile::meaning::{keeps, rows_of, runs, values_on, Engine, Row};
use crate::compile::order_law::Cell;
use crate::compile::query_law::listed_row;
use crate::compile::returning::{output_exprs, output_names, star_over, ReturningColumn};
use crate::compile::select::{is_select, Select};
use crate::compile::stored::stored_view;
use crate::compile::trigger::{compiled_for, DmlView, TargetKind, TriggerDef};
use crate::compile::trigger_law::{
    a_trigger_fires_on_what_it_is_declared_for, declaration, every_declared_trigger_is_performed,
    fires, obstructs, performs, reads_back, triggers_compile_unless_one_obstructs,
};
use crate::compile::update_law::{item_columns, shows};
use crate::compile::view::{is_view_scan, list_fits, named_columns};
use crate::compile::window_law::bound_expressions_stay_in_order;
use crate::error::Error;
use crate::expr::{predicate_of, Bound, EvalExpr};
use crate::plan::{CtePlan, InsteadOfEvent, PlanNode};
use crate::plan_ctx::CtxView;
use crate::scope::SynthCol;
use crate::search::{least, lemma_least_from};
use crate::text::{decimal, fold, same_name};
use crate::types::Value;

verus! {

/// Whether an engine gives NULL for a NULL, and the rows of a materialized body where it is
/// scanned.
pub open spec fn runs_bodies(e: Engine, bodies: Seq<CtePlan>) -> bool {
    &&& runs(e)
    &&& forall|r: Row|
        #![trigger (e.eval)(EvalExpr::Literal(Value::Null).tree(), r)]
        (e.eval)(EvalExpr::Literal(Value::Null).tree(), r) == Cell::Null
    &&& forall|id: usize, column_count: usize|
        #![trigger (e.scan)(PlanNode::CteScan { id, column_count })]
        id < bodies.len() && bodies[id as int] is Materialized ==> (e.scan)(
            PlanNode::CteScan { id, column_count },
        ) == rows_of(e, bodies[id as int]->Materialized_body)
}

/// The columns of a view are those of its select, in order; a column list gives them other names
/// and nothing else.
pub proof fn a_column_list_only_renames(view: ViewTarget<'_>, i: int)
    requires
        columns_of(view) is Ok,
    ensures
        ({
            let cols = columns_of(view)->Ok_0;
            let own = view.select_columns->Ok_0@;
            &&& view.select_columns is Ok
            &&& cols.len() == own.len()
            &&& 0 <= i < cols.len() ==> cols[i].affinity == own[i].affinity
            &&& stored_view(view.text, view.name@) matches Ok(stored)
            &&& 0 <= i < cols.len() ==> cols[i].name@ == match stored.columns {
                Some(list) => list@[i]@,
                None => own[i].name@,
            }
            &&& stored.columns matches Some(list) ==> list@.len() == own.len()
        }),
{
}

/// The columns of a view in a `FROM` are those of its select, in order: a column list gives them
/// other names and makes them visible, and keeps what they hold and how they compare.
pub proof fn a_named_column_stays_the_column(
    base: Seq<SynthCol>,
    columns: Option<Vec<String>>,
    i: int,
)
    requires
        list_fits(columns, base.len()),
        0 <= i < base.len(),
    ensures
        ({
            let col = named_columns(base, columns)[i];
            &&& named_columns(base, columns).len() == base.len()
            &&& col.affinity == base[i].affinity
            &&& col.collation == base[i].collation
            &&& columns is None ==> col.name@ == base[i].name@ && col.hidden == base[i].hidden
            &&& columns matches Some(list) ==> list@.len() == base.len() && col.name@ == list@[i]@
                && !col.hidden
        }),
{
}

/// The scan of a view emits the rows of its select. Its body is added behind the bodies there are,
/// and nothing else of the statement changes.
pub proof fn a_view_scan_emits_the_rows_of_its_select(
    e: Engine,
    catalog: Catalog,
    before: CtxView,
    after: CtxView,
    node: PlanNode,
    body: Select<'_>,
    exposed_name: String,
    column_count: usize,
)
    requires
        is_view_scan(catalog, before, after, node, body, exposed_name, column_count),
        runs_bodies(e, after.ctes),
        before.ctes.len() < usize::MAX,
    ensures
        selects(e, catalog, body, rows_of(e, node)),
        after.ctes.len() == before.ctes.len() + 1,
        after.ctes.drop_last() == before.ctes,
        after.ctes.last() matches CtePlan::Materialized { name, column_count: n, .. } && name@
            == exposed_name@ && n == column_count,
        after.subqueries == before.subqueries,
{
    let id = before.ctes.len() as usize;
    let plan = after.ctes.last()->Materialized_body;
    assert(after.ctes[id as int] == after.ctes.last());
    assert((e.scan)(PlanNode::CteScan { id, column_count }) == rows_of(e, plan));
    let names = choose|names: Vec<String>| #[trigger]
        is_select(catalog, Ok((plan, names)), body, 0);
    assert(is_select(catalog, Ok((plan, names)), body, 0));
    assert(after.ctes.drop_last() =~= before.ctes);
}

/// Whether rows are those that a select, compiled on its own, emits.
pub open spec fn selects(
    e: Engine,
    catalog: Catalog,
    body: Select<'_>,
    rows: Seq<Row>,
) -> bool {
    exists|plan: PlanNode, names: Vec<String>|
        #![trigger is_select(catalog, Ok((plan, names)), body, 0)]
        is_select(catalog, Ok((plan, names)), body, 0) && rows == rows_of(e, plan)
}

/// Whether a frame of a view with `c` columns holds an old and a new row: the values of a row in
/// order, and a NULL in the place of its rowid. A row that is absent is all NULL.
pub open spec fn holds_both(frame: Row, c: nat, old_row: Option<Row>, new_row: Option<Row>) -> bool {
    let w = c as int + 1;
    &&& frame.len() == 2 * w
    &&& frame[c as int] is Null
    &&& frame[w + c] is Null
    &&& forall|k: int|
        #![trigger frame[k]]
        0 <= k < c ==> frame[k] == match old_row {
            Some(r) => r[k],
            None => Cell::Null,
        }
    &&& forall|k: int|
        #![trigger frame[w + k]]
        0 <= k < c ==> frame[w + k] == match new_row {
            Some(r) => r[k],
            None => Cell::Null,
        }
}

/// The row of the values of expressions.
spec fn made(e: Engine, values: Option<Seq<EvalExpr>>, r: Row) -> Option<Row> {
    match values {
        Some(v) => Some(v.map_values(|x: EvalExpr| (e.eval)(x.tree(), r))),
        None => None,
    }
}

proof fn framed_rows(
    e: Engine,
    node: PlanNode,
    input: PlanNode,
    c: nat,
    old_values: Option<Seq<EvalExpr>>,
    new_values: Option<Seq<EvalExpr>>,
    bodies: Seq<CtePlan>,
    i: int,
)
    requires
        runs_bodies(e, bodies),
        is_frame(node, input, c, old_values, new_values),
        old_values matches Some(v) ==> v.len() == c,
        new_values matches Some(v) ==> v.len() == c,
        0 <= i < rows_of(e, input).len(),
    ensures
        rows_of(e, node).len() == rows_of(e, input).len(),
        holds_both(
            rows_of(e, node)[i],
            c,
            made(e, old_values, rows_of(e, input)[i]),
            made(e, new_values, rows_of(e, input)[i]),
        ),
{
    frames_have_two_halves(node, input, c, old_values, new_values);
    let exprs = node->Project_exprs@;
    let r = rows_of(e, input)[i];
    let frame = rows_of(e, node)[i];
    let w = c as int + 1;
    assert(frame =~= exprs.map_values(|x: EvalExpr| (e.eval)(x.tree(), r)));
    assert((e.eval)(EvalExpr::Literal(Value::Null).tree(), r) == Cell::Null);
    assert forall|k: int| #![trigger frame[k]] 0 <= k < c implies frame[k] == match made(
        e,
        old_values,
        r,
    ) {
        Some(r) => r[k],
        None => Cell::Null,
    } by {
        assert(exprs[k] == exprs[k]);
    }
    assert forall|k: int| #![trigger frame[w + k]] 0 <= k < c implies frame[w + k] == match made(
        e,
        new_values,
        r,
    ) {
        Some(r) => r[k],
        None => Cell::Null,
    } by {
        assert(frame[w + k] == (e.eval)(exprs[w + k].tree(), r));
    }
}

/// Whether a name is that of column `k` of a view: it is the first column of that name.
pub open spec fn is_view_column(cols: Seq<ViewCol>, name: Seq<char>, k: int) -> bool {
    &&& 0 <= k < cols.len()
    &&& fold(cols[k].name@) == fold(name)
    &&& forall|j: int| 0 <= j < k ==> fold((#[trigger] cols[j]).name@) != fold(name)
}

proof fn view_column_is_the_first(cols: Seq<ViewCol>, name: Seq<char>, k: int)
    ensures
        view_column(cols, name) == Some(k) <==> is_view_column(cols, name, k),
{
    let p = |i: int| same_name(cols[i].name@, name);
    lemma_least_from(p, 0, cols.len() as int);
    match view_column(cols, name) {
        Some(m) => {
            assert(p(m));
            assert forall|j: int| 0 <= j < m implies fold((#[trigger] cols[j]).name@) != fold(name) by {
                assert(!p(j));
            }
            if is_view_column(cols, name, k) {
                if k < m {
                    assert(!p(k));
                } else if m < k {
                    assert(fold(cols[m].name@) != fold(name));
                }
            }
        },
        None => {
            if is_view_column(cols, name, k) {
                assert(!p(k));
            }
        },
    }
}

/// The column that position `p` of an inserted row goes to is `k`: the column that the `p`th listed
/// name names, or without a list the `p`th column.
pub open spec fn position_names(
    cols: Seq<ViewCol>,
    listed: Option<Vec<String>>,
    p: int,
    k: int,
) -> bool {
    match listed {
        None => 0 <= k < cols.len() && p == k,
        Some(list) => 0 <= p < list@.len() && is_view_column(cols, list@[p]@, k),
    }
}

/// Whether a row is what inserting the values of a source row into a view makes: a column has the
/// value of the first position that goes to it, and NULL where none does.
pub open spec fn inserts(
    cols: Seq<ViewCol>,
    listed: Option<Vec<String>>,
    values: Row,
    row: Row,
) -> bool {
    &&& row.len() == cols.len()
    &&& forall|p: int, k: int|
        #![trigger position_names(cols, listed, p, k)]
        position_names(cols, listed, p, k) && (forall|q: int|
            0 <= q < p ==> !#[trigger] position_names(cols, listed, q, k)) ==> row[k] == values[p]
    &&& forall|k: int|
        #![trigger row[k]]
        0 <= k < cols.len() && (forall|p: int| !#[trigger] position_names(cols, listed, p, k))
            ==> row[k] is Null
}

proof fn named_positions_one_by_one(
    cols: Seq<ViewCol>,
    names: Seq<String>,
    view: Seq<char>,
    map: Seq<usize>,
)
    requires
        named_positions(cols, names, view) == Ok::<Seq<usize>, Seq<char>>(map),
        cols.len() <= usize::MAX,
    ensures
        map.len() == names.len(),
        forall|p: int|
            0 <= p < map.len() ==> is_view_column(cols, names[p]@, #[trigger] map[p] as int),
    decreases names.len(),
{
    if names.len() > 0 {
        let init = named_positions(cols, names.drop_last(), view)->Ok_0;
        named_positions_one_by_one(cols, names.drop_last(), view, init);
        let k = view_column(cols, names.last()@)->Some_0;
        view_column_is_the_first(cols, names.last()@, k);
        assert forall|p: int| 0 <= p < map.len() implies is_view_column(
            cols,
            names[p]@,
            #[trigger] map[p] as int,
        ) by {
            if p < init.len() {
                assert(map[p] == init[p]);
                assert(names.drop_last()[p] == names[p]);
            }
        }
    }
}

/// A position of the target columns goes to a column exactly where its name does.
proof fn positions_are_named(
    cols: Seq<ViewCol>,
    listed: Option<Vec<String>>,
    view: Seq<char>,
    map: Seq<usize>,
    p: int,
    k: int,
)
    requires
        insert_columns(cols, listed, view) == Ok::<Seq<usize>, Seq<char>>(map),
        cols.len() <= usize::MAX,
        0 <= k < cols.len(),
    ensures
        position_names(cols, listed, p, k) <==> 0 <= p < map.len() && map[p] == k,
        map.len() == match listed {
            Some(list) => list@.len(),
            None => cols.len(),
        },
{
    if let Some(list) = listed {
        named_positions_one_by_one(cols, list@, view, map);
        if 0 <= p < map.len() {
            assert(is_view_column(cols, list@[p]@, map[p] as int));
            view_column_is_the_first(cols, list@[p]@, map[p] as int);
            view_column_is_the_first(cols, list@[p]@, k);
        }
    }
}

proof fn the_inserted_values_are_made(
    e: Engine,
    cols: Seq<ViewCol>,
    listed: Option<Vec<String>>,
    view: Seq<char>,
    map: Seq<usize>,
    r: Row,
    bodies: Seq<CtePlan>,
)
    requires
        runs_bodies(e, bodies),
        insert_columns(cols, listed, view) == Ok::<Seq<usize>, Seq<char>>(map),
        cols.len() <= usize::MAX,
        map.len() <= usize::MAX,
        r.len() == map.len(),
    ensures
        inserts(cols, listed, r, made(e, Some(inserted_values(map, cols.len())), r)->Some_0),
{
    let row = made(e, Some(inserted_values(map, cols.len())), r)->Some_0;
    assert forall|p: int, k: int|
        #![trigger position_names(cols, listed, p, k)]
        position_names(cols, listed, p, k) && (forall|q: int|
            0 <= q < p ==> !#[trigger] position_names(cols, listed, q, k)) implies row[k]
        == r[p] by {
        positions_are_named(cols, listed, view, map, p, k);
        let goes = goes_to(map, k);
        lemma_least_from(goes, 0, map.len() as int);
        assert(goes(p));
        let m = least(goes, map.len() as int)->Some_0;
        assert(m == p) by {
            if m < p {
                assert(goes(m));
                positions_are_named(cols, listed, view, map, m, k);
                assert(position_names(cols, listed, m, k));
            }
        }
        assert((e.eval)(EvalExpr::Column(p as usize).tree(), r) == r[p]);
        assert(inserted_values(map, cols.len())[k] == EvalExpr::Column(p as usize));
    }
    assert forall|k: int|
        #![trigger row[k]]
        0 <= k < cols.len() && (forall|p: int|
            !#[trigger] position_names(cols, listed, p, k)) implies row[k] is Null by {
        let goes = goes_to(map, k);
        lemma_least_from(goes, 0, map.len() as int);
        if let Some(m) = least(goes, map.len() as int) {
            assert(goes(m));
            positions_are_named(cols, listed, view, map, m, k);
            assert(position_names(cols, listed, m, k));
        }
        assert((e.eval)(EvalExpr::Literal(Value::Null).tree(), r) == Cell::Null);
        assert(inserted_values(map, cols.len())[k] == EvalExpr::Literal(Value::Null));
    }
}

/// Whether a frame holds no old row, and as the new row what inserting the values of a source row
/// makes, or NULLs alone.
pub open spec fn offers_inserted(
    cols: Seq<ViewCol>,
    listed: Option<Vec<String>>,
    all_null: bool,
    values: Row,
    frame: Row,
) -> bool {
    exists|row: Row| #[trigger]
        holds_both(frame, cols.len(), None, Some(row)) && if all_null {
            forall|k: int| 0 <= k < cols.len() ==> (#[trigger] row[k]) is Null
        } else {
            inserts(cols, listed, values, row)
        }
}

/// The rows that the source of an `INSERT` denotes: one of no values for `DEFAULT VALUES`, those
/// listed, or those of its select.
pub open spec fn sourced(
    e: Engine,
    catalog: Catalog,
    source: InsertSource<'_>,
    rows: Seq<Row>,
) -> bool {
    match source {
        InsertSource::DefaultValues => rows == seq![Seq::<Cell>::empty()],
        InsertSource::Values(listed) => rows == listed@.map_values(
            |row: Vec<Bound>| listed_row(e, row@),
        ),
        InsertSource::Select(sel) => selects(e, catalog, sel, rows),
    }
}

/// The rows that a source emits are those that it denotes.
proof fn source_rows(
    e: Engine,
    catalog: Catalog,
    node: PlanNode,
    used: Seq<usize>,
    source: InsertSource<'_>,
    map: Seq<usize>,
)
    requires
        is_source(catalog, node, used, source, map),
    ensures
        sourced(e, catalog, source, rows_of(e, node)),
{
    match source {
        InsertSource::DefaultValues => {},
        InsertSource::Values(rows) => {
            let held = node->Values_rows@;
            let given = rows@.map_values(|row: Vec<Bound>| listed_row(e, row@));
            assert forall|i: int| 0 <= i < rows@.len() implies #[trigger] rows_of(e, node)[i]
                == given[i] by {
                bound_expressions_stay_in_order(rows@[i]@, held[i]@);
                assert(rows_of(e, node)[i] =~= listed_row(e, rows@[i]@)) by {
                    assert forall|k: int| 0 <= k < held[i]@.len() implies #[trigger] held[i]@[k]
                        == rows@[i]@[k]->Ok_0 by {
                        assert(rows@[i]@[k] == Ok::<EvalExpr, Error>(held[i]@[k]));
                    }
                }
            }
            assert(rows_of(e, node) =~= given);
        },
        InsertSource::Select(sel) => {
            let names = choose|names: Vec<String>| #[trigger]
                is_select(catalog, Ok((node, names)), sel, 0);
            assert(is_select(catalog, Ok((node, names)), sel, 0));
        },
    }
}

/// An `INSERT` into a view fires its triggers once for each row of its source, with no old row and
/// with the new row that inserting it makes. `rows` are the rows of the source, each with as many
/// values as there are target columns.
pub proof fn an_insert_into_a_view_offers_the_inserted_rows(
    e: Engine,
    catalog: Catalog,
    node: PlanNode,
    cols: Seq<ViewCol>,
    listed: Option<Vec<String>>,
    source: InsertSource<'_>,
    view: Seq<char>,
    bodies: Seq<CtePlan>,
) -> (rows: Seq<Row>)
    requires
        runs_bodies(e, bodies),
        cols.len() <= usize::MAX,
        is_insert_frame(catalog, node, cols, listed, source, view),
        forall|rows: Seq<Row>, i: int|
            #![trigger sourced(e, catalog, source, rows), rows[i]]
            sourced(e, catalog, source, rows) && 0 <= i < rows.len() && !(source is DefaultValues)
                ==> rows[i].len() == match listed {
                Some(list) => list@.len(),
                None => cols.len(),
            },
    ensures
        sourced(e, catalog, source, rows),
        rows_of(e, node).len() == rows.len(),
        forall|i: int|
            0 <= i < rows.len() ==> offers_inserted(
                cols,
                listed,
                source is DefaultValues,
                #[trigger] rows[i],
                rows_of(e, node)[i],
            ),
{
    let map = insert_columns(cols, listed, view)->Ok_0;
    let (input, used) = choose|input: PlanNode, used: Seq<usize>|
        #![trigger is_source(catalog, input, used, source, map)]
        is_source(catalog, input, used, source, map) && is_frame(
            node,
            input,
            cols.len(),
            None,
            Some(inserted_values(used, cols.len())),
        );
    source_rows(e, catalog, input, used, source, map);
    let rows = rows_of(e, input);
    assert(sourced(e, catalog, source, rows));
    if rows.len() == 0 {
        assert(rows_of(e, node) =~= rows_of(e, input).map_values(
            |r: Row| values_on(e, node->Project_exprs@, r),
        ));
    }
    assert forall|i: int| 0 <= i < rows.len() implies offers_inserted(
        cols,
        listed,
        source is DefaultValues,
        #[trigger] rows[i],
        rows_of(e, node)[i],
    ) by {
        let values = Some(inserted_values(used, cols.len()));
        framed_rows(e, node, input, cols.len(), None, values, bodies, i);
        let row = made(e, values, rows[i])->Some_0;
        assert(holds_both(rows_of(e, node)[i], cols.len(), None, Some(row)));
        if source is DefaultValues {
            assert forall|k: int| 0 <= k < cols.len() implies (#[trigger] row[k]) is Null by {
                assert((e.eval)(EvalExpr::Literal(Value::Null).tree(), rows[i]) == Cell::Null);
                assert(inserted_values(used, cols.len())[k] == EvalExpr::Literal(Value::Null));
            }
        } else {
            if cols.len() > 0 {
                positions_are_named(cols, listed, view, map, 0, 0);
            } else if let Some(list) = listed {
                named_positions_one_by_one(cols, list@, view, map);
            }
            if let Some(list) = listed {
                assert(list@.len() == list.len());
            }
            assert(rows[i].len() == map.len());
            the_inserted_values_are_made(e, cols, listed, view, map, rows[i], bodies);
        }
    }
    rows
}

/// Whether a `SET` list gives column `k` of the row `r` of a view the value `v`: that of the last
/// assignment that names the column, and its own where none does.
pub open spec fn overwrites_with(
    e: Engine,
    cols: Seq<ViewCol>,
    set: Seq<SetClause>,
    r: Row,
    k: int,
    v: Cell,
) -> bool {
    &&& forall|j: int|
        #![trigger set[j]]
        0 <= j < set.len() && assigns_column(cols, set[j], k) && !names_later(cols, set, k, j + 1)
            ==> v == (e.eval)(set[j]->Column_value->Ok_0.tree(), r)
    &&& !names_later(cols, set, k, 0) ==> v == r[k]
}

/// Whether an assignment from position `from` on names column `k`.
pub open spec fn names_later(cols: Seq<ViewCol>, set: Seq<SetClause>, k: int, from: int) -> bool {
    exists|l: int| from <= l < set.len() && assigns_column(cols, #[trigger] set[l], k)
}

/// Whether `row` is what a `SET` list makes of the row `r` of a view.
pub open spec fn overwrites(
    e: Engine,
    cols: Seq<ViewCol>,
    set: Seq<SetClause>,
    r: Row,
    row: Row,
) -> bool {
    &&& row.len() == cols.len()
    &&& forall|k: int| 0 <= k < cols.len() ==> overwrites_with(e, cols, set, r, k, #[trigger] row[k])
}

/// Whether an assignment is one of a value to column `k` of a view.
pub open spec fn assigns_column(cols: Seq<ViewCol>, c: SetClause, k: int) -> bool {
    c matches SetClause::Column { name, .. } && is_view_column(cols, name@, k)
}

/// Whether a frame holds a row of the view as the old row, and as the new row what a `SET` list
/// makes of it.
pub open spec fn offers_updated(
    e: Engine,
    cols: Seq<ViewCol>,
    set: Seq<SetClause>,
    r: Row,
    frame: Row,
) -> bool {
    exists|row: Row| #[trigger]
        holds_both(frame, cols.len(), Some(r), Some(row)) && overwrites(e, cols, set, r, row)
}

/// An assignment to another column does not change what later assignments name.
proof fn later_names_stay(cols: Seq<ViewCol>, set: Seq<SetClause>, k: int, from: int)
    requires
        set.len() > 0,
        0 <= from,
        !assigns_column(cols, set.last(), k),
    ensures
        names_later(cols, set.drop_last(), k, from) == names_later(cols, set, k, from),
{
    let init = set.drop_last();
    if names_later(cols, init, k, from) {
        let l = choose|l: int| from <= l < init.len() && assigns_column(cols, #[trigger] init[l], k);
        assert(set[l] == init[l]);
    }
    if names_later(cols, set, k, from) {
        let l = choose|l: int| from <= l < set.len() && assigns_column(cols, #[trigger] set[l], k);
        assert(l != set.len() - 1);
        assert(init[l] == set[l]);
    }
}

/// The last assignment to a column decides its value.
proof fn the_last_assignment_decides(
    e: Engine,
    cols: Seq<ViewCol>,
    set: Seq<SetClause>,
    r: Row,
    k: int,
)
    requires
        set.len() > 0,
        assigns_column(cols, set.last(), k),
    ensures
        overwrites_with(
            e,
            cols,
            set,
            r,
            k,
            (e.eval)(set.last()->Column_value->Ok_0.tree(), r),
        ),
{
    let last = set.len() - 1;
    assert(set[last] == set.last());
    assert(names_later(cols, set, k, 0));
    assert forall|j: int| #![trigger set[j]] 0 <= j < last implies names_later(
        cols,
        set,
        k,
        j + 1,
    ) by {
        assert(assigns_column(cols, set[last], k));
    }
}

/// An assignment to another column leaves the value of a column.
proof fn another_assignment_leaves_the_value(
    e: Engine,
    cols: Seq<ViewCol>,
    set: Seq<SetClause>,
    r: Row,
    k: int,
    v: Cell,
)
    requires
        set.len() > 0,
        !assigns_column(cols, set.last(), k),
        overwrites_with(e, cols, set.drop_last(), r, k, v),
    ensures
        overwrites_with(e, cols, set, r, k, v),
{
    let init = set.drop_last();
    let last = set.len() - 1;
    later_names_stay(cols, set, k, 0);
    assert forall|j: int|
        #![trigger set[j]]
        0 <= j < set.len() && assigns_column(cols, set[j], k) && !names_later(
            cols,
            set,
            k,
            j + 1,
        ) implies v == (e.eval)(set[j]->Column_value->Ok_0.tree(), r) by {
        assert(set[last] == set.last());
        assert(j != last);
        later_names_stay(cols, set, k, j + 1);
        assert(init[j] == set[j]);
    }
}

proof fn an_updated_value_is_made(
    e: Engine,
    cols: Seq<ViewCol>,
    set: Seq<SetClause>,
    view: Seq<char>,
    values: Seq<EvalExpr>,
    r: Row,
    k: int,
)
    requires
        runs(e),
        updated_values(cols, set, view) == Ok::<Seq<EvalExpr>, Seq<char>>(values),
        cols.len() <= usize::MAX,
        r.len() == cols.len(),
        0 <= k < cols.len(),
    ensures
        values.len() == cols.len(),
        overwrites_with(e, cols, set, r, k, (e.eval)(values[k].tree(), r)),
    decreases set.len(),
{
    updated_values_are_as_many(cols, set, view);
    if set.len() == 0 {
        assert(values[k] == EvalExpr::Column(k as usize));
        assert((e.eval)(EvalExpr::Column(k as usize).tree(), r) == r[k]);
    } else {
        let init = set.drop_last();
        let before = updated_values(cols, init, view)->Ok_0;
        updated_values_are_as_many(cols, init, view);
        let c = set.last();
        let m = view_column(cols, c->Column_name@)->Some_0;
        view_column_is_the_first(cols, c->Column_name@, m);
        view_column_is_the_first(cols, c->Column_name@, k);
        assert(values == before.update(m, c->Column_value->Ok_0));
        if k == m {
            the_last_assignment_decides(e, cols, set, r, k);
        } else {
            an_updated_value_is_made(e, cols, init, view, before, r, k);
            assert(values[k] == before[k]);
            another_assignment_leaves_the_value(e, cols, set, r, k, (e.eval)(values[k].tree(), r));
        }
    }
}

proof fn the_updated_values_are_made(
    e: Engine,
    cols: Seq<ViewCol>,
    set: Seq<SetClause>,
    view: Seq<char>,
    values: Seq<EvalExpr>,
    r: Row,
)
    requires
        runs(e),
        updated_values(cols, set, view) == Ok::<Seq<EvalExpr>, Seq<char>>(values),
        cols.len() <= usize::MAX,
        r.len() == cols.len(),
    ensures
        values.len() == cols.len(),
        overwrites(e, cols, set, r, values.map_values(|x: EvalExpr| (e.eval)(x.tree(), r))),
    decreases set.len(),
{
    let row = values.map_values(|x: EvalExpr| (e.eval)(x.tree(), r));
    if cols.len() == 0 {
        updated_values_are_as_many(cols, set, view);
    }
    assert forall|k: int| 0 <= k < cols.len() implies overwrites_with(
        e,
        cols,
        set,
        r,
        k,
        #[trigger] row[k],
    ) by {
        an_updated_value_is_made(e, cols, set, view, values, r, k);
    }
    if cols.len() > 0 {
        an_updated_value_is_made(e, cols, set, view, values, r, 0);
    }
}

proof fn updated_values_are_as_many(cols: Seq<ViewCol>, set: Seq<SetClause>, view: Seq<char>)
    ensures
        updated_values(cols, set, view) matches Ok(values) ==> values.len() == cols.len(),
    decreases set.len(),
{
    if set.len() > 0 {
        updated_values_are_as_many(cols, set.drop_last(), view);
        if let SetClause::Column { name, .. } = set.last() {
            if let Some(k) = view_column(cols, name@) {
                view_column_is_the_first(cols, name@, k);
            }
        }
    }
}

/// Whether rows are those of a view, which its select emits, that a `WHERE` keeps.
pub open spec fn kept_rows(
    e: Engine,
    catalog: Catalog,
    body: Select<'_>,
    predicate: Option<Bound>,
    rows: Seq<Row>,
) -> bool {
    exists|all: Seq<Row>| #[trigger]
        selects(e, catalog, body, all) && rows == match predicate {
            Some(p) => all.filter(|r: Row| keeps(e, p->Ok_0, r)),
            None => all,
        }
}

proof fn kept_scan_rows(
    e: Engine,
    catalog: Catalog,
    before: CtxView,
    after: CtxView,
    out: PlanNode,
    scan: ViewScan<'_>,
    exposed_name: String,
    column_count: usize,
    predicate: Option<Bound>,
)
    requires
        is_kept_scan(
            catalog,
            before,
            after,
            out,
            scan,
            exposed_name,
            column_count,
            predicate_of(predicate),
        ),
        predicate matches Some(p) ==> p is Ok,
        runs_bodies(e, after.ctes),
        before.ctes.len() < usize::MAX,
    ensures
        kept_rows(e, catalog, scan.body, predicate, rows_of(e, out)),
{
    let input = match predicate {
        Some(_) => *out->Filter_input,
        None => out,
    };
    a_view_scan_emits_the_rows_of_its_select(
        e,
        catalog,
        before,
        after,
        input,
        scan.body,
        exposed_name,
        column_count,
    );
    assert(selects(e, catalog, scan.body, rows_of(e, input)));
}

/// A `DELETE` from a view fires its triggers once for each row of the view that its `WHERE` keeps,
/// with that row as the old row and no new row.
pub proof fn a_delete_from_a_view_offers_the_kept_rows(
    e: Engine,
    catalog: Catalog,
    before: CtxView,
    after: CtxView,
    node: PlanNode,
    names: Seq<String>,
    triggers: Seq<TriggerDef<'_>>,
    view: ViewTarget<'_>,
    stmt: ViewDelete<'_>,
) -> (rows: Seq<Row>)
    requires
        is_view_delete(catalog, before, after, node, names, triggers, view, stmt),
        stmt.where_clause matches Some(p) ==> p is Ok,
        runs_bodies(e, after.ctes),
        before.ctes.len() < usize::MAX,
        columns_of(view)->Ok_0.len() <= usize::MAX,
        forall|rows: Seq<Row>, i: int|
            #![trigger kept_rows(e, catalog, stmt.scan.body, stmt.where_clause, rows), rows[i]]
            kept_rows(e, catalog, stmt.scan.body, stmt.where_clause, rows) && 0 <= i < rows.len()
                ==> rows[i].len() == columns_of(view)->Ok_0.len(),
    ensures
        kept_rows(e, catalog, stmt.scan.body, stmt.where_clause, rows),
        ({
            let frames = rows_of(e, *node->InsteadOf_0.frame_source);
            &&& frames.len() == rows.len()
            &&& forall|i: int|
                0 <= i < rows.len() ==> holds_both(
                    #[trigger] frames[i],
                    columns_of(view)->Ok_0.len(),
                    Some(rows[i]),
                    None,
                )
        }),
{
    let cols = columns_of(view)->Ok_0;
    let source = *node->InsteadOf_0.frame_source;
    let scan = choose|scan: PlanNode|
        #![trigger is_frame(source, scan, cols.len(), Some(own_columns(cols.len())), None)]
        is_frame(source, scan, cols.len(), Some(own_columns(cols.len())), None) && is_kept_scan(
            catalog,
            before,
            after,
            scan,
            stmt.scan,
            stmt.exposed_name,
            cols.len() as usize,
            predicate_of(stmt.where_clause),
        );
    kept_scan_rows(
        e,
        catalog,
        before,
        after,
        scan,
        stmt.scan,
        stmt.exposed_name,
        cols.len() as usize,
        stmt.where_clause,
    );
    let rows = rows_of(e, scan);
    let frames = rows_of(e, source);
    let own = own_columns(cols.len());
    if rows.len() == 0 {
        assert(frames =~= rows.map_values(
            |r: Row| values_on(e, source->Project_exprs@, r),
        ));
    }
    assert forall|i: int| 0 <= i < rows.len() implies holds_both(
        #[trigger] frames[i],
        cols.len(),
        Some(rows[i]),
        None,
    ) by {
        framed_rows(e, source, scan, cols.len(), Some(own), None, after.ctes, i);
        own_columns_are_the_row(e, cols.len(), rows[i]);
    }
    if rows.len() > 0 {
        framed_rows(e, source, scan, cols.len(), Some(own), None, after.ctes, 0);
    }
    rows
}

proof fn own_columns_are_the_row(e: Engine, c: nat, r: Row)
    requires
        runs(e),
        r.len() == c,
        c <= usize::MAX,
    ensures
        made(e, Some(own_columns(c)), r) == Some(r),
{
    let row = made(e, Some(own_columns(c)), r)->Some_0;
    assert forall|k: int| 0 <= k < c implies #[trigger] row[k] == r[k] by {
        assert((e.eval)(EvalExpr::Column(k as usize).tree(), r) == r[k]);
    }
    assert(row =~= r);
}

/// An `UPDATE` of a view fires its triggers once for each row of the view that its `WHERE` keeps,
/// with that row as the old row, and as the new row that row with the assigned values over it.
pub proof fn an_update_of_a_view_offers_the_updated_rows(
    e: Engine,
    catalog: Catalog,
    before: CtxView,
    after: CtxView,
    node: PlanNode,
    names: Seq<String>,
    triggers: Seq<TriggerDef<'_>>,
    view: ViewTarget<'_>,
    stmt: ViewUpdate<'_>,
) -> (rows: Seq<Row>)
    requires
        is_view_update(catalog, before, after, node, names, triggers, view, stmt),
        stmt.where_clause matches Some(p) ==> p is Ok,
        runs_bodies(e, after.ctes),
        before.ctes.len() < usize::MAX,
        columns_of(view)->Ok_0.len() <= usize::MAX,
        forall|rows: Seq<Row>, i: int|
            #![trigger kept_rows(e, catalog, stmt.scan.body, stmt.where_clause, rows), rows[i]]
            kept_rows(e, catalog, stmt.scan.body, stmt.where_clause, rows) && 0 <= i < rows.len()
                ==> rows[i].len() == columns_of(view)->Ok_0.len(),
    ensures
        kept_rows(e, catalog, stmt.scan.body, stmt.where_clause, rows),
        ({
            let cols = columns_of(view)->Ok_0;
            let frames = rows_of(e, *node->InsteadOf_0.frame_source);
            &&& frames.len() == rows.len()
            &&& forall|i: int|
                0 <= i < rows.len() ==> offers_updated(
                    e,
                    cols,
                    stmt.set@,
                    #[trigger] rows[i],
                    frames[i],
                )
        }),
{
    let cols = columns_of(view)->Ok_0;
    let source = *node->InsteadOf_0.frame_source;
    let values = updated_values(cols, stmt.set@, view.name@)->Ok_0;
    let own = own_columns(cols.len());
    let scan = choose|scan: PlanNode|
        #![trigger is_frame(source, scan, cols.len(), Some(own), Some(values))]
        is_frame(source, scan, cols.len(), Some(own), Some(values)) && is_kept_scan(
            catalog,
            before,
            after,
            scan,
            stmt.scan,
            stmt.exposed_name,
            cols.len() as usize,
            predicate_of(stmt.where_clause),
        );
    kept_scan_rows(
        e,
        catalog,
        before,
        after,
        scan,
        stmt.scan,
        stmt.exposed_name,
        cols.len() as usize,
        stmt.where_clause,
    );
    let rows = rows_of(e, scan);
    let frames = rows_of(e, source);
    if rows.len() == 0 {
        assert(frames =~= rows.map_values(
            |r: Row| values_on(e, source->Project_exprs@, r),
        ));
    }
    assert forall|i: int| 0 <= i < rows.len() implies offers_updated(
        e,
        cols,
        stmt.set@,
        #[trigger] rows[i],
        frames[i],
    ) by {
        the_updated_values_are_made(e, cols, stmt.set@, view.name@, values, rows[i]);
        let row = values.map_values(|x: EvalExpr| (e.eval)(x.tree(), rows[i]));
        assert(overwrites(e, cols, stmt.set@, rows[i], row));
        framed_rows(e, source, scan, cols.len(), Some(own), Some(values), after.ctes, i);
        own_columns_are_the_row(e, cols.len(), rows[i]);
        assert(holds_both(frames[i], cols.len(), Some(rows[i]), Some(row)));
    }
    if rows.len() > 0 {
        the_updated_values_are_made(e, cols, stmt.set@, view.name@, values, rows[0]);
        framed_rows(e, source, scan, cols.len(), Some(own), Some(values), after.ctes, 0);
    }
    rows
}

/// The output columns of the `RETURNING` of a statement on a view, from the left: a `*` is every
/// column of the view in order, under its name.
pub open spec fn view_returned(cols: Seq<ViewCol>, list: Seq<ReturningColumn>) -> Seq<
    (EvalExpr, Seq<char>),
>
    decreases list.len(),
{
    if list.len() == 0 {
        seq![]
    } else {
        view_item(cols, list[0]) + view_returned(cols, list.drop_first())
    }
}

/// The output columns of one item of such a list.
pub open spec fn view_item(cols: Seq<ViewCol>, c: ReturningColumn) -> Seq<(EvalExpr, Seq<char>)> {
    match c {
        ReturningColumn::Star(_) => Seq::new(
            cols.len(),
            |i: int| (EvalExpr::Column(i as usize), cols[i].name@),
        ),
        _ => item_columns(c),
    }
}

proof fn lemma_view_returned_push(
    cols: Seq<ViewCol>,
    list: Seq<ReturningColumn>,
    c: ReturningColumn,
)
    ensures
        view_returned(cols, list.push(c)) == view_returned(cols, list) + view_item(cols, c),
    decreases list.len(),
{
    if list.len() == 0 {
        reveal_with_fuel(view_returned, 2);
        assert(list.push(c).drop_first() =~= list);
        assert(list.push(c)[0] == c);
        assert(view_returned(cols, list.push(c)) =~= view_item(cols, c));
        assert(view_returned(cols, list) + view_item(cols, c) =~= view_item(cols, c));
    } else {
        assert(list.push(c).drop_first() =~= list.drop_first().push(c));
        lemma_view_returned_push(cols, list.drop_first(), c);
        assert(view_returned(cols, list.push(c)) =~= view_returned(cols, list) + view_item(cols, c));
    }
}

proof fn star_is_every_column(cols: Seq<ViewCol>)
    requires
        cols.len() <= usize::MAX,
    ensures
        star_over(scan_columns(cols), 0).len() == cols.len(),
        forall|i: int|
            0 <= i < cols.len() ==> (#[trigger] star_over(scan_columns(cols), 0)[i]).0 == i
                && star_over(scan_columns(cols), 0)[i].1 == cols[i].name,
    decreases cols.len(),
{
    if cols.len() > 0 {
        star_is_every_column(cols.drop_last());
        assert(scan_columns(cols).drop_last() =~= scan_columns(cols.drop_last()));
    }
}

/// The `RETURNING` of a statement on a view returns its columns in the order in which they are
/// written, each under its name.
pub proof fn a_view_returns_the_columns_listed(
    cols: Seq<ViewCol>,
    list: Seq<ReturningColumn>,
    outs: Seq<(EvalExpr, String)>,
)
    requires
        cols.len() <= usize::MAX,
        view_outputs(cols, list) == Ok::<Seq<(EvalExpr, String)>, Seq<char>>(outs),
    ensures
        shows(output_exprs(outs), output_names(outs), view_returned(cols, list)),
    decreases list.len(),
{
    if list.len() > 0 {
        let init = list.drop_last();
        let before = view_outputs(cols, init)->Ok_0;
        let more = view_item_outputs(cols, list.last())->Ok_0;
        a_view_returns_the_columns_listed(cols, init, before);
        star_is_every_column(cols);
        assert(init.push(list.last()) =~= list);
        lemma_view_returned_push(cols, init, list.last());
        let columns = view_returned(cols, list);
        let last = view_item(cols, list.last());
        assert(more.len() == last.len());
        assert forall|i: int| 0 <= i < columns.len() implies output_exprs(outs)[i] == (
        #[trigger] columns[i]).0 && output_names(outs)[i]@ == columns[i].1 by {
            if i < before.len() {
                assert(columns[i] == view_returned(cols, init)[i]);
                assert(output_exprs(before)[i] == before[i].0);
                assert(output_names(before)[i] == before[i].1);
            } else {
                let k = i - before.len();
                assert(columns[i] == last[k]);
                assert(outs[i] == more[k]);
                if list.last() is Star {
                    assert(star_over(scan_columns(cols), 0)[k].0 == k);
                }
            }
        }
    }
}

/// Whether a node fires the triggers of a view that are declared for what a statement does, and
/// returns what it says.
pub open spec fn stands_instead(
    catalog: Catalog,
    node: PlanNode,
    names: Seq<String>,
    event: DmlView,
    view: ViewTarget<'_>,
    triggers: Seq<TriggerDef<'_>>,
    returning: Seq<ReturningColumn>,
) -> bool {
    let cols = columns_of(view)->Ok_0;
    let shape = view_shape(view, cols);
    let fired = triggers.filter(
        |t: TriggerDef<'_>| fires(t, TargetKind::View, view.db, shape, event),
    );
    &&& node matches PlanNode::InsteadOf(n)
    &&& n.view@ == view.name@
    &&& n.column_count == cols.len()
    &&& n.programs@.len() == fired.len()
    &&& n.programs@.len() > 0
    &&& forall|i: int|
        0 <= i < fired.len() ==> performs(catalog, #[trigger] n.programs@[i], fired[i], shape)
            && n.programs@[i].timing is InsteadOf
    &&& shows(n.returning@, names, view_returned(cols, returning))
}

proof fn instead_of_stands(
    catalog: Catalog,
    node: PlanNode,
    names: Seq<String>,
    event: InsteadOfEvent,
    fired_by: DmlView,
    view: ViewTarget<'_>,
    triggers: Seq<TriggerDef<'_>>,
    returning: Seq<ReturningColumn>,
)
    requires
        columns_of(view) is Ok,
        columns_of(view)->Ok_0.len() <= usize::MAX,
        is_instead_of(
            catalog,
            node,
            event,
            fired_by,
            view,
            columns_of(view)->Ok_0,
            triggers,
            returning,
        ),
        view_outputs(columns_of(view)->Ok_0, returning) matches Ok(outs) && names == output_names(
            outs,
        ),
    ensures
        stands_instead(catalog, node, names, fired_by, view, triggers, returning),
        node->InsteadOf_0.event == event,
{
    let cols = columns_of(view)->Ok_0;
    let shape = view_shape(view, cols);
    let n = node->InsteadOf_0;
    a_view_returns_the_columns_listed(cols, returning, view_outputs(cols, returning)->Ok_0);
    every_declared_trigger_is_performed(
        catalog,
        n.programs@,
        triggers,
        TargetKind::View,
        view.db,
        shape,
        fired_by,
    );
    let keep = |t: TriggerDef<'_>| fires(t, TargetKind::View, view.db, shape, fired_by);
    let fired = triggers.filter(keep);
    assert forall|i: int| 0 <= i < fired.len() implies performs(
        catalog,
        #[trigger] n.programs@[i],
        fired[i],
        shape,
    ) && n.programs@[i].timing is InsteadOf by {
        triggers.lemma_filter_pred(keep, i);
    }
}

/// An `INSERT` into a view fires, instead of the change, the triggers of the view that are declared
/// for inserting.
pub proof fn an_insert_into_a_view_fires_its_insert_triggers(
    catalog: Catalog,
    node: PlanNode,
    names: Seq<String>,
    triggers: Seq<TriggerDef<'_>>,
    view: ViewTarget<'_>,
    stmt: ViewInsert<'_>,
)
    requires
        is_view_insert(catalog, node, names, triggers, view, stmt),
        columns_of(view)->Ok_0.len() <= usize::MAX,
    ensures
        stands_instead(
            catalog,
            node,
            names,
            DmlView::Insert,
            view,
            triggers,
            stmt.returning@,
        ),
        node->InsteadOf_0.event is Insert,
{
    instead_of_stands(
        catalog,
        node,
        names,
        InsteadOfEvent::Insert,
        DmlView::Insert,
        view,
        triggers,
        stmt.returning@,
    );
}

/// A `DELETE` from a view fires, instead of the change, the triggers of the view that are declared
/// for deleting.
pub proof fn a_delete_from_a_view_fires_its_delete_triggers(
    catalog: Catalog,
    before: CtxView,
    after: CtxView,
    node: PlanNode,
    names: Seq<String>,
    triggers: Seq<TriggerDef<'_>>,
    view: ViewTarget<'_>,
    stmt: ViewDelete<'_>,
)
    requires
        is_view_delete(catalog, before, after, node, names, triggers, view, stmt),
        columns_of(view)->Ok_0.len() <= usize::MAX,
    ensures
        stands_instead(
            catalog,
            node,
            names,
            DmlView::Delete,
            view,
            triggers,
            stmt.returning@,
        ),
        node->InsteadOf_0.event is Delete,
{
    instead_of_stands(
        catalog,
        node,
        names,
        InsteadOfEvent::Delete,
        DmlView::Delete,
        view,
        triggers,
        stmt.returning@,
    );
}

/// The names that an assignment assigns.
pub open spec fn names_of(c: SetClause) -> Seq<String> {
    match c {
        SetClause::Column { name, .. } => seq![name],
        SetClause::Columns { names, .. } => names@,
    }
}

/// Whether a `SET` list names column `k` of a view anywhere.
pub open spec fn set_names(cols: Seq<ViewCol>, set: Seq<SetClause>, k: int) -> bool {
    exists|j: int, n: int|
        #![trigger names_of(set[j])[n]]
        0 <= j < set.len() && 0 <= n < names_of(set[j]).len() && is_view_column(
            cols,
            names_of(set[j])[n]@,
            k,
        )
}

proof fn known_columns_are_named(cols: Seq<ViewCol>, names: Seq<String>, k: int)
    requires
        0 <= k < cols.len() <= usize::MAX,
    ensures
        known_columns(cols, names).contains(k as usize) <==> exists|n: int|
            0 <= n < names.len() && is_view_column(cols, #[trigger] names[n]@, k),
    decreases names.len(),
{
    if names.len() > 0 {
        let init = names.drop_last();
        let last = names.last()@;
        known_columns_are_named(cols, init, k);
        view_column_is_the_first(cols, last, k);
        let known = known_columns(cols, names);
        let before = known_columns(cols, init);
        assert(names[names.len() - 1] == names.last());
        if let Some(m) = view_column(cols, last) {
            view_column_is_the_first(cols, last, m);
            assert(known == before.push(m as usize));
            assert(known[before.len() as int] == m as usize);
        }
        if before.contains(k as usize) {
            let i = choose|i: int| 0 <= i < before.len() && before[i] == k as usize;
            assert(known[i] == k as usize);
            let n = choose|n: int|
                0 <= n < init.len() && is_view_column(cols, #[trigger] init[n]@, k);
            assert(is_view_column(cols, names[n]@, k));
        }
        if known.contains(k as usize) && !before.contains(k as usize) {
            let i = choose|i: int| 0 <= i < known.len() && known[i] == k as usize;
            assert(i == before.len());
            assert(is_view_column(cols, names[names.len() - 1]@, k));
        }
        if exists|n: int| 0 <= n < names.len() && is_view_column(cols, #[trigger] names[n]@, k) {
            let n = choose|n: int|
                0 <= n < names.len() && is_view_column(cols, #[trigger] names[n]@, k);
            if n < init.len() {
                assert(is_view_column(cols, init[n]@, k));
            }
        }
    }
}

/// The columns that an update of a view assigns are those that its `SET` list names.
pub proof fn an_update_of_a_view_assigns_the_named_columns(
    cols: Seq<ViewCol>,
    set: Seq<SetClause>,
    k: int,
)
    requires
        0 <= k < cols.len() <= usize::MAX,
    ensures
        set_columns(cols, set).contains(k as usize) <==> set_names(cols, set, k),
    decreases set.len(),
{
    if set.len() > 0 {
        let init = set.drop_last();
        let last = set.len() - 1;
        an_update_of_a_view_assigns_the_named_columns(cols, init, k);
        assert(assigned_names(set.last()) =~= names_of(set.last()));
        known_columns_are_named(cols, names_of(set.last()), k);
        let before = set_columns(cols, init);
        let more = known_columns(cols, names_of(set.last()));
        let all = set_columns(cols, set);
        assert(all == before + more);
        assert(set[last] == set.last());
        if before.contains(k as usize) {
            let i = choose|i: int| 0 <= i < before.len() && before[i] == k as usize;
            assert(all[i] == k as usize);
            let (j, n) = choose|j: int, n: int|
                #![trigger names_of(init[j])[n]]
                0 <= j < init.len() && 0 <= n < names_of(init[j]).len() && is_view_column(
                    cols,
                    names_of(init[j])[n]@,
                    k,
                );
            assert(init[j] == set[j]);
            assert(is_view_column(cols, names_of(set[j])[n]@, k));
        }
        if more.contains(k as usize) {
            let i = choose|i: int| 0 <= i < more.len() && more[i] == k as usize;
            assert(all[before.len() + i] == k as usize);
            let n = choose|n: int|
                0 <= n < names_of(set.last()).len() && is_view_column(
                    cols,
                    #[trigger] names_of(set.last())[n]@,
                    k,
                );
            assert(is_view_column(cols, names_of(set[last])[n]@, k));
        }
        if all.contains(k as usize) {
            let i = choose|i: int| 0 <= i < all.len() && all[i] == k as usize;
            if i < before.len() {
                assert(before[i] == k as usize);
            } else {
                assert(more[i - before.len()] == k as usize);
            }
        }
        if set_names(cols, set, k) {
            let (j, n) = choose|j: int, n: int|
                #![trigger names_of(set[j])[n]]
                0 <= j < set.len() && 0 <= n < names_of(set[j]).len() && is_view_column(
                    cols,
                    names_of(set[j])[n]@,
                    k,
                );
            if j < last {
                assert(init[j] == set[j]);
                assert(is_view_column(cols, names_of(init[j])[n]@, k));
            } else {
                assert(is_view_column(cols, names_of(set.last())[n]@, k));
            }
        }
    }
}

/// An `UPDATE` of a view fires, instead of the change, the triggers of the view that are declared
/// for updating a column that its `SET` list names.
pub proof fn an_update_of_a_view_fires_its_update_triggers(
    catalog: Catalog,
    before: CtxView,
    after: CtxView,
    node: PlanNode,
    names: Seq<String>,
    triggers: Seq<TriggerDef<'_>>,
    view: ViewTarget<'_>,
    stmt: ViewUpdate<'_>,
) -> (changed: Seq<usize>)
    requires
        is_view_update(catalog, before, after, node, names, triggers, view, stmt),
        columns_of(view)->Ok_0.len() <= usize::MAX,
    ensures
        stands_instead(
            catalog,
            node,
            names,
            DmlView::Update(changed),
            view,
            triggers,
            stmt.returning@,
        ),
        node->InsteadOf_0.event is Update,
        forall|k: int|
            0 <= k < columns_of(view)->Ok_0.len() ==> (#[trigger] changed.contains(k as usize)
                <==> set_names(columns_of(view)->Ok_0, stmt.set@, k)),
{
    let cols = columns_of(view)->Ok_0;
    let changed = set_columns(cols, stmt.set@);
    instead_of_stands(
        catalog,
        node,
        names,
        InsteadOfEvent::Update,
        DmlView::Update(changed),
        view,
        triggers,
        stmt.returning@,
    );
    assert forall|k: int| 0 <= k < cols.len() implies (#[trigger] changed.contains(k as usize)
        <==> set_names(cols, stmt.set@, k)) by {
        an_update_of_a_view_assigns_the_named_columns(cols, stmt.set@, k);
    }
    changed
}

/// A view may be modified exactly where the statement is not itself the action of a trigger, none
/// of its triggers stands in the way, and some trigger is declared for what the statement does
/// instead of it.
pub proof fn a_view_is_modified_only_through_a_trigger(
    catalog: Catalog,
    triggers: Seq<TriggerDef<'_>>,
    view: ViewTarget<'_>,
    cols: Seq<ViewCol>,
    event: DmlView,
    nested: bool,
)
    ensures
        firing_error(catalog, triggers, view, cols, event, nested) is None <==> {
            let shape = view_shape(view, cols);
            &&& !nested
            &&& forall|i: int|
                0 <= i < triggers.len() ==> !obstructs(
                    catalog,
                    #[trigger] triggers[i],
                    TargetKind::View,
                    view.db,
                    shape,
                    event,
                )
            &&& exists|i: int|
                0 <= i < triggers.len() && fires(
                    #[trigger] triggers[i],
                    TargetKind::View,
                    view.db,
                    shape,
                    event,
                )
        },
{
    let shape = view_shape(view, cols);
    triggers_compile_unless_one_obstructs(
        catalog,
        triggers,
        TargetKind::View,
        view.db,
        shape,
        event,
    );
    assert forall|i: int| 0 <= i < triggers.len() implies compiled_for(
        #[trigger] triggers[i],
        TargetKind::View,
        view.db,
        shape,
        event,
    ) == fires(triggers[i], TargetKind::View, view.db, shape, event) by {
        if reads_back(triggers[i]) {
            a_trigger_fires_on_what_it_is_declared_for(
                declaration(triggers[i]).event,
                event,
                shape,
            );
        }
    }
    if some_fires(triggers, view.db, shape, event) {
        let i = choose|i: int|
            0 <= i < triggers.len() && compiled_for(
                #[trigger] triggers[i],
                TargetKind::View,
                view.db,
                shape,
                event,
            );
        assert(fires(triggers[i], TargetKind::View, view.db, shape, event));
    }
    if exists|i: int|
        0 <= i < triggers.len() && fires(
            #[trigger] triggers[i],
            TargetKind::View,
            view.db,
            shape,
            event,
        ) {
        let i = choose|i: int|
            0 <= i < triggers.len() && fires(
                #[trigger] triggers[i],
                TargetKind::View,
                view.db,
                shape,
                event,
            );
        assert(compiled_for(triggers[i], TargetKind::View, view.db, shape, event));
    }
}

/// A row fits an `INSERT` into a view exactly where it has one value for each listed column, or
/// without a list one for each column of the view.
pub proof fn an_inserted_row_fits_its_columns(
    cols: Seq<ViewCol>,
    listed: Option<Vec<String>>,
    view: Seq<char>,
    width: nat,
)
    requires
        insert_columns(cols, listed, view) is Ok,
        cols.len() <= usize::MAX,
    ensures
        insert_arity_error(
            listed is Some,
            insert_columns(cols, listed, view)->Ok_0,
            cols.len(),
            width,
            view,
        ) is None <==> width == match listed {
            Some(list) => list@.len(),
            None => cols.len(),
        },
{
    if let Some(list) = listed {
        named_positions_one_by_one(cols, list@, view, insert_columns(cols, listed, view)->Ok_0);
    }
}

/// The table that stands for a view has the columns of the view, by name and affinity, none of
/// them generated.
pub proof fn the_stand_in_has_the_columns_of_the_view(
    view: ViewTarget<'_>,
    cols: Seq<ViewCol>,
    k: int,
)
    requires
        0 <= k < cols.len(),
    ensures
        view_shape(view, cols).name == view.name@,
        view_shape(view, cols).columns.len() == cols.len(),
        view_shape(view, cols).columns[k].name@ == cols[k].name@,
        view_shape(view, cols).columns[k].affinity == cols[k].affinity,
        view_shape(view, cols).columns[k].generated is None,
        scan_columns(cols).len() == cols.len(),
        scan_columns(cols)[k].name@ == cols[k].name@,
        scan_columns(cols)[k].affinity == cols[k].affinity,
        !scan_columns(cols)[k].hidden,
{
}

/// A row that does not fit an `INSERT` into a view is reported by what the statement lists: with a
/// column list by how many values it has for how many listed columns, without one by the name of
/// the view, how many columns it has and how many values were given.
pub proof fn a_row_that_does_not_fit_is_counted(
    cols: Seq<ViewCol>,
    listed: Option<Vec<String>>,
    view: Seq<char>,
    width: nat,
)
    requires
        insert_columns(cols, listed, view) is Ok,
        cols.len() <= usize::MAX,
        width != match listed {
            Some(list) => list@.len(),
            None => cols.len(),
        },
    ensures
        insert_arity_error(
            listed is Some,
            insert_columns(cols, listed, view)->Ok_0,
            cols.len(),
            width,
            view,
        ) == Some(
            match listed {
                Some(list) => decimal(width) + " values for "@ + decimal(list@.len()) + " columns"@,
                None => "table "@ + view + " has "@ + decimal(cols.len()) + " columns but "@
                    + decimal(width) + " values were supplied"@,
            },
        ),
{
    an_inserted_row_fits_its_columns(cols, listed, view, width);
    if let Some(list) = listed {
        named_positions_one_by_one(cols, list@, view, insert_columns(cols, listed, view)->Ok_0);
    }
}

/// By its target columns alone, a row fits exactly where it has one value for each of them.
pub proof fn a_row_fits_its_target_columns(
    col_map: Seq<usize>,
    c: nat,
    width: nat,
    view: Seq<char>,
)
    ensures
        arity_error(col_map, c, width, view) is None <==> width == col_map.len(),
        width != col_map.len() && col_map == Seq::new(c, |i: int| i as usize) && c <= usize::MAX
            ==> arity_error(col_map, c, width, view) == Some(
            "table "@ + view + " has "@ + decimal(c) + " columns but "@ + decimal(width)
                + " values were supplied"@,
        ),
        width != col_map.len() && col_map.len() != c ==> arity_error(col_map, c, width, view)
            == Some(decimal(width) + " values for "@ + decimal(col_map.len()) + " columns"@),
{
}

} // verus!
