//! Which error a statement reports: that of the first of its parts, in the order in which they are
//! looked at, that fails; and none exactly where none fails.

#[allow(unused_imports)]
use vstd::prelude::*;
use crate::catalog::{column_named, Catalog, TableDef};
use crate::compile::assignments::{
    clause_assigned, row_assignments, set_assigned, subquery_assignments, target_column, SetClause,
    SetValue,
};
use crate::compile::instead_of::{
    columns_of, firing_error, insert_columns, insert_frame_error, named_positions, set_columns,
    unsupported_message, updated_values, view_column, view_delete_error, view_insert_error,
    view_outputs, view_update_error, InsertSource, ViewCol, ViewDelete, ViewInsert, ViewTarget,
    ViewUpdate,
};
use crate::compile::limit::{limit_exprs, LimitClause};
use crate::compile::query_law::names_output;
use crate::compile::returning::{outputs, ReturningColumn};
use crate::compile::select::{
    core_error, hidden_exprs, select_error, select_width, terms_error, values_key, values_keys,
    CoreFrom, OrderingTerm, QueryTail, ResultList, Select, SelectBody, SelectCore, ValuesTarget,
    ValuesTerm,
};
use crate::compile::trigger::{DmlView, TriggerDef};
use crate::compile::update::{
    clauses_error, fired_error, update_error, update_scan, UpdateClauses, UpdateRows,
    UpdateStatement,
};
use crate::compile::update_law::{a_name_assigns_the_column_it_names, names_target};
use crate::compile::values::{column_name_list, rows_error, values_error};
use crate::compile::stored::{stored_view, ParsedText};
use crate::compile::view_law::an_inserted_row_fits_its_columns;
use crate::compile::view::{expansion_error, schema_error, view_width_message};
use crate::compile::window::{
    builtin_of, call_error, frame_error, frame_of, kind_error, partition_bounds, term_keys,
    BoundOrderTerm, BoundaryClause, FrameClause, WindowCall, WindowView,
};
use crate::compile::window_law::{
    arity, keys_order_as_their_terms, ranking_names, the_names_differ, written_args,
};
use crate::error::{error_of, failure, first_error, Error};
use crate::expr::{bound_exprs, Bound};
use crate::plan::SubPlan;
use crate::plan_ctx::CtxView;
use crate::scope::SynthCol;
use crate::search::{least, lemma_least_from};
use crate::text::{decimal, fold, same_name};
use crate::types::DbIndex;

verus! {

/// Whether `out` is the first message of a list, and there is none where the list has none.
pub open spec fn is_first_of(list: Seq<Option<Seq<char>>>, out: Option<Seq<char>>) -> bool {
    match out {
        None => forall|i: int| 0 <= i < list.len() ==> (#[trigger] list[i]) is None,
        Some(_) => exists|i: int|
            0 <= i < list.len() && #[trigger] list[i] == out && forall|j: int|
                0 <= j < i ==> (#[trigger] list[j]) is None,
    }
}

proof fn first_of_one(a: Option<Seq<char>>)
    ensures
        is_first_of(seq![a], a),
{
    assert(seq![a][0] == a);
}

proof fn first_of_both(
    a: Seq<Option<Seq<char>>>,
    b: Seq<Option<Seq<char>>>,
    x: Option<Seq<char>>,
    y: Option<Seq<char>>,
)
    requires
        is_first_of(a, x),
        is_first_of(b, y),
    ensures
        is_first_of(a + b, first_error(x, y)),
{
    let s = a + b;
    if x is Some {
        let i = choose|i: int|
            0 <= i < a.len() && #[trigger] a[i] == x && forall|j: int|
                0 <= j < i ==> (#[trigger] a[j]) is None;
        assert(s[i] == x);
        assert forall|j: int| 0 <= j < i implies (#[trigger] s[j]) is None by {
            assert(s[j] == a[j]);
        }
    } else if y is Some {
        let i = choose|i: int|
            0 <= i < b.len() && #[trigger] b[i] == y && forall|j: int|
                0 <= j < i ==> (#[trigger] b[j]) is None;
        assert(s[a.len() + i] == y);
        assert forall|j: int| 0 <= j < a.len() + i implies (#[trigger] s[j]) is None by {
            if j < a.len() {
                assert(s[j] == a[j]);
            } else {
                assert(s[j] == b[j - a.len()]);
            }
        }
    } else {
        assert forall|j: int| 0 <= j < s.len() implies (#[trigger] s[j]) is None by {
            if j < a.len() {
                assert(s[j] == a[j]);
            } else {
                assert(s[j] == b[j - a.len()]);
            }
        }
    }
}

/// The message of a term of an `ORDER BY`: that of what it orders by, then that of its collation.
pub open spec fn term_failure(t: OrderingTerm) -> Option<Seq<char>> {
    if t.resolved is Err {
        Some(t.resolved->Err_0.text())
    } else if t.collation is Some && t.collation->Some_0 is Err {
        Some(t.collation->Some_0->Err_0.text())
    } else {
        None
    }
}

pub open spec fn term_failures(ts: Seq<OrderingTerm>) -> Seq<Option<Seq<char>>> {
    ts.map_values(|t: OrderingTerm| term_failure(t))
}

proof fn first_bad_term(ts: Seq<OrderingTerm>)
    ensures
        is_first_of(term_failures(ts), terms_error(ts)),
    decreases ts.len(),
{
    if ts.len() > 0 {
        first_bad_term(ts.drop_last());
        first_of_one(term_failure(ts.last()));
        first_of_both(
            term_failures(ts.drop_last()),
            seq![term_failure(ts.last())],
            terms_error(ts.drop_last()),
            term_failure(ts.last()),
        );
        assert(term_failures(ts) =~= term_failures(ts.drop_last()) + seq![
            term_failure(ts.last()),
        ]);
    }
}

/// Whether some term is no output column.
pub open spec fn has_hidden_term(ts: Seq<OrderingTerm>) -> bool {
    exists|i: int| 0 <= i < ts.len() && (#[trigger] ts[i]).resolved is Ok && ts[i].resolved->Ok_0 is Hidden
}

proof fn hidden_terms_are_counted(ts: Seq<OrderingTerm>)
    ensures
        hidden_exprs(ts).len() > 0 <==> has_hidden_term(ts),
    decreases ts.len(),
{
    if ts.len() > 0 {
        let init = ts.drop_last();
        hidden_terms_are_counted(init);
        assert(ts[ts.len() - 1] == ts.last());
        if has_hidden_term(init) {
            let i = choose|i: int|
                0 <= i < init.len() && (#[trigger] init[i]).resolved is Ok
                    && init[i].resolved->Ok_0 is Hidden;
            assert(ts[i] == init[i]);
        }
        if has_hidden_term(ts) && !(ts.last().resolved is Ok && ts.last().resolved->Ok_0 is Hidden) {
            let i = choose|i: int|
                0 <= i < ts.len() && (#[trigger] ts[i]).resolved is Ok
                    && ts[i].resolved->Ok_0 is Hidden;
            assert(init[i] == ts[i]);
        }
    }
}

/// The messages of a `LIMIT` clause: that of its limit, then that of its offset.
pub open spec fn limit_failures(limit: Option<LimitClause>) -> Seq<Option<Seq<char>>> {
    match limit {
        None => seq![],
        Some(c) => seq![
            failure(c.limit),
            if c.offset is Some {
                failure(c.offset->Some_0)
            } else {
                None
            },
        ],
    }
}

proof fn first_bad_limit(limit: Option<LimitClause>)
    ensures
        is_first_of(
            limit_failures(limit),
            match limit {
                Some(c) => error_of(limit_exprs(c)),
                None => None,
            },
        ),
{
    if let Some(c) = limit {
        let offset = if c.offset is Some {
            failure(c.offset->Some_0)
        } else {
            None
        };
        first_of_one(failure(c.limit));
        first_of_one(offset);
        first_of_both(seq![failure(c.limit)], seq![offset], failure(c.limit), offset);
        assert(limit_failures(limit) =~= seq![failure(c.limit)] + seq![offset]);
    }
}

/// The messages of the parts of a query, in the order in which they are looked at: resolving its
/// sources, its `WHERE`, its row source, its result list, the terms of its `ORDER BY` one by one, a
/// term that is no output under `DISTINCT`, and its `LIMIT`.
pub open spec fn query_failures(
    from: CoreFrom<'_>,
    result: Result<ResultList, Error>,
    tail: QueryTail,
) -> Seq<Option<Seq<char>>> {
    seq![failure(from.resolved)] + seq![failure(from.bound_where)] + seq![failure(from.built)] + seq![
        failure(result),
    ] + term_failures(tail.order_by@) + seq![
        if tail.distinct && has_hidden_term(tail.order_by@) {
            Some("ORDER BY term does not match any column in the result set"@)
        } else {
            None
        },
    ] + limit_failures(tail.limit)
}

/// A query compiles exactly where all its parts do and no term of a `DISTINCT` query is hidden, and
/// it reports the first of them that fails.
pub proof fn a_query_reports_its_first_error(
    from: CoreFrom<'_>,
    result: Result<ResultList, Error>,
    tail: QueryTail,
)
    ensures
        is_first_of(
            query_failures(from, result, tail),
            core_error(SelectCore::Query { from, result, tail }),
        ),
{
    let ts = tail.order_by@;
    let hidden = if tail.distinct && has_hidden_term(ts) {
        Some("ORDER BY term does not match any column in the result set"@)
    } else {
        None
    };
    let limit = match tail.limit {
        Some(c) => error_of(limit_exprs(c)),
        None => None,
    };
    let a = failure(from.resolved);
    let b = failure(from.bound_where);
    let c = failure(from.built);
    let d = failure(result);
    first_bad_term(ts);
    hidden_terms_are_counted(ts);
    first_bad_limit(tail.limit);
    first_of_one(a);
    first_of_one(b);
    first_of_one(c);
    first_of_one(d);
    first_of_one(hidden);
    let s1 = seq![a] + seq![b];
    first_of_both(seq![a], seq![b], a, b);
    first_of_both(s1, seq![c], first_error(a, b), c);
    let x1 = first_error(first_error(a, b), c);
    first_of_both(s1 + seq![c], seq![d], x1, d);
    let x2 = first_error(x1, d);
    let s2 = s1 + seq![c] + seq![d];
    first_of_both(s2, term_failures(ts), x2, terms_error(ts));
    let x3 = first_error(x2, terms_error(ts));
    let s3 = s2 + term_failures(ts);
    first_of_both(s3, seq![hidden], x3, hidden);
    let x4 = first_error(x3, hidden);
    let s4 = s3 + seq![hidden];
    first_of_both(s4, limit_failures(tail.limit), x4, limit);
    assert(first_error(x4, limit) == core_error(SelectCore::Query { from, result, tail }));
}

/// A select with a `WITH` clause reports what compiling it through that clause reports, and a
/// compound what compiling it reports; else it reports what its core does.
pub proof fn a_select_reports_what_it_is_compiled_through(sel: Select<'_>)
    ensures
        sel.with matches Some(outcome) ==> select_error(sel) == failure(outcome),
        sel.with is None ==> match sel.body {
            SelectBody::Compound(outcome) => select_error(sel) == failure(outcome),
            SelectBody::Select(core) => select_error(sel) == core_error(core),
        },
{
}

/// The message of a row of a `VALUES` list: that it is not as wide as the first, or that of its
/// first term that does not bind.
pub open spec fn row_fits(row: Seq<Bound>, width: nat) -> bool {
    row.len() == width && forall|i: int| 0 <= i < row.len() ==> (#[trigger] row[i]) is Ok
}

proof fn a_row_binds_where_its_terms_do(row: Seq<Bound>)
    ensures
        bound_exprs(row) is Ok <==> forall|i: int| 0 <= i < row.len() ==> (#[trigger] row[i]) is Ok,
    decreases row.len(),
{
    if row.len() > 0 {
        let init = row.drop_last();
        a_row_binds_where_its_terms_do(init);
        assert(row[row.len() - 1] == row.last());
        if bound_exprs(row) is Ok {
            assert forall|i: int| 0 <= i < row.len() implies (#[trigger] row[i]) is Ok by {
                if i < init.len() {
                    assert(init[i] == row[i]);
                }
            }
        }
        if forall|i: int| 0 <= i < row.len() ==> (#[trigger] row[i]) is Ok {
            assert forall|i: int| 0 <= i < init.len() implies (#[trigger] init[i]) is Ok by {
                assert(row[i] is Ok);
            }
        }
    }
}

proof fn rows_fit_where_each_does(rows: Seq<Vec<Bound>>, width: nat)
    ensures
        rows_error(rows, width) is None <==> forall|i: int|
            0 <= i < rows.len() ==> row_fits((#[trigger] rows[i])@, width),
    decreases rows.len(),
{
    if rows.len() > 0 {
        let init = rows.drop_last();
        rows_fit_where_each_does(init, width);
        a_row_binds_where_its_terms_do(rows.last()@);
        assert(rows[rows.len() - 1] == rows.last());
        if rows_error(rows, width) is None {
            assert forall|i: int| 0 <= i < rows.len() implies row_fits((#[trigger] rows[i])@, width) by {
                if i < init.len() {
                    assert(init[i] == rows[i]);
                }
            }
        }
        if forall|i: int| 0 <= i < rows.len() ==> row_fits((#[trigger] rows[i])@, width) {
            assert forall|i: int| 0 <= i < init.len() implies row_fits((#[trigger] init[i])@, width) by {
                assert(row_fits(rows[i]@, width));
            }
        }
    }
}

/// A `VALUES` list is one of rows of one width exactly where it has a row, every row has as many
/// terms as the first, and every term binds.
pub proof fn a_values_list_compiles_where_its_rows_fit(rows: Seq<Vec<Bound>>)
    ensures
        values_error(rows) is None <==> rows.len() > 0 && forall|i: int|
            0 <= i < rows.len() ==> row_fits((#[trigger] rows[i])@, rows[0]@.len()),
{
    if rows.len() > 0 {
        rows_fit_where_each_does(rows, rows[0]@.len());
    }
}

/// The message of an item of a `RETURNING` list.
pub open spec fn item_failure(c: ReturningColumn) -> Option<Seq<char>> {
    match c {
        ReturningColumn::Expr { expr, .. } => failure(expr),
        ReturningColumn::Star(cols) => failure(cols),
        ReturningColumn::TableStar(cols) => failure(cols),
    }
}

pub open spec fn item_failures(list: Seq<ReturningColumn>) -> Seq<Option<Seq<char>>> {
    list.map_values(|c: ReturningColumn| item_failure(c))
}

proof fn first_bad_item(list: Seq<ReturningColumn>)
    ensures
        is_first_of(item_failures(list), error_of(outputs(list))),
    decreases list.len(),
{
    if list.len() > 0 {
        let init = list.drop_last();
        first_bad_item(init);
        first_of_one(item_failure(list.last()));
        first_of_both(
            item_failures(init),
            seq![item_failure(list.last())],
            error_of(outputs(init)),
            item_failure(list.last()),
        );
        assert(item_failures(list) =~= item_failures(init) + seq![item_failure(list.last())]);
    }
}

/// Whether an assignment can be made: its names are of columns that may be assigned, it has as many
/// values as names, and they bind.
pub open spec fn assignable(td: TableDef, c: SetClause) -> bool {
    match c {
        SetClause::Column { name, value } => has_target(td, name@) && value is Ok,
        SetClause::Columns { names, value } => {
            &&& forall|i: int| 0 <= i < names@.len() ==> has_target(td, (#[trigger] names@[i])@)
            &&& match value {
                SetValue::Row(row) => row_fits(row@, names@.len()),
                SetValue::Scalar(x) => names@.len() == 1 && x is Ok,
                SetValue::Subquery(sub) => sub is Ok && sub->Ok_0.1@.len() == names@.len(),
            }
        },
    }
}

/// Whether a name is one of a column that may be assigned.
pub open spec fn has_target(td: TableDef, name: Seq<char>) -> bool {
    exists|i: usize| #[trigger] names_target(td, name, i as int)
}

proof fn a_target_is_found_where_there_is_one(td: TableDef, name: Seq<char>)
    ensures
        target_column(td, name) is Ok <==> has_target(td, name),
{
    if let Ok(i) = target_column(td, name) {
        a_name_assigns_the_column_it_names(td, name, i);
    }
    if has_target(td, name) {
        let i = choose|i: usize| #[trigger] names_target(td, name, i as int);
        a_name_assigns_the_column_it_names(td, name, i);
    }
}

proof fn a_row_is_assigned_where_it_fits(td: TableDef, names: Seq<String>, row: Seq<Bound>)
    requires
        names.len() == row.len(),
    ensures
        row_assignments(td, names, row) is Ok <==> (forall|i: int|
            0 <= i < names.len() ==> has_target(td, (#[trigger] names[i])@)) && (forall|i: int|
            0 <= i < row.len() ==> (#[trigger] row[i]) is Ok),
    decreases names.len(),
{
    if names.len() > 0 {
        let n = names.drop_last();
        let r = row.drop_last();
        a_row_is_assigned_where_it_fits(td, n, r);
        a_target_is_found_where_there_is_one(td, names.last()@);
        assert(names[names.len() - 1] == names.last());
        assert(row[row.len() - 1] == row.last());
        assert(forall|i: int| 0 <= i < n.len() ==> #[trigger] n[i] == names[i]);
        assert(forall|i: int| 0 <= i < r.len() ==> #[trigger] r[i] == row[i]);
        if row_assignments(td, names, row) is Ok {
            assert forall|i: int| 0 <= i < names.len() implies has_target(td, (#[trigger] names[i])@) by {
                if i < n.len() {
                    assert(has_target(td, n[i]@));
                }
            }
            assert forall|i: int| 0 <= i < row.len() implies (#[trigger] row[i]) is Ok by {
                if i < r.len() {
                    assert(r[i] is Ok);
                }
            }
        }
    }
}

proof fn a_subquery_is_assigned_where_it_fits(td: TableDef, names: Seq<String>, id: usize)
    ensures
        subquery_assignments(td, names, id) is Ok <==> forall|i: int|
            0 <= i < names.len() ==> has_target(td, (#[trigger] names[i])@),
    decreases names.len(),
{
    if names.len() > 0 {
        let n = names.drop_last();
        a_subquery_is_assigned_where_it_fits(td, n, id);
        a_target_is_found_where_there_is_one(td, names.last()@);
        assert(names[names.len() - 1] == names.last());
        assert(forall|i: int| 0 <= i < n.len() ==> #[trigger] n[i] == names[i]);
        if subquery_assignments(td, names, id) is Ok {
            assert forall|i: int| 0 <= i < names.len() implies has_target(td, (#[trigger] names[i])@) by {
                if i < n.len() {
                    assert(has_target(td, n[i]@));
                }
            }
        }
    }
}

/// An assignment is made exactly where it can be.
pub proof fn an_assignment_is_made_where_it_can_be(
    td: TableDef,
    c: SetClause,
    subqueries: Seq<SubPlan>,
)
    ensures
        clause_assigned(td, c, subqueries).outcome is Ok <==> assignable(td, c),
{
    match c {
        SetClause::Column { name, value } => {
            a_target_is_found_where_there_is_one(td, name@);
        },
        SetClause::Columns { names, value } => {
            if names@.len() == 1 {
                a_target_is_found_where_there_is_one(td, names@[0]@);
            }
            match value {
                SetValue::Row(row) => {
                    if row@.len() == names@.len() {
                        a_row_is_assigned_where_it_fits(td, names@, row@);
                    }
                },
                SetValue::Scalar(x) => {},
                SetValue::Subquery(sub) => {
                    a_subquery_is_assigned_where_it_fits(td, names@, subqueries.len() as usize);
                },
            }
        },
    }
}

/// A `SET` list is made exactly where each of its assignments can be.
pub proof fn a_set_list_is_made_where_each_assignment_can_be(
    td: TableDef,
    set: Seq<SetClause>,
    subqueries: Seq<SubPlan>,
)
    ensures
        set_assigned(td, set, subqueries).outcome is Ok <==> forall|i: int|
            0 <= i < set.len() ==> assignable(td, #[trigger] set[i]),
    decreases set.len(),
{
    if set.len() > 0 {
        let init = set.drop_last();
        a_set_list_is_made_where_each_assignment_can_be(td, init, subqueries);
        let before = set_assigned(td, init, subqueries);
        an_assignment_is_made_where_it_can_be(td, set.last(), before.subqueries);
        assert(set[set.len() - 1] == set.last());
        assert(forall|i: int| 0 <= i < init.len() ==> #[trigger] init[i] == set[i]);
        if set_assigned(td, set, subqueries).outcome is Ok {
            assert forall|i: int| 0 <= i < set.len() implies assignable(td, #[trigger] set[i]) by {
                if i < init.len() {
                    assert(assignable(td, init[i]));
                }
            }
        }
    }
}

/// The messages of the clauses of an update of a table, in the order in which they are looked at:
/// its `WITH`, a `FROM` where it is an action of a trigger, the sources of its `FROM`, its `SET`
/// list, its `WHERE`, its row source, and its `RETURNING` list item by item. The row source of an
/// action is the whole table.
pub open spec fn clause_failures(
    before: CtxView,
    td: TableDef,
    c: UpdateClauses<'_>,
    parent: Option<usize>,
) -> Seq<Option<Seq<char>>> {
    seq![failure(c.with)] + seq![
        match c.rows {
            UpdateRows::From { resolved, .. } => if parent is Some {
                Some("UPDATE ... FROM inside a trigger action is not yet supported"@)
            } else {
                failure(resolved)
            },
            UpdateRows::Target { .. } => None,
        },
    ] + seq![error_of(set_assigned(td, c.set@, before.subqueries).outcome)] + seq![
        match c.where_clause {
            Some(p) => failure(p),
            None => None,
        },
    ] + seq![
        match c.rows {
            UpdateRows::From { built, .. } => failure(built),
            UpdateRows::Target { access } => if parent is None || parent == Some(0usize) {
                failure(access)
            } else {
                None
            },
        },
    ] + item_failures(c.returning@)
}

/// The clauses of an update compile exactly where all of them do, and the first that fails is
/// reported.
pub proof fn an_update_reports_its_first_error(
    before: CtxView,
    td: TableDef,
    db: DbIndex,
    c: UpdateClauses<'_>,
    parent: Option<usize>,
)
    ensures
        is_first_of(clause_failures(before, td, c, parent), clauses_error(before, td, db, c, parent)),
{
    let a = failure(c.with);
    let b = match c.rows {
        UpdateRows::From { resolved, .. } => if parent is Some {
            Some("UPDATE ... FROM inside a trigger action is not yet supported"@)
        } else {
            failure(resolved)
        },
        UpdateRows::Target { .. } => None,
    };
    let d = error_of(set_assigned(td, c.set@, before.subqueries).outcome);
    let f = match c.where_clause {
        Some(p) => failure(p),
        None => None,
    };
    let g = match c.rows {
        UpdateRows::From { built, .. } => failure(built),
        UpdateRows::Target { access } => if parent is None || parent == Some(0usize) {
            failure(access)
        } else {
            None
        },
    };
    let h = error_of(outputs(c.returning@));
    first_of_one(a);
    first_of_one(b);
    first_of_one(d);
    first_of_one(f);
    first_of_one(g);
    first_bad_item(c.returning@);
    let s1 = seq![a] + seq![b];
    first_of_both(seq![a], seq![b], a, b);
    let x1 = first_error(a, b);
    first_of_both(s1, seq![d], x1, d);
    let x2 = first_error(x1, d);
    first_of_both(s1 + seq![d], seq![f], x2, f);
    let x3 = first_error(x2, f);
    first_of_both(s1 + seq![d] + seq![f], seq![g], x3, g);
    let x4 = first_error(x3, g);
    first_of_both(s1 + seq![d] + seq![f] + seq![g], item_failures(c.returning@), x4, h);
    assert(failure(update_scan(td, db, c, parent)) == g);
    assert(first_error(x4, h) == clauses_error(before, td, db, c, parent));
}

/// A top-level update of a table reports what its clauses report, then what its triggers do, then
/// what the checks, the index keys and the index predicates of the table do, in that order.
pub proof fn an_update_reports_its_clauses_first(
    catalog: Catalog,
    before: CtxView,
    td: TableDef,
    db: DbIndex,
    stmt: UpdateStatement<'_>,
)
    ensures
        is_first_of(
            seq![clauses_error(before, td, db, stmt.clauses, None)] + seq![
                fired_error(catalog, before, td, db, stmt),
            ] + seq![failure(stmt.upkeep.checks)] + seq![failure(stmt.upkeep.index_key_exprs)]
                + seq![failure(stmt.upkeep.index_partial_predicates)],
            update_error(catalog, before, td, db, stmt),
        ),
{
    let a = clauses_error(before, td, db, stmt.clauses, None);
    let b = fired_error(catalog, before, td, db, stmt);
    let c = failure(stmt.upkeep.checks);
    let d = failure(stmt.upkeep.index_key_exprs);
    let f = failure(stmt.upkeep.index_partial_predicates);
    first_of_one(a);
    first_of_one(b);
    first_of_one(c);
    first_of_one(d);
    first_of_one(f);
    first_of_both(seq![a], seq![b], a, b);
    let x1 = first_error(a, b);
    first_of_both(seq![a] + seq![b], seq![c], x1, c);
    let x2 = first_error(x1, c);
    first_of_both(seq![a] + seq![b] + seq![c], seq![d], x2, d);
    let x3 = first_error(x2, d);
    first_of_both(seq![a] + seq![b] + seq![c] + seq![d], seq![f], x3, f);
}

/// Whether a term of a `VALUES` list of `width` columns can be ordered by: it names an output
/// column, and its collation is known.
pub open spec fn orderable(t: ValuesTerm, width: nat) -> bool {
    &&& exists|k: int| #[trigger] names_output(t.target, width, k)
    &&& t.collation matches Some(c) ==> c is Ok
}

proof fn a_values_term_is_found_where_it_names_one(t: ValuesTerm, width: nat)
    requires
        width <= usize::MAX,
    ensures
        values_key(t, column_name_list(width)) is Ok <==> orderable(t, width),
{
    let names = column_name_list(width);
    match t.target {
        ValuesTarget::Ordinal(n) => {
            if 1 <= n <= width {
                assert(names_output(t.target, width, n - 1));
            }
        },
        ValuesTarget::Name(name) => {
            let p = |i: int| same_name(names[i], name@);
            lemma_least_from(p, 0, names.len() as int);
            match least(p, names.len() as int) {
                Some(k) => {
                    assert(p(k));
                    assert(names[k] == "column"@ + decimal((k + 1) as nat));
                    assert forall|j: int| 0 <= j < k implies fold(
                        "column"@ + #[trigger] decimal((j + 1) as nat),
                    ) != fold(name@) by {
                        assert(!p(j));
                        assert(names[j] == "column"@ + decimal((j + 1) as nat));
                    }
                    assert(names_output(t.target, width, k));
                },
                None => {
                    if exists|k: int| #[trigger] names_output(t.target, width, k) {
                        let k = choose|k: int| #[trigger] names_output(t.target, width, k);
                        assert(!p(k));
                        assert(names[k] == "column"@ + decimal((k + 1) as nat));
                    }
                },
            }
        },
        ValuesTarget::Other => {},
    }
}

proof fn values_terms_are_found_where_each_is(ts: Seq<ValuesTerm>, width: nat)
    requires
        width <= usize::MAX,
    ensures
        values_keys(ts, column_name_list(width)) is Ok <==> forall|i: int|
            0 <= i < ts.len() ==> orderable(#[trigger] ts[i], width),
    decreases ts.len(),
{
    if ts.len() > 0 {
        let init = ts.drop_last();
        values_terms_are_found_where_each_is(init, width);
        a_values_term_is_found_where_it_names_one(ts.last(), width);
        assert(ts[ts.len() - 1] == ts.last());
        assert(forall|i: int| 0 <= i < init.len() ==> #[trigger] init[i] == ts[i]);
        if values_keys(ts, column_name_list(width)) is Ok {
            assert forall|i: int| 0 <= i < ts.len() implies orderable(#[trigger] ts[i], width) by {
                if i < init.len() {
                    assert(orderable(init[i], width));
                }
            }
        }
    }
}

/// A `VALUES` list with its tail compiles exactly where its rows fit, each term of its `ORDER BY`
/// names one of its columns, and its `LIMIT` binds.
pub proof fn a_values_core_compiles_where_its_parts_do(
    rows: Vec<Vec<Bound>>,
    order_by: Vec<ValuesTerm>,
    limit: Option<LimitClause>,
)
    ensures
        core_error(SelectCore::Values { rows, order_by, limit }) is None <==> {
            &&& rows@.len() > 0
            &&& forall|i: int|
                0 <= i < rows@.len() ==> row_fits((#[trigger] rows@[i])@, rows@[0]@.len())
            &&& forall|i: int|
                0 <= i < order_by@.len() ==> orderable(#[trigger] order_by@[i], rows@[0]@.len())
            &&& limit matches Some(c) ==> c.limit is Ok && (c.offset matches Some(o) ==> o is Ok)
        },
{
    a_values_list_compiles_where_its_rows_fit(rows@);
    if rows@.len() > 0 {
        assert(rows@[0]@.len() == rows@[0].len());
        values_terms_are_found_where_each_is(order_by@, rows@[0]@.len());
    }
}

/// The message of an item of the `RETURNING` of a statement on a view: a `*` has none.
pub open spec fn view_item_failures(list: Seq<ReturningColumn>) -> Seq<Option<Seq<char>>> {
    list.map_values(
        |c: ReturningColumn|
            if c is Star {
                None
            } else {
                item_failure(c)
            },
    )
}

proof fn first_bad_view_item(cols: Seq<ViewCol>, list: Seq<ReturningColumn>)
    ensures
        is_first_of(view_item_failures(list), error_of(view_outputs(cols, list))),
    decreases list.len(),
{
    if list.len() > 0 {
        let init = list.drop_last();
        let last = if list.last() is Star {
            None
        } else {
            item_failure(list.last())
        };
        first_bad_view_item(cols, init);
        first_of_one(last);
        first_of_both(
            view_item_failures(init),
            seq![last],
            error_of(view_outputs(cols, init)),
            last,
        );
        assert(view_item_failures(list) =~= view_item_failures(init) + seq![last]);
    }
}

/// A statement on a view whose columns are known reports first that no trigger takes its place,
/// then what it may not say about a view, then its `WITH`, then its own clauses, then its
/// `RETURNING` list item by item. An `INSERT` may not say `ON CONFLICT`, an `UPDATE` not `FROM`.
pub proof fn a_statement_on_a_view_reports_its_first_error(
    catalog: Catalog,
    triggers: Seq<TriggerDef<'_>>,
    view: ViewTarget<'_>,
    cols: Seq<ViewCol>,
    insert: ViewInsert<'_>,
    update: ViewUpdate<'_>,
    delete: ViewDelete<'_>,
    changed: Seq<usize>,
    nested: bool,
)
    requires
        columns_of(view) == Ok::<Seq<ViewCol>, Seq<char>>(cols),
        changed == set_columns(cols, update.set@),
    ensures
        is_first_of(
            seq![firing_error(catalog, triggers, view, cols, DmlView::Insert, nested)] + seq![
                if insert.upsert {
                    Some(unsupported_message("ON CONFLICT (upsert)"@, view.name@))
                } else {
                    None
                },
            ] + seq![failure(insert.with)] + seq![
                insert_frame_error(cols, insert.columns, insert.source, view.name@),
            ] + view_item_failures(insert.returning@),
            view_insert_error(catalog, triggers, view, insert, nested),
        ),
        is_first_of(
            seq![firing_error(catalog, triggers, view, cols, DmlView::Delete, nested)] + seq![
                failure(delete.with),
            ] + seq![
                match delete.where_clause {
                    Some(p) => failure(p),
                    None => None,
                },
            ] + seq![
                expansion_error(
                    delete.scan.entered,
                    delete.scan.text,
                    delete.scan.body,
                    view.name@,
                    cols.len(),
                ),
            ] + view_item_failures(delete.returning@),
            view_delete_error(catalog, triggers, view, delete, nested),
        ),
        is_first_of(
            seq![firing_error(catalog, triggers, view, cols, DmlView::Update(changed), nested)]
                + seq![
                if update.from {
                    Some(unsupported_message("FROM"@, view.name@))
                } else {
                    None
                },
            ] + seq![failure(update.with)] + seq![
                error_of(updated_values(cols, update.set@, view.name@)),
            ] + seq![
                match update.where_clause {
                    Some(p) => failure(p),
                    None => None,
                },
            ] + seq![
                expansion_error(
                    update.scan.entered,
                    update.scan.text,
                    update.scan.body,
                    view.name@,
                    cols.len(),
                ),
            ] + view_item_failures(update.returning@),
            view_update_error(catalog, triggers, view, update, nested),
        ),
{
    insert_into_a_view_reports(catalog, triggers, view, cols, insert, nested);
    delete_from_a_view_reports(catalog, triggers, view, cols, delete, nested);
    update_of_a_view_reports(catalog, triggers, view, cols, update, nested);
}

proof fn insert_into_a_view_reports(
    catalog: Catalog,
    triggers: Seq<TriggerDef<'_>>,
    view: ViewTarget<'_>,
    cols: Seq<ViewCol>,
    stmt: ViewInsert<'_>,
    nested: bool,
)
    requires
        columns_of(view) == Ok::<Seq<ViewCol>, Seq<char>>(cols),
    ensures
        is_first_of(
            seq![firing_error(catalog, triggers, view, cols, DmlView::Insert, nested)] + seq![
                if stmt.upsert {
                    Some(unsupported_message("ON CONFLICT (upsert)"@, view.name@))
                } else {
                    None
                },
            ] + seq![failure(stmt.with)] + seq![
                insert_frame_error(cols, stmt.columns, stmt.source, view.name@),
            ] + view_item_failures(stmt.returning@),
            view_insert_error(catalog, triggers, view, stmt, nested),
        ),
{
    let a = firing_error(catalog, triggers, view, cols, DmlView::Insert, nested);
    let b = if stmt.upsert {
        Some(unsupported_message("ON CONFLICT (upsert)"@, view.name@))
    } else {
        None
    };
    let c = failure(stmt.with);
    let d = insert_frame_error(cols, stmt.columns, stmt.source, view.name@);
    first_bad_view_item(cols, stmt.returning@);
    first_of_one(a);
    first_of_one(b);
    first_of_one(c);
    first_of_one(d);
    first_of_both(seq![a], seq![b], a, b);
    let x1 = first_error(a, b);
    first_of_both(seq![a] + seq![b], seq![c], x1, c);
    let x2 = first_error(x1, c);
    first_of_both(seq![a] + seq![b] + seq![c], seq![d], x2, d);
    let x3 = first_error(x2, d);
    first_of_both(
        seq![a] + seq![b] + seq![c] + seq![d],
        view_item_failures(stmt.returning@),
        x3,
        error_of(view_outputs(cols, stmt.returning@)),
    );
}

proof fn delete_from_a_view_reports(
    catalog: Catalog,
    triggers: Seq<TriggerDef<'_>>,
    view: ViewTarget<'_>,
    cols: Seq<ViewCol>,
    stmt: ViewDelete<'_>,
    nested: bool,
)
    requires
        columns_of(view) == Ok::<Seq<ViewCol>, Seq<char>>(cols),
    ensures
        is_first_of(
            seq![firing_error(catalog, triggers, view, cols, DmlView::Delete, nested)] + seq![
                failure(stmt.with),
            ] + seq![
                match stmt.where_clause {
                    Some(p) => failure(p),
                    None => None,
                },
            ] + seq![
                expansion_error(
                    stmt.scan.entered,
                    stmt.scan.text,
                    stmt.scan.body,
                    view.name@,
                    cols.len(),
                ),
            ] + view_item_failures(stmt.returning@),
            view_delete_error(catalog, triggers, view, stmt, nested),
        ),
{
    let a = firing_error(catalog, triggers, view, cols, DmlView::Delete, nested);
    let b = failure(stmt.with);
    let c = match stmt.where_clause {
        Some(p) => failure(p),
        None => None,
    };
    let d = expansion_error(
        stmt.scan.entered,
        stmt.scan.text,
        stmt.scan.body,
        view.name@,
        cols.len(),
    );
    first_bad_view_item(cols, stmt.returning@);
    first_of_one(a);
    first_of_one(b);
    first_of_one(c);
    first_of_one(d);
    first_of_both(seq![a], seq![b], a, b);
    let x1 = first_error(a, b);
    first_of_both(seq![a] + seq![b], seq![c], x1, c);
    let x2 = first_error(x1, c);
    first_of_both(seq![a] + seq![b] + seq![c], seq![d], x2, d);
    let x3 = first_error(x2, d);
    first_of_both(
        seq![a] + seq![b] + seq![c] + seq![d],
        view_item_failures(stmt.returning@),
        x3,
        error_of(view_outputs(cols, stmt.returning@)),
    );
}

proof fn update_of_a_view_reports(
    catalog: Catalog,
    triggers: Seq<TriggerDef<'_>>,
    view: ViewTarget<'_>,
    cols: Seq<ViewCol>,
    stmt: ViewUpdate<'_>,
    nested: bool,
)
    requires
        columns_of(view) == Ok::<Seq<ViewCol>, Seq<char>>(cols),
    ensures
        is_first_of(
            seq![
                firing_error(
                    catalog,
                    triggers,
                    view,
                    cols,
                    DmlView::Update(set_columns(cols, stmt.set@)),
                    nested,
                ),
            ] + seq![
                if stmt.from {
                    Some(unsupported_message("FROM"@, view.name@))
                } else {
                    None
                },
            ] + seq![failure(stmt.with)] + seq![
                error_of(updated_values(cols, stmt.set@, view.name@)),
            ] + seq![
                match stmt.where_clause {
                    Some(p) => failure(p),
                    None => None,
                },
            ] + seq![
                expansion_error(
                    stmt.scan.entered,
                    stmt.scan.text,
                    stmt.scan.body,
                    view.name@,
                    cols.len(),
                ),
            ] + view_item_failures(stmt.returning@),
            view_update_error(catalog, triggers, view, stmt, nested),
        ),
{
    let a = firing_error(
        catalog,
        triggers,
        view,
        cols,
        DmlView::Update(set_columns(cols, stmt.set@)),
        nested,
    );
    let b = if stmt.from {
        Some(unsupported_message("FROM"@, view.name@))
    } else {
        None
    };
    let c = failure(stmt.with);
    let d = error_of(updated_values(cols, stmt.set@, view.name@));
    let f = match stmt.where_clause {
        Some(p) => failure(p),
        None => None,
    };
    let g = expansion_error(
        stmt.scan.entered,
        stmt.scan.text,
        stmt.scan.body,
        view.name@,
        cols.len(),
    );
    first_bad_view_item(cols, stmt.returning@);
    first_of_one(a);
    first_of_one(b);
    first_of_one(c);
    first_of_one(d);
    first_of_one(f);
    first_of_one(g);
    first_of_both(seq![a], seq![b], a, b);
    let x1 = first_error(a, b);
    first_of_both(seq![a] + seq![b], seq![c], x1, c);
    let x2 = first_error(x1, c);
    first_of_both(seq![a] + seq![b] + seq![c], seq![d], x2, d);
    let x3 = first_error(x2, d);
    first_of_both(seq![a] + seq![b] + seq![c] + seq![d], seq![f], x3, f);
    let x4 = first_error(x3, f);
    first_of_both(seq![a] + seq![b] + seq![c] + seq![d] + seq![f], seq![g], x4, g);
    let x5 = first_error(x4, g);
    first_of_both(
        seq![a] + seq![b] + seq![c] + seq![d] + seq![f] + seq![g],
        view_item_failures(stmt.returning@),
        x5,
        error_of(view_outputs(cols, stmt.returning@)),
    );
}

/// A view is scanned exactly where it may be entered, its text reads back as one view, its select
/// compiles, and its select has as many columns as its schema; the first of these that fails is
/// reported.
pub proof fn a_view_scan_reports_its_first_error(
    entered: Result<(), Error>,
    text: ParsedText<'_>,
    body: Select<'_>,
    name: Seq<char>,
    column_count: nat,
)
    ensures
        is_first_of(
            seq![failure(entered)] + seq![error_of(stored_view(text, name))] + seq![
                select_error(body),
            ] + seq![
                if select_width(body) == column_count {
                    None
                } else {
                    Some(view_width_message(name, column_count, select_width(body)))
                },
            ],
            expansion_error(entered, text, body, name, column_count),
        ),
{
    let a = failure(entered);
    let b = error_of(stored_view(text, name));
    let c = select_error(body);
    let d = if select_width(body) == column_count {
        None
    } else {
        Some(view_width_message(name, column_count, select_width(body)))
    };
    first_of_one(a);
    first_of_one(b);
    first_of_one(c);
    first_of_one(d);
    first_of_both(seq![a], seq![b], a, b);
    let x1 = first_error(a, b);
    first_of_both(seq![a] + seq![b], seq![c], x1, c);
    let x2 = first_error(x1, c);
    first_of_both(seq![a] + seq![b] + seq![c], seq![d], x2, d);
}

/// The message of a term of the order of a window.
pub open spec fn window_term_failure(t: BoundOrderTerm) -> Option<Seq<char>> {
    if t.expr is Err {
        Some(t.expr->Err_0.text())
    } else if t.collation is Some && t.collation->Some_0 is Err {
        Some(t.collation->Some_0->Err_0.text())
    } else {
        None
    }
}

pub open spec fn window_term_failures(ts: Seq<BoundOrderTerm>) -> Seq<Option<Seq<char>>> {
    ts.map_values(|t: BoundOrderTerm| window_term_failure(t))
}

proof fn first_bad_window_term(ts: Seq<BoundOrderTerm>)
    ensures
        is_first_of(window_term_failures(ts), error_of(term_keys(ts))),
    decreases ts.len(),
{
    if ts.len() > 0 {
        let init = ts.drop_last();
        let last = window_term_failure(ts.last());
        first_bad_window_term(init);
        first_of_one(last);
        first_of_both(window_term_failures(init), seq![last], error_of(term_keys(init)), last);
        assert(window_term_failures(ts) =~= window_term_failures(init) + seq![last]);
    }
}

pub open spec fn bound_failures(bounds: Seq<Bound>) -> Seq<Option<Seq<char>>> {
    bounds.map_values(|b: Bound| failure(b))
}

proof fn first_bad_bound(bounds: Seq<Bound>)
    ensures
        is_first_of(bound_failures(bounds), error_of(bound_exprs(bounds))),
    decreases bounds.len(),
{
    if bounds.len() > 0 {
        let init = bounds.drop_last();
        let last = failure(bounds.last());
        first_bad_bound(init);
        first_of_one(last);
        first_of_both(bound_failures(init), seq![last], error_of(bound_exprs(init)), last);
        assert(bound_failures(bounds) =~= bound_failures(init) + seq![last]);
    }
}

/// A window-function call reports first that it stands where none may stand, then that its window
/// does not resolve, then that it is `DISTINCT`, then what is wrong with its function, with its
/// partitions, its order and its frame, in that order, and last that its frame is not allowed.
pub proof fn a_window_call_reports_its_first_error(
    allowed: bool,
    call: WindowCall,
    w: WindowView,
)
    ensures
        is_first_of(
            seq![
                if allowed {
                    None
                } else {
                    Some("misuse of window function "@ + call.name@ + "()"@)
                },
            ] + seq![
                if call.distinct {
                    Some("DISTINCT is not supported for window functions"@)
                } else {
                    None
                },
            ] + seq![kind_error(call)] + bound_failures(partition_bounds(w.partition_by))
                + window_term_failures(w.order_by) + seq![error_of(frame_of(w.frame))] + seq![
                if frame_of(w.frame) is Ok {
                    frame_error(frame_of(w.frame)->Ok_0, w.order_by.len())
                } else {
                    None
                },
            ],
            call_error(allowed, call, Ok(w)),
        ),
        forall|text: Seq<char>|
            #![trigger call_error(true, call, Err(text))]
            call_error(true, call, Err(text)) == Some(text),
        forall|text: Seq<char>|
            #![trigger call_error(false, call, Err(text))]
            call_error(false, call, Err(text)) == Some(
                "misuse of window function "@ + call.name@ + "()"@,
            ),
{
    let a = if allowed {
        None
    } else {
        Some("misuse of window function "@ + call.name@ + "()"@)
    };
    let b = if call.distinct {
        Some("DISTINCT is not supported for window functions"@)
    } else {
        None
    };
    let c = kind_error(call);
    let ps = partition_bounds(w.partition_by);
    let d = error_of(bound_exprs(ps));
    let f = error_of(term_keys(w.order_by));
    let g = error_of(frame_of(w.frame));
    let h = if frame_of(w.frame) is Ok {
        frame_error(frame_of(w.frame)->Ok_0, w.order_by.len())
    } else {
        None
    };
    first_of_one(a);
    first_of_one(b);
    first_of_one(c);
    first_bad_bound(ps);
    first_bad_window_term(w.order_by);
    first_of_one(g);
    first_of_one(h);
    first_of_both(seq![a], seq![b], a, b);
    let x1 = first_error(a, b);
    first_of_both(seq![a] + seq![b], seq![c], x1, c);
    let x2 = first_error(x1, c);
    let s2 = seq![a] + seq![b] + seq![c];
    first_of_both(s2, bound_failures(ps), x2, d);
    let x3 = first_error(x2, d);
    let s3 = s2 + bound_failures(ps);
    first_of_both(s3, window_term_failures(w.order_by), x3, f);
    let x4 = first_error(x3, f);
    let s4 = s3 + window_term_failures(w.order_by);
    first_of_both(s4, seq![g], x4, g);
    let x5 = first_error(x4, g);
    first_of_both(s4 + seq![g], seq![h], x5, h);
    if term_keys(w.order_by) is Ok {
        keys_order_as_their_terms(w.order_by, term_keys(w.order_by)->Ok_0);
    }
    assert(first_error(x5, h) == call_error(allowed, call, Ok(w)));
}

/// The columns of a view are known exactly where its text reads back as one view, those of its
/// select are known, and a column list has as many names as the select has columns; the same holds
/// of a view in a `FROM`, which has to be entered first.
pub proof fn the_columns_of_a_view_are_known_where_its_list_fits(
    view: ViewTarget<'_>,
    entered: Result<(), Error>,
    base: Result<Vec<SynthCol>, Error>,
)
    ensures
        columns_of(view) is Ok <==> {
            &&& stored_view(view.text, view.name@) matches Ok(stored)
            &&& view.select_columns matches Ok(own)
            &&& stored.columns matches Some(list) ==> list@.len() == own@.len()
        },
        schema_error(entered, view.text, base, view.name@) is None <==> {
            &&& entered is Ok
            &&& stored_view(view.text, view.name@) matches Ok(stored)
            &&& base matches Ok(own)
            &&& stored.columns matches Some(list) ==> list@.len() == own@.len()
        },
        entered matches Err(e) ==> schema_error(entered, view.text, base, view.name@) == Some(
            e.text(),
        ),
{
}

/// Whether a name is one of a column of a view.
pub open spec fn in_view(cols: Seq<ViewCol>, name: Seq<char>) -> bool {
    exists|k: int| 0 <= k < cols.len() && fold((#[trigger] cols[k]).name@) == fold(name)
}

proof fn a_view_column_is_found_where_there_is_one(cols: Seq<ViewCol>, name: Seq<char>)
    ensures
        view_column(cols, name) is Some <==> in_view(cols, name),
{
    let p = |i: int| same_name(cols[i].name@, name);
    lemma_least_from(p, 0, cols.len() as int);
    match view_column(cols, name) {
        Some(k) => {
            assert(p(k));
        },
        None => {
            assert forall|k: int| 0 <= k < cols.len() implies fold((#[trigger] cols[k]).name@)
                != fold(name) by {
                assert(!p(k));
            }
        },
    }
}

/// The target columns of an `INSERT` into a view are known exactly where every listed name is one of
/// a column of the view.
pub proof fn insert_columns_are_known_where_each_name_is(
    cols: Seq<ViewCol>,
    names: Seq<String>,
    view: Seq<char>,
)
    ensures
        named_positions(cols, names, view) is Ok <==> forall|i: int|
            0 <= i < names.len() ==> in_view(cols, (#[trigger] names[i])@),
    decreases names.len(),
{
    if names.len() > 0 {
        let init = names.drop_last();
        insert_columns_are_known_where_each_name_is(cols, init, view);
        a_view_column_is_found_where_there_is_one(cols, names.last()@);
        assert(names[names.len() - 1] == names.last());
        assert(forall|i: int| 0 <= i < init.len() ==> #[trigger] init[i] == names[i]);
        if named_positions(cols, names, view) is Ok {
            assert forall|i: int| 0 <= i < names.len() implies in_view(cols, (#[trigger] names[i])@) by {
                if i < init.len() {
                    assert(in_view(cols, init[i]@));
                }
            }
        }
    }
}

/// The new row of an update of a view is known exactly where every assignment is one of a single
/// column of the view, and its value binds.
pub proof fn a_view_is_updated_where_each_assignment_can_be(
    cols: Seq<ViewCol>,
    set: Seq<SetClause>,
    view: Seq<char>,
)
    ensures
        updated_values(cols, set, view) is Ok <==> forall|i: int|
            #![trigger set[i]]
            0 <= i < set.len() ==> set[i] is Column && in_view(cols, set[i]->Column_name@)
                && set[i]->Column_value is Ok,
    decreases set.len(),
{
    if set.len() > 0 {
        let init = set.drop_last();
        a_view_is_updated_where_each_assignment_can_be(cols, init, view);
        if let SetClause::Column { name, .. } = set.last() {
            a_view_column_is_found_where_there_is_one(cols, name@);
        }
        assert(set[set.len() - 1] == set.last());
        assert(forall|i: int| 0 <= i < init.len() ==> #[trigger] init[i] == set[i]);
        if updated_values(cols, set, view) is Ok {
            assert forall|i: int|
                #![trigger set[i]]
                0 <= i < set.len() implies set[i] is Column && in_view(cols, set[i]->Column_name@)
                && set[i]->Column_value is Ok by {
                if i < init.len() {
                    assert(init[i] == set[i]);
                }
            }
        }
        if forall|i: int|
            #![trigger set[i]]
            0 <= i < set.len() ==> set[i] is Column && in_view(cols, set[i]->Column_name@)
                && set[i]->Column_value is Ok {
            assert forall|i: int|
                #![trigger init[i]]
                0 <= i < init.len() implies init[i] is Column && in_view(
                cols,
                init[i]->Column_name@,
            ) && init[i]->Column_value is Ok by {
                assert(set[i] == init[i]);
            }
        }
    }
}

/// The rows of an `INSERT` into a view compile exactly where its target columns are known, its rows
/// or its select compile, and each row has as many values as there are target columns; default
/// values always do.
pub proof fn an_insert_into_a_view_compiles_where_its_rows_fit(
    cols: Seq<ViewCol>,
    names: Option<Vec<String>>,
    source: InsertSource<'_>,
    view: Seq<char>,
)
    requires
        cols.len() <= usize::MAX,
    ensures
        insert_frame_error(cols, names, source, view) is None <==> {
            let wanted = match names {
                Some(list) => list@.len(),
                None => cols.len(),
            };
            &&& names matches Some(list) ==> forall|i: int|
                0 <= i < list@.len() ==> in_view(cols, (#[trigger] list@[i])@)
            &&& match source {
                InsertSource::DefaultValues => true,
                InsertSource::Values(rows) => rows@.len() > 0 && forall|i: int|
                    0 <= i < rows@.len() ==> row_fits((#[trigger] rows@[i])@, wanted),
                InsertSource::Select(sel) => select_error(sel) is None && select_width(sel)
                    == wanted,
            }
        },
{
    if let Some(list) = names {
        insert_columns_are_known_where_each_name_is(cols, list@, view);
    }
    if insert_columns(cols, names, view) is Ok {
        let wanted = match names {
            Some(list) => list@.len(),
            None => cols.len(),
        };
        if let InsertSource::Values(rows) = source {
            let width = if rows@.len() == 0 {
                0
            } else {
                rows@[0]@.len()
            };
            an_inserted_row_fits_its_columns(cols, names, view, width);
            a_values_list_compiles_where_its_rows_fit(rows@);
            if rows@.len() > 0 {
                if insert_frame_error(cols, names, source, view) is None {
                    assert forall|i: int| 0 <= i < rows@.len() implies row_fits(
                        (#[trigger] rows@[i])@,
                        wanted,
                    ) by {
                        assert(row_fits(rows@[i]@, rows@[0]@.len()));
                    }
                }
                if forall|i: int|
                    0 <= i < rows@.len() ==> row_fits((#[trigger] rows@[i])@, wanted) {
                    assert(row_fits(rows@[0]@, wanted));
                    assert forall|i: int| 0 <= i < rows@.len() implies (#[trigger] rows@[i])@.len()
                        == rows@[0]@.len() by {
                        assert(row_fits(rows@[i]@, wanted));
                    }
                    assert forall|i: int| 0 <= i < rows@.len() implies row_fits(
                        (#[trigger] rows@[i])@,
                        rows@[0]@.len(),
                    ) by {
                        assert(row_fits(rows@[i]@, wanted));
                    }
                }
            } else {
                assert(values_error(rows@) is Some);
            }
        }
        if let InsertSource::Select(sel) = source {
            an_inserted_row_fits_its_columns(cols, names, view, select_width(sel));
        }
    }
}

/// The message of the offset of a frame boundary.
pub open spec fn boundary_failure(b: BoundaryClause) -> Option<Seq<char>> {
    match b {
        BoundaryClause::Preceding(e) => failure(e),
        BoundaryClause::Following(e) => failure(e),
        _ => None,
    }
}

/// A frame reports the offset of its start before that of its end.
pub proof fn a_frame_reports_its_start_first(f: FrameClause)
    ensures
        is_first_of(
            seq![
                boundary_failure(f.start),
                if f.end is Some {
                    boundary_failure(f.end->Some_0)
                } else {
                    None
                },
            ],
            error_of(frame_of(Some(f))),
        ),
{
    let a = boundary_failure(f.start);
    let b = if f.end is Some {
        boundary_failure(f.end->Some_0)
    } else {
        None
    };
    first_of_one(a);
    first_of_one(b);
    first_of_both(seq![a], seq![b], a, b);
    assert(seq![a] + seq![b] =~= seq![a, b]);
}

/// A call of a ranking function reports a filter first, then an order, then that it has another
/// number of arguments than the function takes, then its arguments one by one. A call of an
/// aggregate reports its arguments one by one, then the terms of its order, then its filter, and
/// last that its name does not resolve.
pub proof fn a_call_reports_its_first_error(call: WindowCall)
    ensures
        ranking_names().contains(fold(call.name@)) ==> is_first_of(
            seq![
                if call.filter is Some {
                    Some("FILTER clause may only be used with aggregate window functions"@)
                } else {
                    None
                },
            ] + seq![
                if call.order_by@.len() > 0 {
                    Some(
                        "ORDER BY may not be used with the non-aggregate function "@ + call.name@
                            + "()"@,
                    )
                } else {
                    None
                },
            ] + seq![
                if call.args is Star || !(arity(fold(call.name@)).0 <= written_args(
                    call.args,
                ).len() <= arity(fold(call.name@)).1) {
                    Some("wrong number of arguments to function "@ + call.name@ + "()"@)
                } else {
                    None
                },
            ] + bound_failures(written_args(call.args)),
            kind_error(call),
        ),
        !ranking_names().contains(fold(call.name@)) && (call.args is Star && fold(call.name@)
            == fold("count"@) || !(call.args is Star) && call.registry.is_aggregate) ==> is_first_of(
            bound_failures(written_args(call.args)) + window_term_failures(call.order_by@) + seq![
                if call.filter is Some {
                    failure(call.filter->Some_0)
                } else {
                    None
                },
            ] + seq![failure(call.registry.resolved)],
            kind_error(call),
        ),
{
    let args = written_args(call.args);
    let names = ranking_names();
    assert(names[0] == "row_number"@ && names[1] == "rank"@ && names[2] == "dense_rank"@
        && names[3] == "percent_rank"@ && names[4] == "cume_dist"@ && names[5] == "ntile"@
        && names[6] == "lag"@ && names[7] == "lead"@ && names[8] == "first_value"@ && names[9]
        == "last_value"@ && names[10] == "nth_value"@);
    first_bad_bound(args);
    if names.contains(fold(call.name@)) {
        the_names_differ();
        let i = choose|i: int| 0 <= i < names.len() && names[i] == fold(call.name@);
        assert(names[i] == fold(call.name@));
        let a = if call.filter is Some {
            Some("FILTER clause may only be used with aggregate window functions"@)
        } else {
            None
        };
        let b = if call.order_by@.len() > 0 {
            Some("ORDER BY may not be used with the non-aggregate function "@ + call.name@ + "()"@)
        } else {
            None
        };
        let c = if call.args is Star || !(arity(fold(call.name@)).0 <= args.len() <= arity(
            fold(call.name@),
        ).1) {
            Some("wrong number of arguments to function "@ + call.name@ + "()"@)
        } else {
            None
        };
        first_of_one(a);
        first_of_one(b);
        first_of_one(c);
        first_of_both(seq![a], seq![b], a, b);
        let x1 = first_error(a, b);
        first_of_both(seq![a] + seq![b], seq![c], x1, c);
        let x2 = first_error(x1, c);
        first_of_both(
            seq![a] + seq![b] + seq![c],
            bound_failures(args),
            x2,
            error_of(bound_exprs(args)),
        );
    } else {
        assert(builtin_of(fold(call.name@)) is None);
        let f = if call.filter is Some {
            failure(call.filter->Some_0)
        } else {
            None
        };
        let g = failure(call.registry.resolved);
        first_bad_window_term(call.order_by@);
        first_of_one(f);
        first_of_one(g);
        let ts = window_term_failures(call.order_by@);
        let x0 = error_of(bound_exprs(args));
        let x1 = first_error(x0, error_of(term_keys(call.order_by@)));
        first_of_both(bound_failures(args), ts, x0, error_of(term_keys(call.order_by@)));
        first_of_both(bound_failures(args) + ts, seq![f], x1, f);
        let x2 = first_error(x1, f);
        first_of_both(bound_failures(args) + ts + seq![f], seq![g], x2, g);
    }
}

/// A name that assigns no column is reported by what it names: a generated column by that column, a
/// name of the rowid of a table whose rowid no column is by that name, and any other name as one of
/// no column.
pub proof fn a_name_that_assigns_nothing_is_reported(td: TableDef, name: Seq<char>, i: int)
    ensures
        0 <= i < td.columns@.len() && fold(td.columns@[i].name@) == fold(name) && (forall|j: int|
            0 <= j < i ==> fold((#[trigger] td.columns@[j]).name@) != fold(name))
            && td.columns@[i].generated is Some ==> target_column(td, name) == Err::<
            usize,
            Seq<char>,
        >("cannot UPDATE generated column \""@ + td.columns@[i].name@ + "\""@),
        (forall|j: int|
            0 <= j < td.columns@.len() ==> fold((#[trigger] td.columns@[j]).name@) != fold(name))
            && td.rowid_alias is None ==> target_column(td, name) == Err::<usize, Seq<char>>(
            if fold(name) == fold("rowid"@) || fold(name) == fold("_rowid_"@) || fold(name) == fold(
                "oid"@,
            ) {
                "UPDATE with an explicit rowid target ("@ + name
                    + ") on a table with no INTEGER PRIMARY KEY is not yet supported"@
            } else {
                "no such column: "@ + name
            },
        ),
{
    let p = |k: int| same_name(td.columns@[k].name@, name);
    lemma_least_from(p, 0, td.columns@.len() as int);
    match column_named(td.columns@, name) {
        Some(k) => {
            assert(p(k));
            assert(fold(td.columns@[k].name@) == fold(name));
            if 0 <= i < td.columns@.len() && fold(td.columns@[i].name@) == fold(name) {
                assert(p(i));
            }
        },
        None => {
            if 0 <= i < td.columns@.len() {
                assert(!p(i));
            }
        },
    }
}

} // verus!
