//! A compiled update changes the rows that its text denotes, in the way it says.

#[allow(unused_imports)]
use vstd::prelude::*;
use crate::access::SeqScan;
use crate::catalog::{column_named, table_at, Catalog, TableDef};
use crate::compile::assignments::{
    clause_assigned, row_assignments, set_assigned, subquery_assignments, target_column, SetClause,
    SetValue,
};
use crate::compile::emit_json::{every_json_scan_is_set, json_settings};
use crate::compile::instead_of::ViewTarget;
use crate::compile::meaning::{keeps, rows_of, Engine, Row};
use crate::compile::query_law::emitting_keeps_the_rows;
use crate::compile::returning::{item_outputs, output_exprs, output_names, outputs, ReturningColumn};
use crate::compile::select::BuiltFrom;
use crate::compile::trigger::{DmlView, TargetKind, TriggerDef};
use crate::compile::trigger_law::{every_declared_trigger_is_performed, fires, performs};
use crate::compile::update::{
    assigned_to, clauses_error, is_compiled_update, is_nested_update, is_update, is_update_node,
    is_update_under, names_json, nested_update_error, of_view, resolution, target_of, update_scan,
    ConflictClause, Target, TargetedUpdate, UpdateClauses, UpdateRows, UpdateStatement,
};
use crate::error::Error;
use crate::expr::{Bound, EvalExpr};
use crate::plan::{OnConflict, PlanNode, SubPlan};
use crate::plan_ctx::CtxView;
use crate::scope::Source;
use crate::search::lemma_least_from;
use crate::text::{fold, same_name};
use crate::types::DbIndex;

verus! {

/// Whether a name assigns column `i`: it is the first column of that name, and not generated; or
/// there is no column of that name, and it is a name of the rowid, which column `i` is too.
pub open spec fn names_target(td: TableDef, name: Seq<char>, i: int) -> bool {
    ||| {
        &&& 0 <= i < td.columns@.len()
        &&& fold(td.columns@[i].name@) == fold(name)
        &&& forall|j: int| 0 <= j < i ==> fold((#[trigger] td.columns@[j]).name@) != fold(name)
        &&& td.columns@[i].generated is None
    }
    ||| {
        &&& forall|j: int|
            0 <= j < td.columns@.len() ==> fold((#[trigger] td.columns@[j]).name@) != fold(name)
        &&& fold(name) == "rowid"@ || fold(name) == "_rowid_"@ || fold(name) == "oid"@
        &&& td.rowid_alias matches Some(alias) && alias == i
    }
}

proof fn rowid_names_are_lower()
    ensures
        fold("rowid"@) == "rowid"@,
        fold("_rowid_"@) == "_rowid_"@,
        fold("oid"@) == "oid"@,
{
    reveal_strlit("rowid");
    reveal_strlit("_rowid_");
    reveal_strlit("oid");
    assert(fold("rowid"@) =~= "rowid"@);
    assert(fold("_rowid_"@) =~= "_rowid_"@);
    assert(fold("oid"@) =~= "oid"@);
}

/// The column that a name is found to assign is the one that it names, and a name that names a
/// column that may be assigned is found.
pub proof fn a_name_assigns_the_column_it_names(td: TableDef, name: Seq<char>, i: usize)
    ensures
        target_column(td, name) == Ok::<usize, Seq<char>>(i) <==> names_target(td, name, i as int),
{
    rowid_names_are_lower();
    let p = |k: int| same_name(td.columns@[k].name@, name);
    lemma_least_from(p, 0, td.columns@.len() as int);
    assert(td.columns@.len() == td.columns.len());
    match column_named(td.columns@, name) {
        Some(k) => {
            assert(p(k));
            assert forall|j: int| 0 <= j < k implies fold((#[trigger] td.columns@[j]).name@) != fold(
                name,
            ) by {
                assert(!p(j));
            }
            assert(fold(td.columns@[k].name@) == fold(name));
            if names_target(td, name, i as int) {
                assert(i == k) by {
                    if i < k {
                        assert(!p(i as int));
                    }
                }
            }
        },
        None => {
            assert forall|j: int| 0 <= j < td.columns@.len() implies fold(
                (#[trigger] td.columns@[j]).name@,
            ) != fold(name) by {
                assert(!p(j));
            }
        },
    }
}

/// The names of an assignment with the value that each is assigned, in order. `id` is the number
/// of its subquery, if it has one: a list of one name takes its value, a longer list its columns.
pub open spec fn clause_pairs(c: SetClause, id: int) -> Seq<(Seq<char>, EvalExpr)> {
    match c {
        SetClause::Column { name, value } => seq![(name@, value->Ok_0)],
        SetClause::Columns { names, value } => Seq::new(
            names@.len(),
            |i: int|
                (
                    names@[i]@,
                    match value {
                        SetValue::Row(row) => row@[i]->Ok_0,
                        SetValue::Scalar(x) => x->Ok_0,
                        SetValue::Subquery(_) => if names@.len() == 1 {
                            EvalExpr::ScalarSubquery(id as usize)
                        } else {
                            EvalExpr::ScalarSubqueryColumn {
                                subquery: id as usize,
                                column: i as usize,
                            }
                        },
                    },
                ),
        ),
    }
}

/// The subqueries that an assignment adds to its statement.
pub open spec fn clause_subplans(c: SetClause) -> Seq<SubPlan> {
    match c {
        SetClause::Columns { value: SetValue::Subquery(Ok((sub, _))), .. } => seq![sub],
        _ => seq![],
    }
}

/// The subqueries that a `SET` list adds to its statement, in order.
pub open spec fn set_subplans(set: Seq<SetClause>) -> Seq<SubPlan>
    decreases set.len(),
{
    if set.len() == 0 {
        seq![]
    } else {
        set_subplans(set.drop_last()) + clause_subplans(set.last())
    }
}

/// The names of a `SET` list with the value that each is assigned, in order. Its subqueries are
/// numbered from `first` on.
pub open spec fn set_pairs(set: Seq<SetClause>, first: int) -> Seq<(Seq<char>, EvalExpr)>
    decreases set.len(),
{
    if set.len() == 0 {
        seq![]
    } else {
        set_pairs(set.drop_last(), first) + clause_pairs(
            set.last(),
            first + set_subplans(set.drop_last()).len(),
        )
    }
}

/// Whether assignments give the columns of the names the values.
pub open spec fn assigns_pairs(
    td: TableDef,
    assigned: Seq<(usize, EvalExpr)>,
    pairs: Seq<(Seq<char>, EvalExpr)>,
) -> bool {
    &&& assigned.len() == pairs.len()
    &&& forall|i: int|
        0 <= i < assigned.len() ==> names_target(td, pairs[i].0, (#[trigger] assigned[i]).0 as int)
            && assigned[i].1 == pairs[i].1
}

proof fn row_pairs(td: TableDef, names: Seq<String>, row: Seq<Bound>, out: Seq<(usize, EvalExpr)>)
    requires
        names.len() == row.len(),
        row_assignments(td, names, row) == Ok::<Seq<(usize, EvalExpr)>, Seq<char>>(out),
    ensures
        out.len() == names.len(),
        forall|i: int|
            0 <= i < out.len() ==> names_target(td, names[i]@, (#[trigger] out[i]).0 as int)
                && row[i] == Ok::<EvalExpr, Error>(out[i].1),
    decreases names.len(),
{
    if names.len() > 0 {
        let before = row_assignments(td, names.drop_last(), row.drop_last())->Ok_0;
        row_pairs(td, names.drop_last(), row.drop_last(), before);
        a_name_assigns_the_column_it_names(td, names.last()@, out.last().0);
        assert forall|i: int| 0 <= i < out.len() implies names_target(
            td,
            names[i]@,
            (#[trigger] out[i]).0 as int,
        ) && row[i] == Ok::<EvalExpr, Error>(out[i].1) by {
            if i < names.len() - 1 {
                assert(out[i] == before[i]);
                assert(names.drop_last()[i] == names[i] && row.drop_last()[i] == row[i]);
            }
        }
    }
}

proof fn subquery_pairs(td: TableDef, names: Seq<String>, id: usize, out: Seq<(usize, EvalExpr)>)
    requires
        subquery_assignments(td, names, id) == Ok::<Seq<(usize, EvalExpr)>, Seq<char>>(out),
    ensures
        out.len() == names.len(),
        forall|i: int|
            0 <= i < out.len() ==> names_target(td, names[i]@, (#[trigger] out[i]).0 as int)
                && out[i].1 == (EvalExpr::ScalarSubqueryColumn { subquery: id, column: i as usize }),
    decreases names.len(),
{
    if names.len() > 0 {
        let before = subquery_assignments(td, names.drop_last(), id)->Ok_0;
        subquery_pairs(td, names.drop_last(), id, before);
        a_name_assigns_the_column_it_names(td, names.last()@, out.last().0);
        assert forall|i: int| 0 <= i < out.len() implies names_target(
            td,
            names[i]@,
            (#[trigger] out[i]).0 as int,
        ) && out[i].1 == (EvalExpr::ScalarSubqueryColumn { subquery: id, column: i as usize }) by {
            if i < names.len() - 1 {
                assert(out[i] == before[i]);
                assert(names.drop_last()[i] == names[i]);
            }
        }
    }
}

/// An assignment gives the columns that it names the values that it says, and adds its subquery.
pub proof fn a_clause_assigns_what_it_says(td: TableDef, c: SetClause, subqueries: Seq<SubPlan>)
    ensures
        clause_assigned(td, c, subqueries).outcome matches Ok(out) ==> {
            &&& assigns_pairs(td, out, clause_pairs(c, subqueries.len() as int))
            &&& clause_assigned(td, c, subqueries).subqueries == subqueries + clause_subplans(c)
        },
{
    let after = clause_assigned(td, c, subqueries);
    if let Ok(out) = after.outcome {
        let pairs = clause_pairs(c, subqueries.len() as int);
        assert(subqueries + Seq::<SubPlan>::empty() =~= subqueries);
        match c {
            SetClause::Column { name, value } => {
                a_name_assigns_the_column_it_names(td, name@, out[0].0);
            },
            SetClause::Columns { names, value } => {
                match value {
                    SetValue::Row(row) => {
                        row_pairs(td, names@, row@, out);
                        assert forall|i: int| 0 <= i < out.len() implies names_target(
                            td,
                            pairs[i].0,
                            (#[trigger] out[i]).0 as int,
                        ) && out[i].1 == pairs[i].1 by {
                            assert(row@[i] == Ok::<EvalExpr, Error>(out[i].1));
                        }
                    },
                    SetValue::Scalar(x) => {
                        a_name_assigns_the_column_it_names(td, names@[0]@, out[0].0);
                    },
                    SetValue::Subquery(compiled) => {
                        if names@.len() == 1 {
                            a_name_assigns_the_column_it_names(td, names@[0]@, out[0].0);
                        } else {
                            subquery_pairs(td, names@, subqueries.len() as usize, out);
                        }
                        assert(after.subqueries =~= subqueries + clause_subplans(c));
                    },
                }
            },
        }
    }
}

/// A `SET` list gives the columns that it names the values that it says, in the order in which they
/// are written, and adds its subqueries in that order.
pub proof fn a_set_list_assigns_what_it_says(
    td: TableDef,
    set: Seq<SetClause>,
    subqueries: Seq<SubPlan>,
)
    ensures
        set_assigned(td, set, subqueries).outcome matches Ok(out) ==> {
            &&& assigns_pairs(td, out, set_pairs(set, subqueries.len() as int))
            &&& set_assigned(td, set, subqueries).subqueries == subqueries + set_subplans(set)
        },
    decreases set.len(),
{
    if set.len() == 0 {
        assert(subqueries + Seq::<SubPlan>::empty() =~= subqueries);
    } else {
        let init = set.drop_last();
        let first = subqueries.len() as int;
        a_set_list_assigns_what_it_says(td, init, subqueries);
        let before = set_assigned(td, init, subqueries);
        if let Ok(done) = before.outcome {
            a_clause_assigns_what_it_says(td, set.last(), before.subqueries);
            if let Ok(out) = set_assigned(td, set, subqueries).outcome {
                let more = clause_assigned(td, set.last(), before.subqueries).outcome->Ok_0;
                let pairs = set_pairs(set, first);
                assert(before.subqueries.len() == first + set_subplans(init).len());
                assert forall|i: int| 0 <= i < out.len() implies names_target(
                    td,
                    pairs[i].0,
                    (#[trigger] out[i]).0 as int,
                ) && out[i].1 == pairs[i].1 by {
                    if i < done.len() {
                        assert(out[i] == done[i]);
                        assert(pairs[i] == set_pairs(init, first)[i]);
                    } else {
                        assert(out[i] == more[i - done.len()]);
                        assert(pairs[i] == clause_pairs(
                            set.last(),
                            first + set_subplans(init).len(),
                        )[i - done.len()]);
                    }
                }
                assert(set_assigned(td, set, subqueries).subqueries =~= subqueries + set_subplans(
                    set,
                ));
            }
        }
    }
}

/// The rows that the text of an update denotes: those that its access path or its `FROM` finds and
/// what is left of its `WHERE` keeps; behind an outer row, those of the whole table that its whole
/// `WHERE` keeps.
pub open spec fn updated_rows(
    e: Engine,
    td: TableDef,
    db: DbIndex,
    c: UpdateClauses<'_>,
    outer: usize,
) -> Seq<Row> {
    let whole = (e.scan)(
        PlanNode::SeqScan(
            SeqScan { table: td.name, db, column_count: td.columns@.len() as usize },
        ),
    );
    match c.rows {
        UpdateRows::Target { access } => if outer == 0 {
            found_rows(e, access)
        } else {
            match c.where_clause {
                Some(p) => whole.filter(|r: Row| keeps(e, p->Ok_0, r)),
                None => whole,
            }
        },
        UpdateRows::From { built, .. } => found_rows(e, built),
    }
}

/// The rows that a row source finds and the predicate left for above it keeps.
pub open spec fn found_rows(e: Engine, built: BuiltFrom) -> Seq<Row> {
    let (node, rest) = built->Ok_0;
    match rest {
        Some(p) => rows_of(e, node).filter(|r: Row| keeps(e, p, r)),
        None => rows_of(e, node),
    }
}

/// The rows that the scan of an update emits are exactly those that the access path finds and the
/// left-over predicate keeps, whatever the access path is.
pub proof fn an_update_scans_the_rows_it_denotes(
    e: Engine,
    before: CtxView,
    node: PlanNode,
    names: Seq<String>,
    td: TableDef,
    db: DbIndex,
    stmt: UpdateStatement<'_>,
    parent: Option<usize>,
)
    requires
        is_update_node(before, node, names, td, db, stmt, parent),
        stmt.clauses.where_clause matches Some(p) ==> p is Ok,
    ensures
        rows_of(e, *node->Update_0.scan) == updated_rows(
            e,
            td,
            db,
            stmt.clauses,
            match parent {
                Some(width) => width,
                None => 0,
            },
        ),
{
    let c = stmt.clauses;
    let scan = update_scan(td, db, c, parent)->Ok_0;
    emitting_keeps_the_rows(e, scan, names_json(c.rows));
    reveal_with_fuel(rows_of, 2);
}

/// Where the access path of an update finds, with the predicate left over, the rows of the table
/// that the whole `WHERE` keeps, every row that is updated satisfies the whole `WHERE`, and every
/// row of the table that satisfies it is updated.
pub proof fn updated_rows_satisfy_the_whole_where(
    e: Engine,
    before: CtxView,
    node: PlanNode,
    names: Seq<String>,
    td: TableDef,
    db: DbIndex,
    stmt: UpdateStatement<'_>,
    parent: Option<usize>,
    predicate: EvalExpr,
    access: BuiltFrom,
    r: Row,
)
    requires
        is_update_node(before, node, names, td, db, stmt, parent),
        stmt.clauses.rows == (UpdateRows::Target { access }),
        stmt.clauses.where_clause == Some(Ok::<EvalExpr, Error>(predicate)),
        ({
            let table = PlanNode::SeqScan(
                SeqScan { table: td.name, db, column_count: td.columns@.len() as usize },
            );
            let (path, rest) = access->Ok_0;
            access is Ok ==> (rows_of(e, path).contains(r) && (rest matches Some(p) ==> keeps(e, p, r))
                <==> rows_of(e, table).contains(r) && keeps(e, predicate, r))
        }),
    ensures
        ({
            let table = PlanNode::SeqScan(
                SeqScan { table: td.name, db, column_count: td.columns@.len() as usize },
            );
            rows_of(e, *node->Update_0.scan).contains(r) <==> rows_of(e, table).contains(r)
                && keeps(e, predicate, r)
        }),
{
    an_update_scans_the_rows_it_denotes(e, before, node, names, td, db, stmt, parent);
    let table = PlanNode::SeqScan(
        SeqScan { table: td.name, db, column_count: td.columns@.len() as usize },
    );
    let whole = rows_of(e, table);
    lemma_filtered_rows(whole, |r: Row| keeps(e, predicate, r), r);
    if let Ok((path, rest)) = access {
        if let Some(p) = rest {
            lemma_filtered_rows(rows_of(e, path), |r: Row| keeps(e, p, r), r);
        }
    }
}

proof fn lemma_filtered_rows(rows: Seq<Row>, keep: spec_fn(Row) -> bool, r: Row)
    ensures
        rows.filter(keep).contains(r) <==> rows.contains(r) && keep(r),
    decreases rows.len(),
{
    reveal(Seq::filter);
    if rows.len() > 0 {
        let init = rows.drop_last();
        lemma_filtered_rows(init, keep, r);
        assert(rows =~= init.push(rows.last()));
        if rows.contains(r) {
            let i = choose|i: int| 0 <= i < rows.len() && rows[i] == r;
            if i < init.len() {
                assert(init[i] == r);
            }
        }
        if init.contains(r) {
            let i = choose|i: int| 0 <= i < init.len() && init[i] == r;
            assert(rows[i] == r);
        }
        let kept = init.filter(keep);
        if keep(rows.last()) {
            let all = rows.filter(keep);
            assert(all == kept.push(rows.last()));
            if kept.contains(r) {
                let i = choose|i: int| 0 <= i < kept.len() && kept[i] == r;
                assert(all[i] == r);
            }
            assert(all[kept.len() as int] == rows.last());
            assert(rows[rows.len() - 1] == rows.last());
            if all.contains(r) {
                let i = choose|i: int| 0 <= i < all.len() && all[i] == r;
                if i < kept.len() {
                    assert(kept[i] == r);
                }
            }
        }
    }
}

/// What a statement does about a row that would break a constraint.
pub struct ConflictBehaviour {
    /// Whether the statement goes on with its other rows.
    pub goes_on: bool,
    /// Whether the row takes the place of those that it conflicts with.
    pub displaces: bool,
    /// Whether the changes that the statement made before it stay.
    pub keeps_changes: bool,
    /// Whether the transaction of the statement goes on.
    pub keeps_transaction: bool,
}

/// What a written conflict clause asks for. A statement that writes none fails as a whole and
/// leaves its transaction alone.
pub open spec fn written_behaviour(c: Option<ConflictClause>) -> ConflictBehaviour {
    ConflictBehaviour {
        goes_on: c matches Some(x) && (x is Ignore || x is Replace),
        displaces: c matches Some(x) && x is Replace,
        keeps_changes: c matches Some(x) && (x is Ignore || x is Replace || x is Fail),
        keeps_transaction: c matches Some(x) ==> !(x is Rollback),
    }
}

/// What the plan of a statement does about a conflict.
pub open spec fn planned_behaviour(c: OnConflict) -> ConflictBehaviour {
    match c {
        OnConflict::Abort => ConflictBehaviour {
            goes_on: false,
            displaces: false,
            keeps_changes: false,
            keeps_transaction: true,
        },
        OnConflict::Rollback => ConflictBehaviour {
            goes_on: false,
            displaces: false,
            keeps_changes: false,
            keeps_transaction: false,
        },
        OnConflict::Fail => ConflictBehaviour {
            goes_on: false,
            displaces: false,
            keeps_changes: true,
            keeps_transaction: true,
        },
        OnConflict::Ignore => ConflictBehaviour {
            goes_on: true,
            displaces: false,
            keeps_changes: true,
            keeps_transaction: true,
        },
        OnConflict::Replace => ConflictBehaviour {
            goes_on: true,
            displaces: true,
            keeps_changes: true,
            keeps_transaction: true,
        },
    }
}

/// A plan does about a conflict what the statement asks for.
pub proof fn a_conflict_is_met_as_it_is_written(c: Option<ConflictClause>)
    ensures
        planned_behaviour(resolution(c)) == written_behaviour(c),
{
}

/// The output columns of an item of a `RETURNING` list: its expression under its alias or else its
/// text, or the registers that a star stands for under their names.
pub open spec fn item_columns(c: ReturningColumn) -> Seq<(EvalExpr, Seq<char>)> {
    match c {
        ReturningColumn::Expr { expr, alias, source_text } => seq![
            (
                expr->Ok_0,
                if alias is Some {
                    alias->Some_0@
                } else {
                    source_text@
                },
            ),
        ],
        ReturningColumn::Star(cols) | ReturningColumn::TableStar(cols) => Seq::new(
            cols->Ok_0@.len(),
            |i: int| (EvalExpr::Column(cols->Ok_0@[i].0), cols->Ok_0@[i].1@),
        ),
    }
}

/// The output columns of a `RETURNING` list, from the left.
pub open spec fn returned_columns(list: Seq<ReturningColumn>) -> Seq<(EvalExpr, Seq<char>)>
    decreases list.len(),
{
    if list.len() == 0 {
        seq![]
    } else {
        item_columns(list[0]) + returned_columns(list.drop_first())
    }
}

/// Whether expressions and names are those of output columns.
pub open spec fn shows(
    exprs: Seq<EvalExpr>,
    names: Seq<String>,
    columns: Seq<(EvalExpr, Seq<char>)>,
) -> bool {
    &&& exprs.len() == columns.len()
    &&& names.len() == columns.len()
    &&& forall|i: int|
        0 <= i < columns.len() ==> exprs[i] == (#[trigger] columns[i]).0 && names[i]@ == columns[i].1
}

proof fn lemma_returned_push(list: Seq<ReturningColumn>, c: ReturningColumn)
    ensures
        returned_columns(list.push(c)) == returned_columns(list) + item_columns(c),
    decreases list.len(),
{
    if list.len() == 0 {
        reveal_with_fuel(returned_columns, 2);
        assert(list.push(c).drop_first() =~= list);
        assert(list.push(c)[0] == c);
        assert(returned_columns(list.push(c)) =~= item_columns(c));
        assert(returned_columns(list) + item_columns(c) =~= item_columns(c));
    } else {
        assert(list.push(c).drop_first() =~= list.drop_first().push(c));
        lemma_returned_push(list.drop_first(), c);
        assert(returned_columns(list.push(c)) =~= returned_columns(list) + item_columns(c));
    }
}

/// A `RETURNING` list returns its columns in the order in which they are written, each under its
/// name.
pub proof fn a_returning_list_shows_its_columns(
    list: Seq<ReturningColumn>,
    outs: Seq<(EvalExpr, String)>,
)
    requires
        outputs(list) == Ok::<Seq<(EvalExpr, String)>, Seq<char>>(outs),
    ensures
        shows(output_exprs(outs), output_names(outs), returned_columns(list)),
    decreases list.len(),
{
    if list.len() > 0 {
        let init = list.drop_last();
        let before = outputs(init)->Ok_0;
        let more = item_outputs(list.last())->Ok_0;
        a_returning_list_shows_its_columns(init, before);
        assert(init.push(list.last()) =~= list);
        lemma_returned_push(init, list.last());
        let columns = returned_columns(list);
        let last = item_columns(list.last());
        assert(more.len() == last.len());
        assert forall|i: int| 0 <= i < columns.len() implies output_exprs(outs)[i] == (
        #[trigger] columns[i]).0 && output_names(outs)[i]@ == columns[i].1 by {
            if i < before.len() {
                assert(columns[i] == returned_columns(init)[i]);
                assert(output_exprs(before)[i] == before[i].0);
                assert(output_names(before)[i] == before[i].1);
            } else {
                assert(columns[i] == last[i - before.len()]);
                assert(outs[i] == more[i - before.len()]);
            }
        }
    }
}

/// An update is one of the table it names, in its namespace: it assigns what its `SET` list says,
/// returns what its `RETURNING` list says, meets conflicts as it says, gives every value the
/// affinity of its column, and fills the hidden columns of its JSON tables where they are named.
pub proof fn an_update_does_what_it_says(
    before: CtxView,
    node: PlanNode,
    names: Seq<String>,
    td: TableDef,
    db: DbIndex,
    stmt: UpdateStatement<'_>,
    parent: Option<usize>,
    i: int,
)
    requires
        is_update_node(before, node, names, td, db, stmt, parent),
        set_assigned(td, stmt.clauses.set@, before.subqueries).outcome is Ok,
    ensures
        ({
            let u = node->Update_0;
            let c = stmt.clauses;
            &&& u.table@ == td.name@
            &&& u.db == db
            &&& u.column_count == td.columns@.len()
            &&& assigns_pairs(td, u.assignments@, set_pairs(c.set@, before.subqueries.len() as int))
            &&& shows(u.returning@, names, returned_columns(c.returning@))
            &&& planned_behaviour(u.on_conflict) == written_behaviour(stmt.or_conflict)
            &&& u.column_affinities@.len() == td.columns@.len()
            &&& 0 <= i < td.columns@.len() ==> u.column_affinities@[i] == td.columns@[i].affinity
            &&& stmt.upkeep.checks matches Ok(checks) && checks@ == u.checks@
            &&& stmt.upkeep.index_key_exprs matches Ok(keys) && keys@ == u.index_key_exprs@
            &&& stmt.upkeep.index_partial_predicates matches Ok(predicates) && predicates@
                == u.index_partial_predicates@
            &&& c.rows is Target && 0 <= i < json_settings(*u.scan).len() ==> !json_settings(
                *u.scan,
            )[i]
            &&& c.rows is From && 0 <= i < json_settings(*u.scan).len() ==> (json_settings(
                *u.scan,
            )[i] <==> c.rows->resolved is Ok && exists|k: int|
                #![trigger c.rows->resolved->Ok_0@[k]]
                0 <= k < c.rows->resolved->Ok_0@.len() && (
                c.rows->resolved->Ok_0@[k] matches Source::Derived { json_referenced, .. }
                    && json_referenced))
        }),
{
    let u = node->Update_0;
    let c = stmt.clauses;
    a_set_list_assigns_what_it_says(td, c.set@, before.subqueries);
    a_returning_list_shows_its_columns(c.returning@, outputs(c.returning@)->Ok_0);
    let scan = update_scan(td, db, c, parent)->Ok_0;
    let named = names_json(c.rows);
    every_json_scan_is_set(scan, named, true);
    if let UpdateRows::From { resolved: Ok(sources), .. } = c.rows {
        if named {
            let k = choose|k: int| 0 <= k < sources@.len() && (#[trigger] sources@[k]).reads_json();
            assert(c.rows->resolved->Ok_0@[k] is Derived);
        }
        if exists|k: int|
            #![trigger c.rows->resolved->Ok_0@[k]]
            0 <= k < c.rows->resolved->Ok_0@.len() && (
            c.rows->resolved->Ok_0@[k] matches Source::Derived { json_referenced, .. }
                && json_referenced) {
            let k = choose|k: int|
                #![trigger c.rows->resolved->Ok_0@[k]]
                0 <= k < c.rows->resolved->Ok_0@.len() && (
                c.rows->resolved->Ok_0@[k] matches Source::Derived { json_referenced, .. }
                    && json_referenced);
            assert(sources@[k].reads_json());
        }
    }
}

/// A top-level update of a table fires the triggers declared for an update of the columns that it
/// assigns.
pub proof fn an_update_fires_the_triggers_of_its_columns(
    catalog: Catalog,
    before: CtxView,
    node: PlanNode,
    names: Seq<String>,
    td: TableDef,
    db: DbIndex,
    stmt: UpdateStatement<'_>,
)
    requires
        is_update(catalog, before, node, names, td, db, stmt),
    ensures
        ({
            let u = node->Update_0;
            let columns = u.assignments@.map_values(|a: (usize, EvalExpr)| a.0);
            let fired = stmt.triggers@.filter(
                |t: TriggerDef<'_>|
                    fires(t, TargetKind::Table, db, td.shape(), DmlView::Update(columns)),
            );
            &&& u.triggers@.len() == fired.len()
            &&& forall|i: int|
                0 <= i < fired.len() ==> performs(
                    catalog,
                    #[trigger] u.triggers@[i],
                    fired[i],
                    td.shape(),
                )
        }),
{
    let u = node->Update_0;
    let columns = u.assignments@.map_values(|a: (usize, EvalExpr)| a.0);
    assert(columns =~= assigned_to(u.assignments@));
    every_declared_trigger_is_performed(
        catalog,
        u.triggers@,
        stmt.triggers@,
        TargetKind::Table,
        db,
        td.shape(),
        DmlView::Update(columns),
    );
}

/// The target of an update is a table of its namespace of the name that it says, and a view only
/// where there is no such table.
pub proof fn an_update_is_one_of_the_named_target(
    catalog: Catalog,
    db: Option<DbIndex>,
    u: TargetedUpdate<'_>,
)
    ensures
        match target_of(catalog, db, u) {
            Target::Table(td, at) => db == Some(at) && td.db == at && fold(td.name@) == fold(
                u.name.name@,
            ) && catalog.tables@.contains(td),
            Target::View(v) => db is Some && u.view == Some(v) && forall|k: int|
                0 <= k < catalog.tables@.len() ==> !((#[trigger] catalog.tables@[k]).db
                    == db->Some_0 && fold(catalog.tables@[k].name@) == fold(u.name.name@)),
            Target::Nothing => db is Some ==> u.view is None && forall|k: int|
                0 <= k < catalog.tables@.len() ==> !((#[trigger] catalog.tables@[k]).db
                    == db->Some_0 && fold(catalog.tables@[k].name@) == fold(u.name.name@)),
        },
{
    if let Some(at) = db {
        let p = |k: int|
            catalog.tables@[k].db == at && same_name(catalog.tables@[k].name@, u.name.name@);
        lemma_least_from(p, 0, catalog.tables@.len() as int);
        match table_at(catalog.tables@, at, u.name.name@) {
            Some(k) => {
                assert(p(k));
            },
            None => {
                assert forall|k: int| 0 <= k < catalog.tables@.len() implies !((
                #[trigger] catalog.tables@[k]).db == at && fold(catalog.tables@[k].name@) == fold(
                    u.name.name@,
                )) by {
                    assert(!p(k));
                }
            },
        }
    }
}

/// An update that is the action of a trigger is one of a table, fires no triggers itself, and adds
/// the subqueries of its `SET` list to its statement; its clauses read the outer row.
pub proof fn an_action_fires_no_triggers(
    catalog: Catalog,
    before: CtxView,
    node: PlanNode,
    names: Seq<String>,
    after: CtxView,
    u: TargetedUpdate<'_>,
    outer_width: usize,
) -> (found: (TableDef, DbIndex))
    requires
        is_nested_update(catalog, before, node, names, after, u, outer_width),
        u.stmt.clauses.with is Ok,
        u.stmt.clauses.rows is Target,
        ({
            let db = u.db->Ok_0;
            let td = target_of(catalog, db, u)->Table_0;
            set_assigned(td, u.stmt.clauses.set@, before.subqueries).outcome is Ok
        }),
    ensures
        node->Update_0.triggers@.len() == 0,
        u.db == Ok::<Option<DbIndex>, Error>(Some(found.1)),
        found.0.db == found.1,
        fold(found.0.name@) == fold(u.name.name@),
        is_update_node(before, node, names, found.0, found.1, u.stmt, Some(outer_width)),
        after.subqueries == before.subqueries + set_subplans(u.stmt.clauses.set@),
        after.ctes == before.ctes,
        after.numbering == before.numbering,
{
    let db = u.db->Ok_0;
    an_update_is_one_of_the_named_target(catalog, db, u);
    let td = target_of(catalog, db, u)->Table_0;
    a_set_list_assigns_what_it_says(td, u.stmt.clauses.set@, before.subqueries);
    (td, target_of(catalog, db, u)->Table_1)
}

/// An update of a view is made of the clauses of the statement: its `SET` list, its `WHERE`, its
/// `WITH` and its `RETURNING`, under its alias or else the name of the view; and it says whether
/// the statement has a `FROM`.
pub proof fn an_update_of_a_view_has_its_clauses<'a>(stmt: UpdateStatement<'a>, view: ViewTarget<'a>)
    ensures
        ({
            let made = of_view(stmt, view);
            &&& made.from <==> stmt.clauses.rows is From
            &&& made.with == stmt.clauses.with
            &&& made.set@ == stmt.clauses.set@
            &&& made.where_clause == stmt.clauses.where_clause
            &&& made.returning@ == stmt.clauses.returning@
            &&& made.scan == stmt.view_scan
            &&& stmt.alias is Some ==> made.exposed_name@ == stmt.alias->Some_0@
            &&& stmt.alias is None ==> made.exposed_name@ == view.name@
        }),
{
}

/// An update with an outer row is compiled as the action of a trigger behind that row, and one
/// without as a statement of its own.
pub proof fn an_update_under_a_row_is_an_action(
    r: Result<(PlanNode, Vec<String>), Error>,
    before: CtxView,
    after: CtxView,
    catalog: Catalog,
    u: TargetedUpdate<'_>,
    parent: Option<usize>,
)
    requires
        is_update_under(r, before, after, catalog, u, parent),
    ensures
        parent is None ==> is_compiled_update(r, before, after, catalog, u),
        parent matches Some(width) ==> match r {
            Ok((node, names)) => nested_update_error(catalog, before, u, width) is None
                && is_nested_update(catalog, before, node, names@, after, u, width),
            Err(e) => nested_update_error(catalog, before, u, width) == Some(e.text()),
        },
{
}

/// An update that is the action of a trigger compiles exactly where its namespace is known, its
/// target is a table, and its clauses and the upkeep of the table compile.
pub proof fn an_action_compiles_where_its_parts_do(
    catalog: Catalog,
    before: CtxView,
    u: TargetedUpdate<'_>,
    outer_width: usize,
)
    ensures
        nested_update_error(catalog, before, u, outer_width) is None <==> {
            &&& u.db matches Ok(db)
            &&& target_of(catalog, db, u) matches Target::Table(td, at)
            &&& clauses_error(before, td, at, u.stmt.clauses, Some(outer_width)) is None
            &&& u.stmt.upkeep.checks is Ok
            &&& u.stmt.upkeep.index_key_exprs is Ok
            &&& u.stmt.upkeep.index_partial_predicates is Ok
        },
{
}

} // verus!
