//! `SET` lists: which columns an `UPDATE` assigns, and what it assigns to them.

#[allow(unused_imports)]
use vstd::prelude::*;
use vstd::string::StringExecFns;
use crate::catalog::{column_named, TableDef};
use crate::compile::subquery::{
    compile_columnlist_subquery, compile_value_subquery, width_message, CompiledSubquery,
};
use crate::error::Error;
use crate::expr::{Bound, EvalExpr};
use crate::plan::SubPlan;
use crate::plan_ctx::{CtxView, PlanCtx};
use crate::search::lemma_least_from;
use crate::text::{decimal, eq_ignore_ascii_case, push_decimal, same_name};

verus! {

/// What a column list is assigned: a row value, a subquery, or a single value.
#[derive(Debug)]
pub enum SetValue {
    Row(Vec<Bound>),
    Subquery(CompiledSubquery),
    Scalar(Bound),
}

/// One assignment of a `SET` list.
#[allow(inconsistent_fields)]
#[derive(Debug)]
pub enum SetClause {
    Column { name: String, value: Bound },
    Columns { names: Vec<String>, value: SetValue },
}

/// Whether a name is one of the names of the rowid.
pub open spec fn names_rowid(name: Seq<char>) -> bool {
    same_name(name, "rowid"@) || same_name(name, "_rowid_"@) || same_name(name, "oid"@)
}

/// Whether a name is one of the names of the rowid.
pub fn is_rowid_keyword(name: &str) -> (r: bool)
    ensures
        r == names_rowid(name@),
{
    eq_ignore_ascii_case(name, "rowid") || eq_ignore_ascii_case(name, "_rowid_")
        || eq_ignore_ascii_case(name, "oid")
}

pub open spec fn generated_message(column: Seq<char>) -> Seq<char> {
    "cannot UPDATE generated column \""@ + column + "\""@
}

pub open spec fn rowid_target_message(name: Seq<char>) -> Seq<char> {
    "UPDATE with an explicit rowid target ("@ + name
        + ") on a table with no INTEGER PRIMARY KEY is not yet supported"@
}

pub open spec fn no_column_message(name: Seq<char>) -> Seq<char> {
    "no such column: "@ + name
}

/// The column that a name assigns. A column of the table comes before a name of the rowid,
/// which assigns the column that is an alias of it. A generated column cannot be assigned.
pub open spec fn target_column(td: TableDef, name: Seq<char>) -> Result<usize, Seq<char>> {
    match column_named(td.columns@, name) {
        Some(i) => if td.columns@[i].generated is Some {
            Err(generated_message(td.columns@[i].name@))
        } else {
            Ok(i as usize)
        },
        None => if names_rowid(name) {
            match td.rowid_alias {
                Some(i) => Ok(i),
                None => Err(rowid_target_message(name)),
            }
        } else {
            Err(no_column_message(name))
        },
    }
}

/// The column that a name assigns.
pub fn column_index(td: &TableDef, name: &str) -> (r: Result<usize, Error>)
    ensures
        match (r, target_column(*td, name@)) {
            (Ok(i), Ok(k)) => i == k,
            (Err(e), Err(text)) => e.text() == text,
            _ => false,
        },
{
    match td.column_position(name) {
        Some(i) => {
            if td.columns[i].generated.is_some() {
                let mut s: String = String::from_str("cannot UPDATE generated column \"");
                s.append(td.columns[i].name.as_str());
                s.append("\"");
                return Err(Error::Sql(s));
            }
            Ok(i)
        },
        None => {
            if is_rowid_keyword(name) {
                return match td.rowid_alias {
                    Some(i) => Ok(i),
                    None => {
                        let mut s: String = String::from_str(
                            "UPDATE with an explicit rowid target (",
                        );
                        s.append(name);
                        s.append(
                            ") on a table with no INTEGER PRIMARY KEY is not yet supported",
                        );
                        Err(Error::Sql(s))
                    },
                };
            }
            let mut s: String = String::from_str("no such column: ");
            s.append(name);
            Err(Error::Sql(s))
        },
    }
}

pub open spec fn size_message(columns: nat, values: nat) -> Seq<char> {
    decimal(columns) + " columns assigned "@ + decimal(values) + " values"@
}

fn size_mismatch(columns: usize, values: usize) -> (r: Error)
    ensures
        r.text() == size_message(columns as nat, values as nat),
{
    let mut s: String = String::new();
    push_decimal(&mut s, columns);
    s.append(" columns assigned ");
    push_decimal(&mut s, values);
    s.append(" values");
    proof {
        assert(Seq::<char>::empty() + decimal(columns as nat) =~= decimal(columns as nat));
    }
    Error::Sql(s)
}

/// The assignment of a value to the column of a name.
pub open spec fn assignment(td: TableDef, name: Seq<char>, value: Bound) -> Result<
    (usize, EvalExpr),
    Seq<char>,
> {
    match (target_column(td, name), value) {
        (Err(text), _) => Err(text),
        (Ok(_), Err(e)) => Err(e.text()),
        (Ok(i), Ok(e)) => Ok((i, e)),
    }
}

/// The assignments of a row value to a list of as many names, in order.
pub open spec fn row_assignments(td: TableDef, names: Seq<String>, row: Seq<Bound>) -> Result<
    Seq<(usize, EvalExpr)>,
    Seq<char>,
>
    decreases names.len(),
{
    if names.len() == 0 || row.len() == 0 {
        Ok(seq![])
    } else {
        match row_assignments(td, names.drop_last(), row.drop_last()) {
            Err(text) => Err(text),
            Ok(before) => match assignment(td, names.last()@, row.last()) {
                Err(text) => Err(text),
                Ok(a) => Ok(before.push(a)),
            },
        }
    }
}

/// The assignments of the columns of subquery `id` to a list of names, in order.
pub open spec fn subquery_assignments(td: TableDef, names: Seq<String>, id: usize) -> Result<
    Seq<(usize, EvalExpr)>,
    Seq<char>,
>
    decreases names.len(),
{
    if names.len() == 0 {
        Ok(seq![])
    } else {
        match subquery_assignments(td, names.drop_last(), id) {
            Err(text) => Err(text),
            Ok(before) => match target_column(td, names.last()@) {
                Err(text) => Err(text),
                Ok(i) => Ok(
                    before.push(
                        (
                            i,
                            EvalExpr::ScalarSubqueryColumn {
                                subquery: id,
                                column: (names.len() - 1) as usize,
                            },
                        ),
                    ),
                ),
            },
        }
    }
}

/// What an assignment, or a list of them, comes to: the statement's subqueries after it, and
/// the columns and values, or why there are none.
pub struct Assigned {
    pub subqueries: Seq<SubPlan>,
    pub outcome: Result<Seq<(usize, EvalExpr)>, Seq<char>>,
}

/// What one assignment comes to.
///
/// A list of names takes a row value of as many values, or the columns of a subquery of as
/// many columns. A list of one name takes a single value.
pub open spec fn clause_assigned(td: TableDef, c: SetClause, subqueries: Seq<SubPlan>) -> Assigned {
    match c {
        SetClause::Column { name, value } => Assigned {
            subqueries,
            outcome: match assignment(td, name@, value) {
                Ok(a) => Ok(seq![a]),
                Err(text) => Err(text),
            },
        },
        SetClause::Columns { names, value } => match value {
            SetValue::Row(row) => Assigned {
                subqueries,
                outcome: if row@.len() == names@.len() {
                    row_assignments(td, names@, row@)
                } else {
                    Err(size_message(names@.len(), row@.len()))
                },
            },
            SetValue::Scalar(value) => Assigned {
                subqueries,
                outcome: if names@.len() == 1 {
                    match assignment(td, names@[0]@, value) {
                        Ok(a) => Ok(seq![a]),
                        Err(text) => Err(text),
                    }
                } else {
                    Err(size_message(names@.len(), 1))
                },
            },
            SetValue::Subquery(compiled) => if names@.len() == 1 {
                one_name_assigned(td, names@[0]@, compiled, subqueries)
            } else {
                match compiled {
                    Err(e) => Assigned { subqueries, outcome: Err(e.text()) },
                    Ok((sub, columns)) => Assigned {
                        subqueries: subqueries.push(sub),
                        outcome: if columns@.len() != names@.len() {
                            Err(size_message(names@.len(), columns@.len()))
                        } else {
                            subquery_assignments(td, names@, subqueries.len() as usize)
                        },
                    },
                }
            },
        },
    }
}

/// What the assignment of a subquery to a list of one name comes to: the subquery stands for
/// one value.
pub open spec fn one_name_assigned(
    td: TableDef,
    name: Seq<char>,
    compiled: CompiledSubquery,
    subqueries: Seq<SubPlan>,
) -> Assigned {
    match (target_column(td, name), compiled) {
        (Err(text), _) => Assigned { subqueries, outcome: Err(text) },
        (Ok(_), Err(e)) => Assigned { subqueries, outcome: Err(e.text()) },
        (Ok(i), Ok((sub, columns))) => if columns@.len() != 1 {
            Assigned { subqueries, outcome: Err(width_message(columns@.len(), 1)) }
        } else {
            Assigned {
                subqueries: subqueries.push(sub),
                outcome: Ok(
                    seq![(i, EvalExpr::ScalarSubquery(subqueries.len() as usize))],
                ),
            }
        },
    }
}

/// What a `SET` list comes to: the assignments in the order in which they are written, a
/// column that is assigned twice with both. The first that fails ends it.
pub open spec fn set_assigned(td: TableDef, set: Seq<SetClause>, subqueries: Seq<SubPlan>) -> Assigned
    decreases set.len(),
{
    if set.len() == 0 {
        Assigned { subqueries, outcome: Ok(seq![]) }
    } else {
        let before = set_assigned(td, set.drop_last(), subqueries);
        match before.outcome {
            Err(_) => before,
            Ok(done) => {
                let next = clause_assigned(td, set.last(), before.subqueries);
                Assigned {
                    subqueries: next.subqueries,
                    outcome: match next.outcome {
                        Err(text) => Err(text),
                        Ok(more) => Ok(done + more),
                    },
                }
            },
        }
    }
}

/// Whether the result and the state after it are what they should be.
pub open spec fn has_assigned(
    r: Result<Vec<(usize, EvalExpr)>, Error>,
    before: CtxView,
    after: CtxView,
    want: Assigned,
) -> bool {
    &&& after == (CtxView { subqueries: want.subqueries, ..before })
    &&& match (r, want.outcome) {
        (Ok(v), Ok(s)) => v@ == s,
        (Err(e), Err(text)) => e.text() == text,
        _ => false,
    }
}

proof fn lemma_row_prefix(td: TableDef, names: Seq<String>, row: Seq<Bound>, k: int)
    requires
        0 <= k <= names.len(),
        names.len() == row.len(),
        row_assignments(td, names.subrange(0, k), row.subrange(0, k)) is Err,
    ensures
        row_assignments(td, names, row) == row_assignments(
            td,
            names.subrange(0, k),
            row.subrange(0, k),
        ),
    decreases names.len() - k,
{
    if k == names.len() {
        assert(names.subrange(0, k) =~= names);
        assert(row.subrange(0, k) =~= row);
    } else {
        assert(names.subrange(0, k + 1).drop_last() =~= names.subrange(0, k));
        assert(row.subrange(0, k + 1).drop_last() =~= row.subrange(0, k));
        lemma_row_prefix(td, names, row, k + 1);
    }
}

proof fn lemma_subquery_prefix(td: TableDef, names: Seq<String>, id: usize, k: int)
    requires
        0 <= k <= names.len(),
        subquery_assignments(td, names.subrange(0, k), id) is Err,
    ensures
        subquery_assignments(td, names, id) == subquery_assignments(td, names.subrange(0, k), id),
    decreases names.len() - k,
{
    if k == names.len() {
        assert(names.subrange(0, k) =~= names);
    } else {
        assert(names.subrange(0, k + 1).drop_last() =~= names.subrange(0, k));
        lemma_subquery_prefix(td, names, id, k + 1);
    }
}

proof fn lemma_set_prefix(td: TableDef, set: Seq<SetClause>, subqueries: Seq<SubPlan>, k: int)
    requires
        0 <= k <= set.len(),
        set_assigned(td, set.subrange(0, k), subqueries).outcome is Err,
    ensures
        set_assigned(td, set, subqueries) == set_assigned(td, set.subrange(0, k), subqueries),
    decreases set.len() - k,
{
    if k == set.len() {
        assert(set.subrange(0, k) =~= set);
    } else {
        assert(set.subrange(0, k + 1).drop_last() =~= set.subrange(0, k));
        lemma_set_prefix(td, set, subqueries, k + 1);
    }
}

fn assign_one(td: &TableDef, name: &str, value: Bound) -> (r: Result<(usize, EvalExpr), Error>)
    ensures
        match (r, assignment(*td, name@, value)) {
            (Ok(a), Ok(b)) => a == b,
            (Err(e), Err(text)) => e.text() == text,
            _ => false,
        },
{
    let idx: usize = match column_index(td, name) {
        Ok(i) => i,
        Err(e) => {
            return Err(e);
        },
    };
    match value {
        Ok(e) => Ok((idx, e)),
        Err(e) => Err(e),
    }
}

fn assign_row(td: &TableDef, names: &Vec<String>, row: Vec<Bound>) -> (r: Result<
    Vec<(usize, EvalExpr)>,
    Error,
>)
    requires
        row@.len() == names@.len(),
    ensures
        crate::error::agrees(r, row_assignments(*td, names@, row@)),
{
    let ghost all = row@;
    let mut out: Vec<(usize, EvalExpr)> = Vec::new();
    proof {
        assert(names@.subrange(0, 0) =~= seq![]);
    }
    for value in it: row
        invariant
            it.seq() == all,
            all.len() == names@.len(),
            out@.len() == it.index(),
            row_assignments(
                *td,
                names@.subrange(0, it.index() as int),
                all.subrange(0, it.index() as int),
            ) == Ok::<Seq<(usize, EvalExpr)>, Seq<char>>(out@),
    {
        let i: usize = out.len();
        proof {
            let k = it.index() as int;
            assert(names@.subrange(0, k + 1).drop_last() =~= names@.subrange(0, k));
            assert(all.subrange(0, k + 1).drop_last() =~= all.subrange(0, k));
            assert(names@.subrange(0, k + 1).last() == names@[k]);
            assert(all.subrange(0, k + 1).last() == value);
        }
        match assign_one(td, names[i].as_str(), value) {
            Ok(a) => {
                out.push(a);
            },
            Err(e) => {
                proof {
                    lemma_row_prefix(*td, names@, all, it.index() + 1);
                }
                return Err(e);
            },
        }
    }
    proof {
        assert(names@.subrange(0, names@.len() as int) =~= names@);
        assert(all.subrange(0, all.len() as int) =~= all);
    }
    Ok(out)
}

fn assign_subquery(td: &TableDef, names: &Vec<String>, id: usize) -> (r: Result<
    Vec<(usize, EvalExpr)>,
    Error,
>)
    ensures
        crate::error::agrees(r, subquery_assignments(*td, names@, id)),
{
    let mut out: Vec<(usize, EvalExpr)> = Vec::new();
    let mut i: usize = 0;
    proof {
        assert(names@.subrange(0, 0) =~= seq![]);
    }
    while i < names.len()
        invariant
            i <= names.len(),
            subquery_assignments(*td, names@.subrange(0, i as int), id) == Ok::<
                Seq<(usize, EvalExpr)>,
                Seq<char>,
            >(out@),
        decreases names.len() - i,
    {
        proof {
            assert(names@.subrange(0, i + 1).drop_last() =~= names@.subrange(0, i as int));
            assert(names@.subrange(0, i + 1).last() == names@[i as int]);
        }
        match column_index(td, names[i].as_str()) {
            Ok(idx) => {
                out.push((idx, EvalExpr::ScalarSubqueryColumn { subquery: id, column: i }));
            },
            Err(e) => {
                proof {
                    lemma_subquery_prefix(*td, names@, id, i + 1);
                }
                return Err(e);
            },
        }
        i = i + 1;
    }
    proof {
        assert(names@.subrange(0, names@.len() as int) =~= names@);
    }
    Ok(out)
}

fn single(a: (usize, EvalExpr)) -> (r: Vec<(usize, EvalExpr)>)
    ensures
        r@ == seq![a],
{
    let mut out: Vec<(usize, EvalExpr)> = Vec::new();
    out.push(a);
    assert(out@ =~= seq![a]);
    out
}

/// Bind one assignment of a `SET` list. The subquery of a column list is registered here.
pub fn bind_set_clause(ctx: &mut PlanCtx, td: &TableDef, clause: SetClause) -> (r: Result<
    Vec<(usize, EvalExpr)>,
    Error,
>)
    ensures
        has_assigned(
            r,
            old(ctx)@,
            final(ctx)@,
            clause_assigned(*td, clause, old(ctx)@.subqueries),
        ),
        final(ctx).wf() == old(ctx).wf(),
{
    match clause {
        SetClause::Column { name, value } => match assign_one(td, name.as_str(), value) {
            Ok(a) => Ok(single(a)),
            Err(e) => Err(e),
        },
        SetClause::Columns { names, value } => match value {
            SetValue::Row(row) => {
                if row.len() != names.len() {
                    return Err(size_mismatch(names.len(), row.len()));
                }
                assign_row(td, &names, row)
            },
            SetValue::Scalar(value) => {
                if names.len() != 1 {
                    return Err(size_mismatch(names.len(), 1));
                }
                match assign_one(td, names[0].as_str(), value) {
                    Ok(a) => Ok(single(a)),
                    Err(e) => Err(e),
                }
            },
            SetValue::Subquery(compiled) => {
                if names.len() == 1 {
                    let idx: usize = match column_index(td, names[0].as_str()) {
                        Ok(i) => i,
                        Err(e) => {
                            return Err(e);
                        },
                    };
                    return match compile_value_subquery(ctx, compiled) {
                        Ok(id) => Ok(single((idx, EvalExpr::ScalarSubquery(id)))),
                        Err(e) => Err(e),
                    };
                }
                match compile_columnlist_subquery(ctx, compiled) {
                    Ok((id, width)) => {
                        if width != names.len() {
                            return Err(size_mismatch(names.len(), width));
                        }
                        assign_subquery(td, &names, id)
                    },
                    Err(e) => Err(e),
                }
            },
        },
    }
}

/// Bind a `SET` list.
pub fn bind_assignments(ctx: &mut PlanCtx, td: &TableDef, set: Vec<SetClause>) -> (r: Result<
    Vec<(usize, EvalExpr)>,
    Error,
>)
    ensures
        has_assigned(r, old(ctx)@, final(ctx)@, set_assigned(*td, set@, old(ctx)@.subqueries)),
        final(ctx).wf() == old(ctx).wf(),
{
    let ghost all = set@;
    let ghost start = ctx@;
    let mut out: Vec<(usize, EvalExpr)> = Vec::new();
    proof {
        assert(all.subrange(0, 0) =~= seq![]);
    }
    for clause in it: set
        invariant
            it.seq() == all,
            start == old(ctx)@,
            ctx.wf() == old(ctx).wf(),
            ctx@ == (CtxView {
                subqueries: set_assigned(
                    *td,
                    all.subrange(0, it.index() as int),
                    start.subqueries,
                ).subqueries,
                ..start
            }),
            set_assigned(*td, all.subrange(0, it.index() as int), start.subqueries).outcome == Ok::<
                Seq<(usize, EvalExpr)>,
                Seq<char>,
            >(out@),
    {
        proof {
            let next = all.subrange(0, it.index() + 1);
            assert(next.drop_last() =~= all.subrange(0, it.index() as int));
            assert(next.last() == clause);
        }
        match bind_set_clause(ctx, td, clause) {
            Ok(more) => {
                let ghost before = out@;
                let ghost added = more@;
                let mut more: Vec<(usize, EvalExpr)> = more;
                out.append(&mut more);
                assert(out@ == before + added);
            },
            Err(e) => {
                proof {
                    lemma_set_prefix(*td, all, start.subqueries, it.index() + 1);
                }
                return Err(e);
            },
        }
    }
    proof {
        assert(all.subrange(0, all.len() as int) =~= all);
    }
    Ok(out)
}

/// A `SET` list only adds subqueries, whether or not it binds: those that the statement had
/// keep their positions.
pub proof fn a_set_list_keeps_the_subqueries(
    td: TableDef,
    set: Seq<SetClause>,
    subqueries: Seq<SubPlan>,
)
    ensures
        subqueries.len() <= set_assigned(td, set, subqueries).subqueries.len(),
        set_assigned(td, set, subqueries).subqueries.subrange(0, subqueries.len() as int)
            == subqueries,
    decreases set.len(),
{
    if set.len() > 0 {
        a_set_list_keeps_the_subqueries(td, set.drop_last(), subqueries);
        let before = set_assigned(td, set.drop_last(), subqueries).subqueries;
        let after = set_assigned(td, set, subqueries).subqueries;
        assert(after == before || after == before.push(after.last()));
        assert(after.subrange(0, subqueries.len() as int) =~= before.subrange(
            0,
            subqueries.len() as int,
        ));
    }
}

/// Every assigned column is one of the table, where an alias of the rowid is.
pub proof fn assigned_columns_exist(td: TableDef, name: Seq<char>)
    requires
        td.rowid_alias matches Some(i) ==> i < td.columns@.len(),
        td.columns@.len() <= usize::MAX,
    ensures
        target_column(td, name) matches Ok(i) ==> i < td.columns@.len(),
{
    lemma_least_from(
        |i: int| same_name(td.columns@[i].name@, name),
        0,
        td.columns@.len() as int,
    );
}

/// A column that the table has keeps its name: a name of the rowid that is also that of a
/// column assigns the column.
pub proof fn a_column_hides_the_rowid(td: TableDef, name: Seq<char>)
    requires
        column_named(td.columns@, name) is Some,
        td.columns@[column_named(td.columns@, name)->Some_0].generated is None,
    ensures
        target_column(td, name) == Ok::<usize, Seq<char>>(
            column_named(td.columns@, name)->Some_0 as usize,
        ),
{
}

} // verus!
