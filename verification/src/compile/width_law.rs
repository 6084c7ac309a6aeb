//! How wide the rows of a plan are, and that they have one value for each name that the plan
//! gives out.

#[allow(unused_imports)]
use vstd::prelude::*;
use crate::catalog::{Catalog, IndexDef};
use crate::compile::emit_json::{emitting, json_named};
use crate::compile::instead_of::is_frame;
use crate::compile::minmax_index::seek_of;
use crate::compile::notes::{is_noted, is_noted_root, marked, PlanNotes};
use crate::compile::select::{
    core_error, core_wf, is_assembled, is_core, is_core_source, is_query, is_select,
    is_values_tail, over, select_width, Compiled, CompiledCore, QueryTail, ResultList, Select,
    SelectBody, SelectCore,
};
use crate::compile::stored::ParsedText;
use crate::compile::subquery::{is_correlated_plan, is_uncorrelated_plan, BoundBody};
use crate::compile::values::{column_name_list, holds_rows, rows_error, texts, values_error};
use crate::compile::view::{expansion_error, is_view_scan};
use crate::compile::window::is_windowed;
use crate::copies::Part;
use crate::error::Error;
use crate::expr::{bound_exprs, Bound, EvalExpr};
use crate::plan::{Aggregate, Plan, PlanNode, SubPlan, WindowFunc};
use crate::plan_ctx::CtxView;
use crate::query_planner::{
    is_compiled, is_draft, is_plan, CompiledRows, DeleteStatement, InsertStatement, Statement,
};
use crate::scope::Source;
use crate::types::Collation;

verus! {

/// How many captured columns follow the results of an aggregation.
pub open spec fn captured(a: Aggregate) -> nat {
    match (a.minmax_bare, a.bare_arbitrary) {
        (Some(bare), _) => bare.captured_regs@.len(),
        (None, Some(regs)) => regs@.len(),
        (None, None) => 0,
    }
}

/// How many values a row of an operator holds. A scan of a table does not say: its rows end in
/// a rowid only where the table has one.
pub open spec fn row_width(node: PlanNode) -> Option<nat>
    decreases node,
{
    match node {
        PlanNode::SeqScan(_) => None,
        PlanNode::RowidScan(_) => None,
        PlanNode::IndexScan(_) => None,
        PlanNode::Filter { input, .. } => row_width(*input),
        PlanNode::Project { exprs, .. } => Some(exprs@.len()),
        PlanNode::Sort { input, .. } => row_width(*input),
        PlanNode::Limit { input, .. } => row_width(*input),
        PlanNode::Distinct { input, .. } => row_width(*input),
        PlanNode::Aggregate(a) => Some(a.group_by@.len() + a.aggregates@.len() + captured(a)),
        PlanNode::MinMaxSeek(_) => Some(1),
        PlanNode::Join(j) => Some((j.left_width + j.right_width) as nat),
        PlanNode::Values { rows } => if rows@.len() == 0 {
            None
        } else {
            Some(rows@[0]@.len())
        },
        PlanNode::SingleRow => Some(0),
        PlanNode::SetOp(s) => row_width(*s.left),
        PlanNode::CteScan { column_count, .. } => Some(column_count as nat),
        PlanNode::RecursiveScan { column_count } => Some(column_count as nat),
        PlanNode::TableFunctionScan { column_count, .. } => Some(column_count as nat),
        PlanNode::PragmaFunctionScan { column_count, .. } => Some(column_count as nat),
        PlanNode::Window(w) => match row_width(*w.input) {
            Some(n) => Some(n + w.functions@.len()),
            None => None,
        },
        PlanNode::Insert(i) => Some(i.returning@.len()),
        PlanNode::Update(u) => Some(u.returning@.len()),
        PlanNode::Delete(d) => Some(d.returning@.len()),
        PlanNode::InsteadOf(io) => Some(io.returning@.len()),
        PlanNode::CreateTable(_) => Some(0),
        PlanNode::CreateIndex(_) => Some(0),
    }
}

/// Filling the hidden column of a JSON table or leaving it empty does not change how wide rows
/// are.
pub proof fn setting_json_scans_keeps_the_width(node: PlanNode, emit: bool)
    ensures
        row_width(emitting(node, emit)) == row_width(node),
    decreases node,
{
    match node {
        PlanNode::Filter { input, .. } => setting_json_scans_keeps_the_width(*input, emit),
        PlanNode::Sort { input, .. } => setting_json_scans_keeps_the_width(*input, emit),
        PlanNode::Limit { input, .. } => setting_json_scans_keeps_the_width(*input, emit),
        PlanNode::Distinct { input, .. } => setting_json_scans_keeps_the_width(*input, emit),
        PlanNode::Window(w) => setting_json_scans_keeps_the_width(*w.input, emit),
        PlanNode::SetOp(s) => setting_json_scans_keeps_the_width(*s.left, emit),
        _ => {},
    }
}

/// An assembled query emits its outputs and nothing else: the hidden columns that it sorts by
/// are gone from its rows.
pub proof fn a_query_emits_its_outputs(
    catalog: Catalog,
    out: PlanNode,
    compiled: Compiled,
    tail: QueryTail,
    base_offset: usize,
)
    requires
        is_assembled(catalog, out, compiled, tail, base_offset),
    ensures
        row_width(out) == Some(compiled.projections@.len()),
{
    reveal_with_fuel(row_width, 6);
}

proof fn lemma_bound_exprs_len(v: Seq<Bound>)
    requires
        bound_exprs(v) is Ok,
    ensures
        bound_exprs(v)->Ok_0.len() == v.len(),
    decreases v.len(),
{
    if v.len() > 0 {
        lemma_bound_exprs_len(v.drop_last());
    }
}

proof fn lemma_rows_fit(rows: Seq<Vec<Bound>>, width: nat, i: int)
    requires
        rows_error(rows, width) is None,
        0 <= i < rows.len(),
    ensures
        rows[i]@.len() == width,
    decreases rows.len(),
{
    if i < rows.len() - 1 {
        lemma_rows_fit(rows.drop_last(), width, i);
    }
}

/// All rows of a compiled `VALUES` list are as wide as its list of names.
pub proof fn values_rows_are_of_one_width(
    node: PlanNode,
    names: Seq<String>,
    rows: Seq<Vec<Bound>>,
    i: int,
)
    requires
        values_error(rows) is None,
        holds_rows(node, rows),
        texts(names) == column_name_list(rows[0]@.len()),
        0 <= i < rows.len(),
    ensures
        node->Values_rows@[i]@.len() == names.len(),
        row_width(node) == Some(names.len()),
{
    assert(texts(names).len() == names.len());
    assert(node->Values_rows@.len() == rows.len());
    let first = node->Values_rows@[0];
    let row = node->Values_rows@[i];
    assert(Ok::<Seq<EvalExpr>, Seq<char>>(first@) == bound_exprs(rows[0]@));
    assert(Ok::<Seq<EvalExpr>, Seq<char>>(row@) == bound_exprs(rows[i]@));
    lemma_bound_exprs_len(rows[0]@);
    lemma_bound_exprs_len(rows[i]@);
    lemma_rows_fit(rows, rows[0]@.len(), i);
}

/// Whether a result list has one name for each of its values.
pub open spec fn list_named(list: ResultList) -> bool {
    list.names@.len() == list.projections@.len()
}

/// Whether a compiled part has one name for each value of its rows.
pub open spec fn rows_named(node: PlanNode, names: Seq<String>) -> bool {
    row_width(node) == Some(names.len())
}

/// Whether the parts of a select that come compiled, and its result list, have one name for
/// each value.
pub open spec fn select_named(sel: Select<'_>) -> bool {
    match (sel.with, sel.body) {
        (Some(outcome), _) => outcome matches Ok((node, names)) ==> rows_named(node, names@),
        (None, SelectBody::Compound(outcome)) => outcome matches Ok(out) ==> rows_named(
            out.node,
            out.names@,
        ),
        (None, SelectBody::Select(core)) => core matches SelectCore::Query { result: Ok(list), .. }
            ==> list_named(list),
    }
}

/// A compiled core has one name for each value of its rows, and says of each which collation
/// it defines where its result list does.
pub proof fn a_core_names_its_values(
    catalog: Catalog,
    out: CompiledCore,
    core: SelectCore<'_>,
    base_offset: usize,
)
    requires
        core_error(core) is None,
        is_core(catalog, out, core, base_offset),
        core matches SelectCore::Query { result: Ok(list), .. } ==> list_named(list),
    ensures
        rows_named(out.node, out.names@),
        core_wf(core) ==> out.defined@.len() == out.names@.len(),
{
    match core {
        SelectCore::Values { rows, order_by, limit } => {
            let names = column_name_list(rows@[0]@.len());
            let list = choose|list: PlanNode|
                #![trigger holds_rows(list, rows@)]
                holds_rows(list, rows@) && is_values_tail(out.node, list, order_by@, limit, names);
            values_rows_are_of_one_width(list, out.names@, rows@, 0);
            assert(texts(out.names@).len() == out.names@.len());
            reveal_with_fuel(row_width, 4);
        },
        SelectCore::Query { from, result, tail } => {
            let list = result->Ok_0;
            let sources = from.resolved->Ok_0;
            let (source, query) = choose|source: PlanNode, query: PlanNode|
                #![trigger is_core_source(source, from), is_query(catalog, query, list, sources@, source, tail, base_offset)]
                is_core_source(source, from) && is_query(
                    catalog,
                    query,
                    list,
                    sources@,
                    source,
                    tail,
                    base_offset,
                ) && out.node == emitting(query, json_named(sources@));
            a_query_emits_its_outputs(
                catalog,
                query,
                over(list, sources@, catalog.indexes@, source),
                tail,
                base_offset,
            );
            setting_json_scans_keeps_the_width(query, json_named(sources@));
        },
    }
}

/// A compiled select has one name for each value of its rows.
pub proof fn a_select_names_its_values(
    catalog: Catalog,
    node: PlanNode,
    names: Vec<String>,
    sel: Select<'_>,
    base_offset: usize,
)
    requires
        is_select(catalog, Ok((node, names)), sel, base_offset),
        select_named(sel),
    ensures
        rows_named(node, names@),
{
    if let (None, SelectBody::Select(core)) = (sel.with, sel.body) {
        let defined = choose|defined: Vec<Option<Collation>>| #[trigger]
            is_core(catalog, CompiledCore { node, names, defined }, core, base_offset);
        a_core_names_its_values(
            catalog,
            CompiledCore { node, names, defined },
            core,
            base_offset,
        );
    }
}

/// Whether the parts of a statement that come compiled, and the result list of a select, have
/// one name for each value.
pub open spec fn statement_named(s: Statement<'_>) -> bool {
    match s {
        Statement::Select(sel) => select_named(sel),
        Statement::Insert(InsertStatement::Table(Ok((node, names)))) => rows_named(node, names@),
        Statement::Delete(DeleteStatement::Table(Ok((node, names)))) => rows_named(node, names@),
        _ => true,
    }
}

/// Marking the covered index scans of a tree does not change how wide its rows are.
pub proof fn marking_keeps_the_width(node: PlanNode, flags: Seq<bool>, from: nat)
    ensures
        row_width(marked(node, flags, from)) == row_width(node),
    decreases node,
{
    match node {
        PlanNode::Filter { input, .. } => marking_keeps_the_width(*input, flags, from),
        PlanNode::Sort { input, .. } => marking_keeps_the_width(*input, flags, from),
        PlanNode::Limit { input, .. } => marking_keeps_the_width(*input, flags, from),
        PlanNode::Distinct { input, .. } => marking_keeps_the_width(*input, flags, from),
        PlanNode::Window(w) => marking_keeps_the_width(*w.input, flags, from),
        PlanNode::SetOp(s) => marking_keeps_the_width(*s.left, flags, from),
        _ => {},
    }
}

/// The rows that a plan gives out have one value for each of its result columns. Without a
/// `RETURNING` list a statement that changes data has none of either.
pub proof fn a_plan_names_its_values(
    plan: Plan,
    before: CtxView,
    catalog: Catalog,
    s: Statement<'_>,
    notes: Result<PlanNotes, Error>,
)
    requires
        is_plan(Ok(plan), before, catalog, s, notes),
        statement_named(s),
    ensures
        rows_named(plan.root, plan.result_columns@),
{
    let (rows, after) = choose|rows: CompiledRows, after: CtxView|
        #![trigger is_compiled(rows, before, after, catalog, s)]
        is_compiled(rows, before, after, catalog, s) && match (rows, notes) {
            (Err(e), _) => false,
            (Ok(_), Err(e)) => false,
            (Ok((node, names)), Ok(found)) => exists|draft: Plan|
                #![trigger is_draft(draft, node, names, after, s)]
                is_draft(draft, node, names, after, s) && is_noted(plan, draft, found),
        };
    let (node, names) = rows->Ok_0;
    let found = notes->Ok_0;
    let draft = choose|draft: Plan|
        #![trigger is_draft(draft, node, names, after, s)]
        is_draft(draft, node, names, after, s) && is_noted(plan, draft, found);
    lemma_compiled_rows_are_named(node, names, before, after, catalog, s);
    lemma_notes_keep_the_width(plan.root, draft.root, found);
}

proof fn lemma_compiled_rows_are_named(
    node: PlanNode,
    names: Vec<String>,
    before: CtxView,
    after: CtxView,
    catalog: Catalog,
    s: Statement<'_>,
)
    requires
        is_compiled(Ok((node, names)), before, after, catalog, s),
        statement_named(s),
    ensures
        rows_named(node, names@),
{
    match s {
        Statement::Select(sel) => a_select_names_its_values(catalog, node, names, sel, 0),
        _ => {},
    }
}

proof fn lemma_notes_keep_the_width(out: PlanNode, root: PlanNode, notes: PlanNotes)
    requires
        is_noted_root(out, root, notes),
    ensures
        row_width(out) == row_width(root),
{
    marking_keeps_the_width(root, notes.covering@, 0);
}

/// The rows kept for a view are as wide as its schema, and so are those of the scan of them.
pub proof fn a_view_is_as_wide_as_its_schema(
    catalog: Catalog,
    before: CtxView,
    after: CtxView,
    node: PlanNode,
    text: ParsedText<'_>,
    body: Select<'_>,
    view: Seq<char>,
    exposed_name: String,
    column_count: usize,
)
    requires
        expansion_error(Ok(()), text, body, view, column_count as nat) is None,
        is_view_scan(catalog, before, after, node, body, exposed_name, column_count),
        select_named(body),
    ensures
        row_width(node) == Some(column_count as nat),
        row_width(after.ctes.last()->Materialized_body) == Some(column_count as nat),
{
    let plan = after.ctes.last()->Materialized_body;
    let names = choose|names: Vec<String>| #[trigger]
        is_select(catalog, Ok((plan, names)), body, 0);
    a_select_names_its_values(catalog, plan, names, body, 0);
    lemma_names_len(catalog, plan, names, body, 0);
}

proof fn lemma_names_len(
    catalog: Catalog,
    node: PlanNode,
    names: Vec<String>,
    sel: Select<'_>,
    base_offset: usize,
)
    requires
        is_select(catalog, Ok((node, names)), sel, base_offset),
    ensures
        names@.len() == select_width(sel),
{
    if let (None, SelectBody::Select(core)) = (sel.with, sel.body) {
        let defined = choose|defined: Vec<Option<Collation>>| #[trigger]
            is_core(catalog, CompiledCore { node, names, defined }, core, base_offset);
        assert(is_core(catalog, CompiledCore { node, names, defined }, core, base_offset));
        assert(texts(names@).len() == names@.len());
    }
}

/// The plan of a subquery has one name for each value of its rows, whether or not it reads an
/// outer row: a width that was checked on the names is that of the rows.
pub proof fn a_subquery_names_its_values(
    catalog: Catalog,
    sub: SubPlan,
    names: Vec<String>,
    body: BoundBody<'_>,
    subqueries: Seq<SubPlan>,
    start: int,
    outer_width: usize,
)
    requires
        is_uncorrelated_plan(catalog, sub, names, body, subqueries, start) || is_correlated_plan(
            catalog,
            sub,
            names,
            body,
            subqueries,
            start,
            outer_width,
        ),
        select_named(body.select),
    ensures
        rows_named(sub.plan, names@),
{
    if is_uncorrelated_plan(catalog, sub, names, body, subqueries, start) {
        a_select_names_its_values(catalog, sub.plan, names, body.select, 0);
    } else {
        a_select_names_its_values(catalog, sub.plan, names, body.select, outer_width);
    }
}

/// A frame of a statement on a view is as wide as an old and a new row of the view together,
/// each with the place of a rowid.
pub proof fn a_frame_holds_both_rows(
    node: PlanNode,
    input: PlanNode,
    c: nat,
    old_values: Option<Seq<EvalExpr>>,
    new_values: Option<Seq<EvalExpr>>,
)
    requires
        is_frame(node, input, c, old_values, new_values),
        old_values matches Some(v) ==> v.len() == c,
        new_values matches Some(v) ==> v.len() == c,
    ensures
        row_width(node) == Some(2 * (c + 1)),
{
}

/// A seek that replaces an aggregate has rows of the same width: what reads the one value of
/// the aggregate reads that of the seek in the same register.
pub proof fn a_seek_is_as_wide_as_its_aggregate(
    sources: Seq<Source<'_>>,
    indexes: Seq<IndexDef>,
    agg: Aggregate,
    is_max: Option<bool>,
)
    requires
        seek_of(sources, indexes, agg, is_max) is Some,
    ensures
        row_width(PlanNode::MinMaxSeek(seek_of(sources, indexes, agg, is_max)->Some_0))
            == row_width(PlanNode::Aggregate(agg)),
{
}

/// The results of window functions follow the row that they run over, one each: the register
/// of the first is the width of that row.
pub proof fn window_results_follow_the_row(
    node: PlanNode,
    input: PlanNode,
    functions: Seq<WindowFunc>,
    input_width: nat,
)
    requires
        is_windowed(node, input, functions),
        row_width(input) == Some(input_width),
    ensures
        row_width(node) == Some(input_width + functions.len()),
{
}

/// A copy of an operator has rows of the same width.
pub proof fn a_copy_is_as_wide(a: PlanNode, b: PlanNode)
    requires
        a.same(b),
    ensures
        row_width(a) == row_width(b),
    decreases a,
{
    reveal_with_fuel(PlanNode::same, 3);
    match (a, b) {
        (PlanNode::Filter { input, .. }, PlanNode::Filter { input: copy, .. }) => {
            a_copy_is_as_wide(*input, *copy)
        },
        (PlanNode::Sort { input, .. }, PlanNode::Sort { input: copy, .. }) => {
            a_copy_is_as_wide(*input, *copy)
        },
        (PlanNode::Limit { input, .. }, PlanNode::Limit { input: copy, .. }) => {
            a_copy_is_as_wide(*input, *copy)
        },
        (PlanNode::Distinct { input, .. }, PlanNode::Distinct { input: copy, .. }) => {
            a_copy_is_as_wide(*input, *copy)
        },
        (PlanNode::Window(w), PlanNode::Window(copy)) => a_copy_is_as_wide(*w.input, *copy.input),
        (PlanNode::SetOp(s), PlanNode::SetOp(copy)) => a_copy_is_as_wide(*s.left, *copy.left),
        (PlanNode::Values { rows }, PlanNode::Values { rows: copy }) => {
            if rows@.len() > 0 {
                assert(rows@[0].same(copy@[0]));
            }
        },
        _ => {},
    }
}

} // verus!
