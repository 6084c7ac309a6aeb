//! What a compiled subquery is: the plan of its select behind the row it reads, and what it says of
//! the outer row and of itself.

#[allow(unused_imports)]
use vstd::prelude::*;
use crate::catalog::Catalog;
use crate::compile::emit_json::json_settings;
use crate::compile::select::{is_select, select_error};
use crate::compile::subquery::{
    is_correlated_plan, is_rebound, is_trial_step, is_uncorrelated_plan, reaches_body,
    registers_any, registers_checked, starts_at, BoundBody, CompiledSubquery, SubplanStep,
};
use crate::error::Error;
use crate::plan::{PlanNode, SubPlan};
use crate::plan_ctx::{CtxView, Mark};

verus! {

/// The row sources that an operator takes its rows from.
pub open spec fn inputs(node: PlanNode) -> Seq<PlanNode> {
    match node {
        PlanNode::Filter { input, .. } => seq![*input],
        PlanNode::Project { input, .. } => seq![*input],
        PlanNode::Sort { input, .. } => seq![*input],
        PlanNode::Limit { input, .. } => seq![*input],
        PlanNode::Distinct { input, .. } => seq![*input],
        PlanNode::Aggregate(a) => seq![*a.input],
        PlanNode::Window(w) => seq![*w.input],
        PlanNode::Join(j) => seq![*j.left, *j.right],
        PlanNode::SetOp(s) => seq![*s.left, *s.right],
        _ => seq![],
    }
}

/// A tree reaches a materialized body exactly where it scans one itself or one of its inputs
/// reaches one.
pub proof fn a_body_is_reached_through_any_input(node: PlanNode)
    ensures
        reaches_body(node) <==> node is CteScan || node is RecursiveScan || exists|i: int|
            0 <= i < inputs(node).len() && reaches_body(#[trigger] inputs(node)[i]),
{
    let below = inputs(node);
    match node {
        PlanNode::Join(j) => {
            assert(below[0] == *j.left && below[1] == *j.right);
        },
        PlanNode::SetOp(s) => {
            assert(below[0] == *s.left && below[1] == *s.right);
        },
        PlanNode::Filter { input, .. } => {
            assert(below[0] == *input);
        },
        PlanNode::Project { input, .. } => {
            assert(below[0] == *input);
        },
        PlanNode::Sort { input, .. } => {
            assert(below[0] == *input);
        },
        PlanNode::Limit { input, .. } => {
            assert(below[0] == *input);
        },
        PlanNode::Distinct { input, .. } => {
            assert(below[0] == *input);
        },
        PlanNode::Aggregate(a) => {
            assert(below[0] == *a.input);
        },
        PlanNode::Window(w) => {
            assert(below[0] == *w.input);
        },
        _ => {},
    }
}

/// The JSON table scans of a tree are its own, and those of its inputs from left to right.
pub proof fn json_scans_are_those_of_the_inputs(node: PlanNode)
    ensures
        json_settings(node) == match node {
            PlanNode::TableFunctionScan { emit_json, .. } => seq![emit_json],
            _ => if inputs(node).len() == 2 {
                json_settings(inputs(node)[0]) + json_settings(inputs(node)[1])
            } else if inputs(node).len() == 1 {
                json_settings(inputs(node)[0])
            } else {
                seq![]
            },
        },
{
}

/// A subquery that reads no outer row is the plan of its select on its own; one that does is the
/// plan of its select behind an outer row of the width it was bound against. It is known to be
/// deterministic exactly where its own expressions are, every subquery nested in it is, and it
/// scans no materialized body. Its outer registers are those that its names resolved to, ascending.
pub proof fn a_subquery_says_what_it_reads(
    catalog: Catalog,
    sub: SubPlan,
    names: Vec<String>,
    body: BoundBody<'_>,
    subqueries: Seq<SubPlan>,
    start: int,
    outer_width: usize,
)
    ensures
        is_uncorrelated_plan(catalog, sub, names, body, subqueries, start) ==> {
            &&& is_select(catalog, Ok((sub.plan, names)), body.select, 0)
            &&& !sub.correlated
            &&& sub.outer_width == 0
            &&& sub.correlated_cols@.len() == 0
            &&& sub.deterministic <==> repeats(sub.plan, body, subqueries, start)
        },
        is_correlated_plan(catalog, sub, names, body, subqueries, start, outer_width) ==> {
            &&& is_select(catalog, Ok((sub.plan, names)), body.select, outer_width)
            &&& sub.correlated
            &&& sub.outer_width == outer_width
            &&& sub.deterministic <==> repeats(sub.plan, body, subqueries, start)
            &&& forall|x: usize| #[trigger]
                sub.correlated_cols@.contains(x) <==> body.correlated_cols@.contains(x)
            &&& forall|i: int, j: int|
                0 <= i < j < sub.correlated_cols@.len() ==> #[trigger] sub.correlated_cols@[i]
                    < #[trigger] sub.correlated_cols@[j]
        },
{
}

/// Whether nothing in a subquery may give another result on an equal outer row.
pub open spec fn repeats(
    plan: PlanNode,
    body: BoundBody<'_>,
    subqueries: Seq<SubPlan>,
    start: int,
) -> bool {
    &&& !body.nondeterministic
    &&& !reaches_body(plan)
    &&& !exists|i: int| start <= i < subqueries.len() && !(#[trigger] subqueries[i]).deterministic
}

/// A body that compiles is done after its trial exactly where it reads no outer row. Else it is
/// bound again from the register after the outer row on, and the statement is as it was before the
/// trial: nothing that the trial added stays.
pub proof fn a_trial_is_kept_only_without_an_outer_row(
    catalog: Catalog,
    r: Result<SubplanStep, Error>,
    body: BoundBody<'_>,
    start: CtxView,
    before: CtxView,
    after: CtxView,
    outer_width: usize,
)
    requires
        is_trial_step(catalog, r, body, start.mark(), before, after, outer_width),
        before.extends(start),
    ensures
        r is Err <==> select_error(body.select) is Some,
        r matches Ok(SubplanStep::Done(sub, names)) ==> {
            &&& !body.saw_correlated
            &&& !sub.correlated
            &&& sub.outer_width == 0
            &&& after == before
        },
        r matches Ok(SubplanStep::Rebind { base_offset }) ==> {
            &&& body.saw_correlated
            &&& base_offset == outer_width
            &&& after == start
        },
{
    assert(before.subqueries.subrange(0, start.subqueries.len() as int) =~= start.subqueries);
    assert(before.ctes.subrange(0, start.ctes.len() as int) =~= start.ctes);
    assert(before.numbering.named.subrange(0, start.numbering.named.len() as int)
        =~= start.numbering.named);
}

/// A subquery is registered exactly where it compiles to as many columns as are wanted; then it is
/// the last of the subqueries of the statement, under its position, and else nothing changes.
pub proof fn a_subquery_of_the_right_width_is_registered(
    r: Result<usize, Error>,
    compiled: CompiledSubquery,
    wanted: nat,
    before: CtxView,
    after: CtxView,
)
    requires
        registers_checked(r, compiled, wanted, before, after),
    ensures
        r is Ok <==> compiled is Ok && compiled->Ok_0.1@.len() == wanted,
        r matches Ok(id) ==> {
            &&& after.subqueries.len() == before.subqueries.len() + 1
            &&& id == before.subqueries.len()
            &&& after.subqueries[id as int] == compiled->Ok_0.0
            &&& after.subqueries.drop_last() == before.subqueries
            &&& after.ctes == before.ctes
            &&& after.numbering == before.numbering
        },
        r is Err ==> after == before,
{
    if let Ok((sub, _)) = compiled {
        assert(before.subqueries.push(sub).drop_last() =~= before.subqueries);
    }
}

/// A body that is bound again follows the outer row under which its trial started: its plan is
/// that of its select with its own columns after a row of that width, and says so.
pub proof fn a_rebound_body_follows_the_outer_row(
    catalog: Catalog,
    r: CompiledSubquery,
    body: BoundBody<'_>,
    start: Mark,
    width: usize,
    state: CtxView,
    before: CtxView,
    outer_width: usize,
)
    requires
        starts_at(start, width, before, outer_width),
        is_rebound(catalog, r, body, start, state, width),
    ensures
        r is Ok <==> select_error(body.select) is None,
        r matches Ok((sub, names)) ==> {
            &&& sub.correlated
            &&& sub.outer_width == outer_width
            &&& is_select(catalog, Ok((sub.plan, names)), body.select, outer_width)
            &&& sub.deterministic <==> repeats(
                sub.plan,
                body,
                state.subqueries,
                before.subqueries.len() as int,
            )
        },
        r matches Err(e) ==> select_error(body.select) == Some(e.text()),
{
}

/// A subquery under `EXISTS` is registered whatever its width: it is then the last of the
/// subqueries of the statement, under its position.
pub proof fn a_subquery_of_any_width_is_registered(
    r: Result<usize, Error>,
    compiled: CompiledSubquery,
    before: CtxView,
    after: CtxView,
)
    requires
        registers_any(r, compiled, before, after),
    ensures
        r is Ok <==> compiled is Ok,
        r matches Ok(id) ==> {
            &&& after.subqueries.len() == before.subqueries.len() + 1
            &&& id == before.subqueries.len()
            &&& after.subqueries[id as int] == compiled->Ok_0.0
            &&& after.subqueries.drop_last() == before.subqueries
            &&& after.ctes == before.ctes
            &&& after.numbering == before.numbering
        },
        r is Err ==> after == before,
{
    if let Ok((sub, _)) = compiled {
        assert(before.subqueries.push(sub).drop_last() =~= before.subqueries);
    }
}

} // verus!
