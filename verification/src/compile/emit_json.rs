//! Whether a scan of a JSON table function fills its hidden `json` column.
//!
//! That column is a copy of the whole document in every row, so it is filled only where some
//! clause names it.

#[allow(unused_imports)]
use vstd::prelude::*;
use crate::plan::{Aggregate, Join, PlanNode, SetOp, Window};
use crate::scope::Source;

verus! {

/// The tree with every JSON table scan in it set to fill the column, or not to.
pub open spec fn emitting(node: PlanNode, emit: bool) -> PlanNode
    decreases node,
{
    match node {
        PlanNode::TableFunctionScan { kind, arg, path, column_count, .. } => {
            PlanNode::TableFunctionScan { kind, arg, path, column_count, emit_json: emit }
        },
        PlanNode::Filter { input, predicate } => PlanNode::Filter {
            input: Box::new(emitting(*input, emit)),
            predicate,
        },
        PlanNode::Project { input, exprs } => PlanNode::Project {
            input: Box::new(emitting(*input, emit)),
            exprs,
        },
        PlanNode::Sort { input, keys, limit } => PlanNode::Sort {
            input: Box::new(emitting(*input, emit)),
            keys,
            limit,
        },
        PlanNode::Limit { input, limit, offset } => PlanNode::Limit {
            input: Box::new(emitting(*input, emit)),
            limit,
            offset,
        },
        PlanNode::Distinct { input, column_collations } => PlanNode::Distinct {
            input: Box::new(emitting(*input, emit)),
            column_collations,
        },
        PlanNode::Aggregate(a) => PlanNode::Aggregate(
            Aggregate { input: Box::new(emitting(*a.input, emit)), ..a },
        ),
        PlanNode::Window(w) => PlanNode::Window(
            Window { input: Box::new(emitting(*w.input, emit)), ..w },
        ),
        PlanNode::Join(j) => PlanNode::Join(
            Join {
                left: Box::new(emitting(*j.left, emit)),
                right: Box::new(emitting(*j.right, emit)),
                ..j
            },
        ),
        PlanNode::SetOp(s) => PlanNode::SetOp(
            SetOp {
                left: Box::new(emitting(*s.left, emit)),
                right: Box::new(emitting(*s.right, emit)),
                ..s
            },
        ),
        _ => node,
    }
}

/// Whether the hidden column of some source is named.
pub open spec fn json_named(sources: Seq<Source<'_>>) -> bool {
    exists|i: int| 0 <= i < sources.len() && (#[trigger] sources[i]).reads_json()
}

/// The settings of the JSON table scans of a tree, left to right.
pub open spec fn json_settings(node: PlanNode) -> Seq<bool>
    decreases node,
{
    match node {
        PlanNode::TableFunctionScan { emit_json, .. } => seq![emit_json],
        PlanNode::Filter { input, .. } => json_settings(*input),
        PlanNode::Project { input, .. } => json_settings(*input),
        PlanNode::Sort { input, .. } => json_settings(*input),
        PlanNode::Limit { input, .. } => json_settings(*input),
        PlanNode::Distinct { input, .. } => json_settings(*input),
        PlanNode::Aggregate(a) => json_settings(*a.input),
        PlanNode::Window(w) => json_settings(*w.input),
        PlanNode::Join(j) => json_settings(*j.left) + json_settings(*j.right),
        PlanNode::SetOp(s) => json_settings(*s.left) + json_settings(*s.right),
        _ => seq![],
    }
}

/// Set every JSON table scan of a plan, once all its clauses are bound: they fill the column
/// if the hidden column of any source is named.
pub fn finalize_tvf_emit_json(plan: &mut PlanNode, sources: &Vec<Source<'_>>)
    ensures
        *final(plan) == emitting(*old(plan), json_named(sources@)),
{
    let mut emit: bool = false;
    let mut i: usize = 0;
    while i < sources.len()
        invariant
            i <= sources.len(),
            *plan == *old(plan),
            emit == exists|k: int| 0 <= k < i && (#[trigger] sources@[k]).reads_json(),
        decreases sources.len() - i,
    {
        if sources[i].json_referenced() {
            emit = true;
        }
        i = i + 1;
    }
    set_tvf_emit_json(plan, emit);
}

fn set_tvf_emit_json(node: &mut PlanNode, emit: bool)
    ensures
        *final(node) == emitting(*old(node), emit),
    decreases *old(node),
{
    match node {
        PlanNode::TableFunctionScan { emit_json, .. } => {
            *emit_json = emit;
        },
        PlanNode::Filter { input, .. } => set_tvf_emit_json(input, emit),
        PlanNode::Project { input, .. } => set_tvf_emit_json(input, emit),
        PlanNode::Sort { input, .. } => set_tvf_emit_json(input, emit),
        PlanNode::Limit { input, .. } => set_tvf_emit_json(input, emit),
        PlanNode::Distinct { input, .. } => set_tvf_emit_json(input, emit),
        PlanNode::Aggregate(a) => set_tvf_emit_json(&mut a.input, emit),
        PlanNode::Window(w) => set_tvf_emit_json(&mut w.input, emit),
        PlanNode::Join(j) => {
            set_tvf_emit_json(&mut j.left, emit);
            set_tvf_emit_json(&mut j.right, emit);
        },
        PlanNode::SetOp(s) => {
            set_tvf_emit_json(&mut s.left, emit);
            set_tvf_emit_json(&mut s.right, emit);
        },
        _ => {},
    }
}

/// Every JSON table scan of the tree is set, there are as many as there were, and setting them
/// again is the same as setting them once.
pub proof fn every_json_scan_is_set(node: PlanNode, emit: bool, again: bool)
    ensures
        json_settings(emitting(node, emit)).len() == json_settings(node).len(),
        forall|i: int|
            0 <= i < json_settings(node).len() ==> #[trigger] json_settings(
                emitting(node, emit),
            )[i] == emit,
        emitting(emitting(node, emit), again) == emitting(node, again),
    decreases node,
{
    match node {
        PlanNode::Filter { input, .. } => every_json_scan_is_set(*input, emit, again),
        PlanNode::Project { input, .. } => every_json_scan_is_set(*input, emit, again),
        PlanNode::Sort { input, .. } => every_json_scan_is_set(*input, emit, again),
        PlanNode::Limit { input, .. } => every_json_scan_is_set(*input, emit, again),
        PlanNode::Distinct { input, .. } => every_json_scan_is_set(*input, emit, again),
        PlanNode::Aggregate(a) => every_json_scan_is_set(*a.input, emit, again),
        PlanNode::Window(w) => every_json_scan_is_set(*w.input, emit, again),
        PlanNode::Join(j) => {
            every_json_scan_is_set(*j.left, emit, again);
            every_json_scan_is_set(*j.right, emit, again);
        },
        PlanNode::SetOp(s) => {
            every_json_scan_is_set(*s.left, emit, again);
            every_json_scan_is_set(*s.right, emit, again);
        },
        _ => {},
    }
}

} // verus!
