//! What is noted on a plan once it is compiled.
//!
//! Two passes go over a compiled plan. The first finds the programs of the generated columns of
//! the tables that the plan touches. The second finds which index scans an index covers, so that
//! the rows need not be fetched from the table. The actions of its triggers are plans of their
//! own, with notes of their own.

#[allow(unused_imports)]
use vstd::prelude::*;
use crate::access::IndexScan;
use crate::plan::{
    Aggregate, CtePlan, Delete, Insert, InsteadOf, Join, Plan, PlanNode, SetOp, SubPlan,
    TableGenerated, TriggerProgram, Update, Window,
};

verus! {

/// What the passes found for a plan. `covering` has one entry for each index scan: first those
/// of the root, then those of the materialized bodies, then those of the subqueries, each left
/// to right. `actions[i][j]` is what they found for action `j` of trigger `i`.
#[derive(Debug)]
pub struct PlanNotes {
    pub generated: Vec<TableGenerated>,
    pub covering: Vec<bool>,
    pub actions: Vec<Vec<PlanNotes>>,
}

impl PlanNotes {
    /// The notes of a plan that touches no generated columns and is covered nowhere.
    pub fn none() -> (r: PlanNotes)
        ensures
            r.generated@.len() == 0,
            r.covering@.len() == 0,
            r.actions@.len() == 0,
    {
        PlanNotes { generated: Vec::new(), covering: Vec::new(), actions: Vec::new() }
    }
}

/// How many index scans a tree has.
pub open spec fn index_scans(node: PlanNode) -> nat
    decreases node,
{
    match node {
        PlanNode::IndexScan(_) => 1,
        PlanNode::Filter { input, .. } => index_scans(*input),
        PlanNode::Project { input, .. } => index_scans(*input),
        PlanNode::Sort { input, .. } => index_scans(*input),
        PlanNode::Limit { input, .. } => index_scans(*input),
        PlanNode::Distinct { input, .. } => index_scans(*input),
        PlanNode::Aggregate(a) => index_scans(*a.input),
        PlanNode::Window(w) => index_scans(*w.input),
        PlanNode::Join(j) => index_scans(*j.left) + index_scans(*j.right),
        PlanNode::SetOp(s) => index_scans(*s.left) + index_scans(*s.right),
        PlanNode::Insert(i) => index_scans(*i.source),
        PlanNode::Update(u) => index_scans(*u.scan),
        PlanNode::Delete(d) => index_scans(*d.scan),
        PlanNode::InsteadOf(io) => index_scans(*io.frame_source),
        _ => 0,
    }
}

/// The position after `n` more entries, or the end where there are fewer.
pub open spec fn past(flags: Seq<bool>, from: nat, n: nat) -> nat {
    if from + n <= flags.len() {
        from + n
    } else {
        flags.len()
    }
}

/// Whether the entry at a position says that the scan is covered.
pub open spec fn says_covered(flags: Seq<bool>, from: nat) -> bool {
    from < flags.len() && flags[from as int]
}

/// The tree with its covered index scans marked, where the entries of its scans begin at `from`.
/// Nothing else changes.
pub open spec fn marked(node: PlanNode, flags: Seq<bool>, from: nat) -> PlanNode
    decreases node,
{
    match node {
        PlanNode::IndexScan(s) => PlanNode::IndexScan(
            IndexScan { covering: s.covering || says_covered(flags, from), ..s },
        ),
        PlanNode::Filter { input, predicate } => PlanNode::Filter {
            input: Box::new(marked(*input, flags, from)),
            predicate,
        },
        PlanNode::Project { input, exprs } => PlanNode::Project {
            input: Box::new(marked(*input, flags, from)),
            exprs,
        },
        PlanNode::Sort { input, keys, limit } => PlanNode::Sort {
            input: Box::new(marked(*input, flags, from)),
            keys,
            limit,
        },
        PlanNode::Limit { input, limit, offset } => PlanNode::Limit {
            input: Box::new(marked(*input, flags, from)),
            limit,
            offset,
        },
        PlanNode::Distinct { input, column_collations } => PlanNode::Distinct {
            input: Box::new(marked(*input, flags, from)),
            column_collations,
        },
        PlanNode::Aggregate(a) => PlanNode::Aggregate(
            Aggregate { input: Box::new(marked(*a.input, flags, from)), ..a },
        ),
        PlanNode::Window(w) => PlanNode::Window(
            Window { input: Box::new(marked(*w.input, flags, from)), ..w },
        ),
        PlanNode::Join(j) => PlanNode::Join(
            Join {
                left: Box::new(marked(*j.left, flags, from)),
                right: Box::new(
                    marked(*j.right, flags, past(flags, from, index_scans(*j.left))),
                ),
                ..j
            },
        ),
        PlanNode::SetOp(s) => PlanNode::SetOp(
            SetOp {
                left: Box::new(marked(*s.left, flags, from)),
                right: Box::new(
                    marked(*s.right, flags, past(flags, from, index_scans(*s.left))),
                ),
                ..s
            },
        ),
        PlanNode::Insert(i) => PlanNode::Insert(
            Insert { source: Box::new(marked(*i.source, flags, from)), ..i },
        ),
        PlanNode::Update(u) => PlanNode::Update(
            Update { scan: Box::new(marked(*u.scan, flags, from)), ..u },
        ),
        PlanNode::Delete(d) => PlanNode::Delete(
            Delete { scan: Box::new(marked(*d.scan, flags, from)), ..d },
        ),
        PlanNode::InsteadOf(io) => PlanNode::InsteadOf(
            InsteadOf { frame_source: Box::new(marked(*io.frame_source, flags, from)), ..io },
        ),
        _ => node,
    }
}

/// Mark the covered index scans of a tree. The position after its entries comes back.
fn mark_covering(node: &mut PlanNode, flags: &Vec<bool>, from: usize) -> (next: usize)
    requires
        from <= flags@.len(),
    ensures
        *final(node) == marked(*old(node), flags@, from as nat),
        next == past(flags@, from as nat, index_scans(*old(node))),
    decreases *old(node),
{
    match node {
        PlanNode::IndexScan(s) => {
            if from < flags.len() {
                if flags[from] {
                    s.covering = true;
                }
                from + 1
            } else {
                from
            }
        },
        PlanNode::Filter { input, .. } => mark_covering(input, flags, from),
        PlanNode::Project { input, .. } => mark_covering(input, flags, from),
        PlanNode::Sort { input, .. } => mark_covering(input, flags, from),
        PlanNode::Limit { input, .. } => mark_covering(input, flags, from),
        PlanNode::Distinct { input, .. } => mark_covering(input, flags, from),
        PlanNode::Aggregate(a) => mark_covering(&mut a.input, flags, from),
        PlanNode::Window(w) => mark_covering(&mut w.input, flags, from),
        PlanNode::Join(j) => {
            let mid: usize = mark_covering(&mut j.left, flags, from);
            mark_covering(&mut j.right, flags, mid)
        },
        PlanNode::SetOp(s) => {
            let mid: usize = mark_covering(&mut s.left, flags, from);
            mark_covering(&mut s.right, flags, mid)
        },
        PlanNode::Insert(i) => mark_covering(&mut i.source, flags, from),
        PlanNode::Update(u) => mark_covering(&mut u.scan, flags, from),
        PlanNode::Delete(d) => mark_covering(&mut d.scan, flags, from),
        PlanNode::InsteadOf(io) => mark_covering(&mut io.frame_source, flags, from),
        _ => from,
    }
}

/// How many index scans a materialized body has.
pub open spec fn cte_scans(c: CtePlan) -> nat {
    match c {
        CtePlan::Materialized { body, .. } => index_scans(body),
        CtePlan::Recursive { seed, step, .. } => index_scans(seed) + index_scans(step),
    }
}

/// A materialized body with its covered index scans marked.
pub open spec fn marked_cte(c: CtePlan, flags: Seq<bool>, from: nat) -> CtePlan {
    match c {
        CtePlan::Materialized { name, column_count, body } => CtePlan::Materialized {
            name,
            column_count,
            body: marked(body, flags, from),
        },
        CtePlan::Recursive { name, column_count, seed, step, union_all } => CtePlan::Recursive {
            name,
            column_count,
            seed: marked(seed, flags, from),
            step: marked(step, flags, past(flags, from, index_scans(seed))),
            union_all,
        },
    }
}

/// A list of materialized bodies with their covered index scans marked, and the position after
/// their entries.
pub open spec fn marked_ctes(cs: Seq<CtePlan>, flags: Seq<bool>, from: nat) -> (Seq<CtePlan>, nat)
    decreases cs.len(),
{
    if cs.len() == 0 {
        (seq![], from)
    } else {
        let (before, at) = marked_ctes(cs.drop_last(), flags, from);
        (
            before.push(marked_cte(cs.last(), flags, at)),
            past(flags, at, cte_scans(cs.last())),
        )
    }
}

/// A list of subqueries with their covered index scans marked, and the position after their
/// entries.
pub open spec fn marked_subs(ss: Seq<SubPlan>, flags: Seq<bool>, from: nat) -> (Seq<SubPlan>, nat)
    decreases ss.len(),
{
    if ss.len() == 0 {
        (seq![], from)
    } else {
        let (before, at) = marked_subs(ss.drop_last(), flags, from);
        (
            before.push(SubPlan { plan: marked(ss.last().plan, flags, at), ..ss.last() }),
            past(flags, at, index_scans(ss.last().plan)),
        )
    }
}

fn mark_ctes(cs: Vec<CtePlan>, flags: &Vec<bool>, from: usize) -> (r: (Vec<CtePlan>, usize))
    requires
        from <= flags@.len(),
    ensures
        (r.0@, r.1 as nat) == marked_ctes(cs@, flags@, from as nat),
        r.1 <= flags@.len(),
{
    let ghost all = cs@;
    let mut out: Vec<CtePlan> = Vec::new();
    let mut at: usize = from;
    proof {
        assert(all.subrange(0, 0) =~= seq![]);
    }
    for c in it: cs
        invariant
            it.seq() == all,
            at <= flags@.len(),
            (out@, at as nat) == marked_ctes(
                all.subrange(0, it.index() as int),
                flags@,
                from as nat,
            ),
    {
        proof {
            let next = all.subrange(0, it.index() + 1);
            assert(next.drop_last() =~= all.subrange(0, it.index() as int));
            assert(next.last() == c);
        }
        match c {
            CtePlan::Materialized { name, column_count, body } => {
                let mut body: PlanNode = body;
                at = mark_covering(&mut body, flags, at);
                out.push(CtePlan::Materialized { name, column_count, body });
            },
            CtePlan::Recursive { name, column_count, seed, step, union_all } => {
                let mut seed: PlanNode = seed;
                let mut step: PlanNode = step;
                let mid: usize = mark_covering(&mut seed, flags, at);
                at = mark_covering(&mut step, flags, mid);
                out.push(CtePlan::Recursive { name, column_count, seed, step, union_all });
            },
        }
    }
    proof {
        assert(all.subrange(0, all.len() as int) =~= all);
    }
    (out, at)
}

fn mark_subs(ss: Vec<SubPlan>, flags: &Vec<bool>, from: usize) -> (r: (Vec<SubPlan>, usize))
    requires
        from <= flags@.len(),
    ensures
        (r.0@, r.1 as nat) == marked_subs(ss@, flags@, from as nat),
{
    let ghost all = ss@;
    let mut out: Vec<SubPlan> = Vec::new();
    let mut at: usize = from;
    proof {
        assert(all.subrange(0, 0) =~= seq![]);
    }
    for s in it: ss
        invariant
            it.seq() == all,
            at <= flags@.len(),
            (out@, at as nat) == marked_subs(
                all.subrange(0, it.index() as int),
                flags@,
                from as nat,
            ),
    {
        proof {
            let next = all.subrange(0, it.index() + 1);
            assert(next.drop_last() =~= all.subrange(0, it.index() as int));
            assert(next.last() == s);
        }
        let mut s: SubPlan = s;
        at = mark_covering(&mut s.plan, flags, at);
        out.push(s);
    }
    proof {
        assert(all.subrange(0, all.len() as int) =~= all);
    }
    (out, at)
}

/// The smaller of two numbers.
spec fn least_of(a: int, b: int) -> int {
    if a <= b {
        a
    } else {
        b
    }
}

/// The notes of the actions of trigger `i`; none where nothing was found for it.
pub open spec fn trigger_notes(actions: Seq<Vec<PlanNotes>>, i: int) -> Seq<PlanNotes> {
    if 0 <= i < actions.len() {
        actions[i]@
    } else {
        seq![]
    }
}

/// Whether `out` is the plan with its notes: it has the programs of its generated columns, its
/// covered index scans are marked, and so is it with the actions of its triggers.
pub open spec fn is_noted(out: Plan, p: Plan, notes: PlanNotes) -> bool
    decreases p,
{
    let flags = notes.covering@;
    let (ctes, at) = marked_ctes(p.ctes@, flags, past(flags, 0, index_scans(p.root)));
    &&& is_noted_root(out.root, p.root, notes)
    &&& out.result_columns == p.result_columns
    &&& out.ctes@ == ctes
    &&& out.subqueries@ == marked_subs(p.subqueries@, flags, at).0
    &&& out.mutates == p.mutates
    &&& out.generated == notes.generated
}

/// Whether `out` is the root of a plan with its notes.
pub open spec fn is_noted_root(out: PlanNode, root: PlanNode, notes: PlanNotes) -> bool
    decreases root,
{
    let whole = marked(root, notes.covering@, 0);
    match root {
        PlanNode::Insert(i) => {
            &&& out matches PlanNode::Insert(o)
            &&& whole == PlanNode::Insert(Insert { triggers: i.triggers, ..o })
            &&& are_noted_programs(o.triggers@, i.triggers@, notes.actions@)
        },
        PlanNode::Update(u) => {
            &&& out matches PlanNode::Update(o)
            &&& whole == PlanNode::Update(Update { triggers: u.triggers, ..o })
            &&& are_noted_programs(o.triggers@, u.triggers@, notes.actions@)
        },
        PlanNode::Delete(d) => {
            &&& out matches PlanNode::Delete(o)
            &&& whole == PlanNode::Delete(Delete { triggers: d.triggers, ..o })
            &&& are_noted_programs(o.triggers@, d.triggers@, notes.actions@)
        },
        PlanNode::InsteadOf(io) => {
            &&& out matches PlanNode::InsteadOf(o)
            &&& whole == PlanNode::InsteadOf(InsteadOf { programs: io.programs, ..o })
            &&& are_noted_programs(o.programs@, io.programs@, notes.actions@)
        },
        _ => out == whole,
    }
}

/// Whether `out` are the programs with the notes of their actions.
pub open spec fn are_noted_programs(
    out: Seq<TriggerProgram>,
    ps: Seq<TriggerProgram>,
    actions: Seq<Vec<PlanNotes>>,
) -> bool
    decreases ps,
{
    &&& out.len() == ps.len()
    &&& forall|i: int|
        0 <= i < ps.len() ==> {
            &&& (#[trigger] out[i]) == (TriggerProgram { actions: out[i].actions, ..ps[i] })
            &&& are_noted_plans(out[i].actions@, ps[i].actions@, trigger_notes(actions, i))
        }
}

/// Whether `out` are the plans with their notes; one for which nothing was found is as it was.
pub open spec fn are_noted_plans(out: Seq<Plan>, ps: Seq<Plan>, notes: Seq<PlanNotes>) -> bool
    decreases ps,
{
    &&& out.len() == ps.len()
    &&& forall|j: int|
        0 <= j < ps.len() ==> if j < notes.len() {
            is_noted(#[trigger] out[j], ps[j], notes[j])
        } else {
            out[j] == ps[j]
        }
}

/// Put the notes on a plan.
pub fn annotate(plan: Plan, notes: PlanNotes) -> (r: Plan)
    ensures
        is_noted(r, plan, notes),
    decreases plan,
{
    let PlanNotes { generated, covering, actions } = notes;
    let mut root: PlanNode = plan.root;
    let after_root: usize = mark_covering(&mut root, &covering, 0);
    let root: PlanNode = match root {
        PlanNode::Insert(i) => {
            let triggers: Vec<TriggerProgram> = annotate_programs(i.triggers, actions);
            PlanNode::Insert(Insert { triggers, ..i })
        },
        PlanNode::Update(u) => {
            let triggers: Vec<TriggerProgram> = annotate_programs(u.triggers, actions);
            PlanNode::Update(Update { triggers, ..u })
        },
        PlanNode::Delete(d) => {
            let triggers: Vec<TriggerProgram> = annotate_programs(d.triggers, actions);
            PlanNode::Delete(Delete { triggers, ..d })
        },
        PlanNode::InsteadOf(io) => {
            let programs: Vec<TriggerProgram> = annotate_programs(io.programs, actions);
            PlanNode::InsteadOf(InsteadOf { programs, ..io })
        },
        other => other,
    };
    let (ctes, after_ctes): (Vec<CtePlan>, usize) = mark_ctes(plan.ctes, &covering, after_root);
    let (subqueries, _): (Vec<SubPlan>, usize) = mark_subs(plan.subqueries, &covering, after_ctes);
    Plan {
        root,
        result_columns: plan.result_columns,
        ctes,
        subqueries,
        mutates: plan.mutates,
        generated,
    }
}

fn annotate_programs(ps: Vec<TriggerProgram>, actions: Vec<Vec<PlanNotes>>) -> (r: Vec<
    TriggerProgram,
>)
    ensures
        are_noted_programs(r@, ps@, actions@),
    decreases ps,
{
    let ghost all = ps;
    let ghost found = actions@;
    let mut actions: Vec<Vec<PlanNotes>> = actions;
    let mut out: Vec<TriggerProgram> = Vec::new();
    for p in it: ps
        invariant
            it.seq() == all@,
            all == ps,
            out@.len() == it.index(),
            actions@ == found.skip(least_of(it.index() as int, found.len() as int)),
            forall|i: int|
                0 <= i < out@.len() ==> {
                    &&& (#[trigger] out@[i]) == (TriggerProgram {
                        actions: out@[i].actions,
                        ..all@[i]
                    })
                    &&& are_noted_plans(
                        out@[i].actions@,
                        all@[i].actions@,
                        trigger_notes(found, i),
                    )
                },
    {
        assert(p == all@[it.index() as int]);
        let notes: Vec<PlanNotes> = if actions.len() > 0 {
            actions.remove(0)
        } else {
            Vec::new()
        };
        proof {
            assert(notes@ =~= trigger_notes(found, it.index() as int));
            assert(actions@ =~= found.skip(least_of(it.index() + 1, found.len() as int)));
        }
        let plans: Vec<Plan> = annotate_plans(p.actions, notes);
        out.push(TriggerProgram { actions: plans, ..p });
    }
    out
}

fn annotate_plans(ps: Vec<Plan>, notes: Vec<PlanNotes>) -> (r: Vec<Plan>)
    ensures
        are_noted_plans(r@, ps@, notes@),
    decreases ps,
{
    let ghost all = ps;
    let ghost found = notes@;
    let mut notes: Vec<PlanNotes> = notes;
    let mut out: Vec<Plan> = Vec::new();
    for p in it: ps
        invariant
            it.seq() == all@,
            all == ps,
            out@.len() == it.index(),
            notes@ == found.skip(least_of(it.index() as int, found.len() as int)),
            forall|j: int|
                0 <= j < out@.len() ==> if j < found.len() {
                    is_noted(#[trigger] out@[j], all@[j], found[j])
                } else {
                    out@[j] == all@[j]
                },
    {
        assert(p == all@[it.index() as int]);
        if notes.len() > 0 {
            let note: PlanNotes = notes.remove(0);
            proof {
                assert(note == found[it.index() as int]);
                assert(notes@ =~= found.skip(least_of(it.index() + 1, found.len() as int)));
            }
            out.push(annotate(p, note));
        } else {
            out.push(p);
        }
    }
    out
}

} // verus!
