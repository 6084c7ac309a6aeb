//! Notes mark the index scans that they are on, and change nothing else of a plan.

#[allow(unused_imports)]
use vstd::prelude::*;
use crate::access::IndexScan;
use crate::compile::meaning::{rows_of, Engine};
use crate::compile::notes::{
    are_noted_plans, are_noted_programs, cte_scans, index_scans, is_noted, is_noted_root, marked,
    marked_cte, marked_ctes, marked_subs, past, trigger_notes, PlanNotes,
};
use crate::plan::{CtePlan, Plan, PlanNode, SubPlan, TriggerProgram};

verus! {

/// Which index scans of a tree are covered, from left to right.
pub open spec fn coverings(node: PlanNode) -> Seq<bool>
    decreases node,
{
    match node {
        PlanNode::IndexScan(s) => seq![s.covering],
        PlanNode::Filter { input, .. } => coverings(*input),
        PlanNode::Project { input, .. } => coverings(*input),
        PlanNode::Sort { input, .. } => coverings(*input),
        PlanNode::Limit { input, .. } => coverings(*input),
        PlanNode::Distinct { input, .. } => coverings(*input),
        PlanNode::Aggregate(a) => coverings(*a.input),
        PlanNode::Window(w) => coverings(*w.input),
        PlanNode::Join(j) => coverings(*j.left) + coverings(*j.right),
        PlanNode::SetOp(s) => coverings(*s.left) + coverings(*s.right),
        PlanNode::Insert(i) => coverings(*i.source),
        PlanNode::Update(u) => coverings(*u.scan),
        PlanNode::Delete(d) => coverings(*d.scan),
        PlanNode::InsteadOf(io) => coverings(*io.frame_source),
        _ => seq![],
    }
}

/// Whether `now` is `before` with the scans covered in addition that the notes from `from` on say
/// are covered. Scans without a note stay as they are.
pub open spec fn covers_as_noted(
    now: Seq<bool>,
    before: Seq<bool>,
    notes: Seq<bool>,
    from: int,
) -> bool {
    &&& now.len() == before.len()
    &&& forall|k: int|
        0 <= k < before.len() ==> (#[trigger] now[k] <==> before[k] || (from + k < notes.len()
            && notes[from + k]))
}

proof fn two_lists_are_covered(
    now: Seq<bool>,
    before: Seq<bool>,
    then_now: Seq<bool>,
    then_before: Seq<bool>,
    notes: Seq<bool>,
    from: nat,
    next: nat,
)
    requires
        covers_as_noted(now, before, notes, from as int),
        next == past(notes, from, before.len()),
        from <= notes.len(),
        covers_as_noted(then_now, then_before, notes, next as int),
    ensures
        covers_as_noted(now + then_now, before + then_before, notes, from as int),
{
    let whole = now + then_now;
    let old_whole = before + then_before;
    assert forall|k: int| 0 <= k < old_whole.len() implies (#[trigger] whole[k] <==> old_whole[k] || (
    from + k < notes.len() && notes[from + k])) by {
        if k < before.len() {
            assert(whole[k] == now[k]);
        } else {
            let m = k - before.len();
            assert(whole[k] == then_now[m]);
            assert(old_whole[k] == then_before[m]);
        }
    }
}

/// Marking a tree covers exactly the scans whose notes say so, scan by scan from left to right; a
/// scan is never uncovered.
pub proof fn each_note_marks_its_scan(node: PlanNode, flags: Seq<bool>, from: nat)
    requires
        from <= flags.len(),
    ensures
        index_scans(node) == coverings(node).len(),
        covers_as_noted(coverings(marked(node, flags, from)), coverings(node), flags, from as int),
    decreases node,
{
    match node {
        PlanNode::Filter { input, .. } => each_note_marks_its_scan(*input, flags, from),
        PlanNode::Project { input, .. } => each_note_marks_its_scan(*input, flags, from),
        PlanNode::Sort { input, .. } => each_note_marks_its_scan(*input, flags, from),
        PlanNode::Limit { input, .. } => each_note_marks_its_scan(*input, flags, from),
        PlanNode::Distinct { input, .. } => each_note_marks_its_scan(*input, flags, from),
        PlanNode::Aggregate(a) => each_note_marks_its_scan(*a.input, flags, from),
        PlanNode::Window(w) => each_note_marks_its_scan(*w.input, flags, from),
        PlanNode::Join(j) => {
            each_note_marks_its_scan(*j.left, flags, from);
            let next = past(flags, from, index_scans(*j.left));
            each_note_marks_its_scan(*j.right, flags, next);
            two_lists_are_covered(
                coverings(marked(*j.left, flags, from)),
                coverings(*j.left),
                coverings(marked(*j.right, flags, next)),
                coverings(*j.right),
                flags,
                from,
                next,
            );
        },
        PlanNode::SetOp(s) => {
            each_note_marks_its_scan(*s.left, flags, from);
            let next = past(flags, from, index_scans(*s.left));
            each_note_marks_its_scan(*s.right, flags, next);
            two_lists_are_covered(
                coverings(marked(*s.left, flags, from)),
                coverings(*s.left),
                coverings(marked(*s.right, flags, next)),
                coverings(*s.right),
                flags,
                from,
                next,
            );
        },
        PlanNode::Insert(i) => each_note_marks_its_scan(*i.source, flags, from),
        PlanNode::Update(u) => each_note_marks_its_scan(*u.scan, flags, from),
        PlanNode::Delete(d) => each_note_marks_its_scan(*d.scan, flags, from),
        PlanNode::InsteadOf(io) => each_note_marks_its_scan(*io.frame_source, flags, from),
        _ => {},
    }
}

/// Whether it is all one to an engine if it takes the rows of an index scan from the index alone,
/// and whether it runs a change of rows on equal frames alike.
pub open spec fn heeds_no_covering(e: Engine) -> bool {
    forall|s: IndexScan, t: IndexScan|
        #![trigger (e.scan)(PlanNode::IndexScan(s)), (e.scan)(PlanNode::IndexScan(t))]
        t == (IndexScan { covering: t.covering, ..s }) ==> (e.scan)(PlanNode::IndexScan(s)) == (
        e.scan)(PlanNode::IndexScan(t))
}

/// Whether a node changes rows.
pub open spec fn changes(node: PlanNode) -> bool {
    node is Insert || node is Update || node is Delete || node is InsteadOf
}

/// Whether no operator of a row source changes rows.
pub open spec fn only_reads(node: PlanNode) -> bool
    decreases node,
{
    match node {
        PlanNode::Filter { input, .. } => only_reads(*input),
        PlanNode::Project { input, .. } => only_reads(*input),
        PlanNode::Sort { input, .. } => only_reads(*input),
        PlanNode::Limit { input, .. } => only_reads(*input),
        PlanNode::Distinct { input, .. } => only_reads(*input),
        PlanNode::Aggregate(a) => only_reads(*a.input),
        PlanNode::Window(w) => only_reads(*w.input),
        PlanNode::Join(j) => only_reads(*j.left) && only_reads(*j.right),
        PlanNode::SetOp(s) => only_reads(*s.left) && only_reads(*s.right),
        _ => !changes(node),
    }
}

/// A marked row source emits the rows that it emitted before.
pub proof fn marking_keeps_the_rows(e: Engine, node: PlanNode, flags: Seq<bool>, from: nat)
    requires
        heeds_no_covering(e),
        only_reads(node),
    ensures
        rows_of(e, marked(node, flags, from)) == rows_of(e, node),
    decreases node,
{
    match node {
        PlanNode::IndexScan(s) => {
            let t = marked(node, flags, from)->IndexScan_0;
            assert(t == (IndexScan { covering: t.covering, ..s }));
            assert((e.scan)(PlanNode::IndexScan(s)) == (e.scan)(PlanNode::IndexScan(t)));
        },
        PlanNode::Filter { input, .. } => marking_keeps_the_rows(e, *input, flags, from),
        PlanNode::Project { input, .. } => marking_keeps_the_rows(e, *input, flags, from),
        PlanNode::Sort { input, .. } => marking_keeps_the_rows(e, *input, flags, from),
        PlanNode::Limit { input, .. } => marking_keeps_the_rows(e, *input, flags, from),
        PlanNode::Distinct { input, .. } => marking_keeps_the_rows(e, *input, flags, from),
        PlanNode::Aggregate(a) => marking_keeps_the_rows(e, *a.input, flags, from),
        PlanNode::Window(w) => marking_keeps_the_rows(e, *w.input, flags, from),
        PlanNode::Join(j) => {
            marking_keeps_the_rows(e, *j.left, flags, from);
            marking_keeps_the_rows(e, *j.right, flags, past(flags, from, index_scans(*j.left)));
        },
        PlanNode::SetOp(s) => {
            marking_keeps_the_rows(e, *s.left, flags, from);
            marking_keeps_the_rows(e, *s.right, flags, past(flags, from, index_scans(*s.left)));
        },
        _ => {},
    }
}

/// Which index scans of a materialized body are covered.
pub open spec fn cte_coverings(c: CtePlan) -> Seq<bool> {
    match c {
        CtePlan::Materialized { body, .. } => coverings(body),
        CtePlan::Recursive { seed, step, .. } => coverings(seed) + coverings(step),
    }
}

/// Which index scans of a list of materialized bodies are covered.
pub open spec fn all_cte_coverings(cs: Seq<CtePlan>) -> Seq<bool>
    decreases cs.len(),
{
    if cs.len() == 0 {
        seq![]
    } else {
        all_cte_coverings(cs.drop_last()) + cte_coverings(cs.last())
    }
}

/// Which index scans of a list of subqueries are covered.
pub open spec fn all_sub_coverings(ss: Seq<SubPlan>) -> Seq<bool>
    decreases ss.len(),
{
    if ss.len() == 0 {
        seq![]
    } else {
        all_sub_coverings(ss.drop_last()) + coverings(ss.last().plan)
    }
}

/// Which index scans of a plan are covered: those of its root, of its materialized bodies and of
/// its subqueries, in that order.
pub open spec fn plan_coverings(p: Plan) -> Seq<bool> {
    coverings(p.root) + all_cte_coverings(p.ctes@) + all_sub_coverings(p.subqueries@)
}

proof fn a_body_is_marked(c: CtePlan, flags: Seq<bool>, from: nat)
    requires
        from <= flags.len(),
    ensures
        cte_scans(c) == cte_coverings(c).len(),
        covers_as_noted(
            cte_coverings(marked_cte(c, flags, from)),
            cte_coverings(c),
            flags,
            from as int,
        ),
{
    match c {
        CtePlan::Materialized { body, .. } => each_note_marks_its_scan(body, flags, from),
        CtePlan::Recursive { seed, step, .. } => {
            let next = past(flags, from, index_scans(seed));
            each_note_marks_its_scan(seed, flags, from);
            each_note_marks_its_scan(step, flags, next);
            two_lists_are_covered(
                coverings(marked(seed, flags, from)),
                coverings(seed),
                coverings(marked(step, flags, next)),
                coverings(step),
                flags,
                from,
                next,
            );
        },
    }
}

proof fn bodies_are_marked(cs: Seq<CtePlan>, flags: Seq<bool>, from: nat)
    requires
        from <= flags.len(),
    ensures
        covers_as_noted(
            all_cte_coverings(marked_ctes(cs, flags, from).0),
            all_cte_coverings(cs),
            flags,
            from as int,
        ),
        marked_ctes(cs, flags, from).1 == past(flags, from, all_cte_coverings(cs).len()),
    decreases cs.len(),
{
    if cs.len() > 0 {
        let init = cs.drop_last();
        let (out, at) = marked_ctes(init, flags, from);
        bodies_are_marked(init, flags, from);
        a_body_is_marked(cs.last(), flags, at);
        let whole = marked_ctes(cs, flags, from).0;
        assert(whole.drop_last() =~= out);
        two_lists_are_covered(
            all_cte_coverings(out),
            all_cte_coverings(init),
            cte_coverings(marked_cte(cs.last(), flags, at)),
            cte_coverings(cs.last()),
            flags,
            from,
            at,
        );
    }
}

proof fn subqueries_are_marked(ss: Seq<SubPlan>, flags: Seq<bool>, from: nat)
    requires
        from <= flags.len(),
    ensures
        covers_as_noted(
            all_sub_coverings(marked_subs(ss, flags, from).0),
            all_sub_coverings(ss),
            flags,
            from as int,
        ),
        marked_subs(ss, flags, from).1 == past(flags, from, all_sub_coverings(ss).len()),
    decreases ss.len(),
{
    if ss.len() > 0 {
        let init = ss.drop_last();
        let (out, at) = marked_subs(init, flags, from);
        subqueries_are_marked(init, flags, from);
        each_note_marks_its_scan(ss.last().plan, flags, at);
        let whole = marked_subs(ss, flags, from).0;
        assert(whole.drop_last() =~= out);
        two_lists_are_covered(
            all_sub_coverings(out),
            all_sub_coverings(init),
            coverings(marked(ss.last().plan, flags, at)),
            coverings(ss.last().plan),
            flags,
            from,
            at,
        );
    }
}

/// A noted root differs from the marked one in the actions of its triggers alone.
proof fn a_noted_root_is_marked(out: PlanNode, root: PlanNode, notes: PlanNotes)
    requires
        is_noted_root(out, root, notes),
    ensures
        coverings(out) == coverings(marked(root, notes.covering@, 0)),
{
}

/// A noted plan is covered, scan by scan, where its notes say so; it returns the columns that it
/// returned, changes rows where it did, and has the programs of the generated columns that the
/// notes give.
pub proof fn notes_cover_the_scans_they_are_on(out: Plan, p: Plan, notes: PlanNotes)
    requires
        is_noted(out, p, notes),
    ensures
        covers_as_noted(plan_coverings(out), plan_coverings(p), notes.covering@, 0),
        out.result_columns@ == p.result_columns@,
        out.mutates == p.mutates,
        out.generated@ == notes.generated@,
        out.ctes@.len() == p.ctes@.len(),
        out.subqueries@.len() == p.subqueries@.len(),
{
    let flags = notes.covering@;
    let next = past(flags, 0, index_scans(p.root));
    let (ctes, at) = marked_ctes(p.ctes@, flags, next);
    a_noted_root_is_marked(out.root, p.root, notes);
    each_note_marks_its_scan(p.root, flags, 0);
    bodies_are_marked(p.ctes@, flags, next);
    subqueries_are_marked(p.subqueries@, flags, at);
    two_lists_are_covered(
        coverings(out.root),
        coverings(p.root),
        all_cte_coverings(out.ctes@),
        all_cte_coverings(p.ctes@),
        flags,
        0,
        next,
    );
    two_lists_are_covered(
        coverings(out.root) + all_cte_coverings(out.ctes@),
        coverings(p.root) + all_cte_coverings(p.ctes@),
        all_sub_coverings(out.subqueries@),
        all_sub_coverings(p.subqueries@),
        flags,
        0,
        at,
    );
    marked_lists_are_as_long(p.ctes@, p.subqueries@, flags, next, at);
}

proof fn marked_lists_are_as_long(
    cs: Seq<CtePlan>,
    ss: Seq<SubPlan>,
    flags: Seq<bool>,
    from: nat,
    at: nat,
)
    ensures
        marked_ctes(cs, flags, from).0.len() == cs.len(),
        marked_subs(ss, flags, at).0.len() == ss.len(),
    decreases cs.len() + ss.len(),
{
    if cs.len() > 0 {
        marked_lists_are_as_long(cs.drop_last(), ss, flags, from, at);
    } else if ss.len() > 0 {
        marked_lists_are_as_long(cs, ss.drop_last(), flags, from, at);
    }
}

/// A noted trigger is the trigger it was, its name, time and condition, and has as many actions.
pub proof fn a_noted_trigger_stays_the_trigger(
    out: Seq<TriggerProgram>,
    ps: Seq<TriggerProgram>,
    actions: Seq<Vec<PlanNotes>>,
    i: int,
)
    requires
        are_noted_programs(out, ps, actions),
        0 <= i < ps.len(),
    ensures
        out.len() == ps.len(),
        out[i].name@ == ps[i].name@,
        out[i].timing == ps[i].timing,
        out[i].when == ps[i].when,
        out[i].actions@.len() == ps[i].actions@.len(),
{
    reveal_with_fuel(are_noted_programs, 2);
    assert(out[i] == (TriggerProgram { actions: out[i].actions, ..ps[i] }));
}

/// A noted change of rows changes the table that it changed, in the way that it did: its target,
/// its values, what it returns and what it does about conflicts stay.
pub proof fn a_noted_change_stays_the_change(out: PlanNode, root: PlanNode, notes: PlanNotes)
    requires
        is_noted_root(out, root, notes),
    ensures
        match root {
            PlanNode::Update(u) => out matches PlanNode::Update(o) && o.table == u.table && o.db
                == u.db && o.column_count == u.column_count && o.assignments == u.assignments
                && o.column_affinities == u.column_affinities && o.on_conflict == u.on_conflict
                && o.returning == u.returning && o.checks == u.checks && o.index_key_exprs
                == u.index_key_exprs && o.index_partial_predicates == u.index_partial_predicates
                && o.triggers@.len() == u.triggers@.len(),
            PlanNode::Delete(d) => out matches PlanNode::Delete(o) && o.table == d.table && o.db
                == d.db && o.column_count == d.column_count && o.returning == d.returning
                && o.index_key_exprs == d.index_key_exprs && o.index_partial_predicates
                == d.index_partial_predicates && o.triggers@.len() == d.triggers@.len(),
            PlanNode::InsteadOf(io) => out matches PlanNode::InsteadOf(o) && o.view == io.view
                && o.event == io.event && o.column_count == io.column_count && o.returning
                == io.returning && o.programs@.len() == io.programs@.len(),
            PlanNode::Insert(i) => out matches PlanNode::Insert(o) && o.table == i.table && o.db
                == i.db && o.column_count == i.column_count && o.columns == i.columns
                && o.source_width == i.source_width && o.column_affinities == i.column_affinities
                && o.on_conflict == i.on_conflict && o.returning == i.returning && o.checks
                == i.checks && o.rowid_source == i.rowid_source && o.upsert == i.upsert
                && o.index_key_exprs == i.index_key_exprs && o.index_partial_predicates
                == i.index_partial_predicates && o.triggers@.len() == i.triggers@.len(),
            _ => true,
        },
{
    reveal_with_fuel(is_noted_root, 2);
    reveal_with_fuel(are_noted_programs, 2);
}

/// An action of a trigger is covered where its own notes say so, and stays as it is where it has
/// none.
pub proof fn an_action_is_noted_by_its_own_notes(
    out: Seq<TriggerProgram>,
    ps: Seq<TriggerProgram>,
    actions: Seq<Vec<PlanNotes>>,
    i: int,
    j: int,
)
    requires
        are_noted_programs(out, ps, actions),
        0 <= i < ps.len(),
        0 <= j < ps[i].actions@.len(),
    ensures
        covers_as_noted(
            plan_coverings(out[i].actions@[j]),
            plan_coverings(ps[i].actions@[j]),
            if i < actions.len() && j < actions[i]@.len() {
                actions[i]@[j].covering@
            } else {
                seq![]
            },
            0,
        ),
{
    reveal_with_fuel(are_noted_programs, 2);
    assert(out[i] == (TriggerProgram { actions: out[i].actions, ..ps[i] }));
    let found = trigger_notes(actions, i);
    assert(are_noted_plans(out[i].actions@, ps[i].actions@, found));
    reveal_with_fuel(are_noted_plans, 2);
    if j < found.len() {
        assert(is_noted(out[i].actions@[j], ps[i].actions@[j], found[j]));
        notes_cover_the_scans_they_are_on(out[i].actions@[j], ps[i].actions@[j], found[j]);
    }
}

} // verus!
