//! A copy of a plan does what the plan does.

#[allow(unused_imports)]
use vstd::prelude::*;
use crate::access::{IndexScan, RowidScan, SeqScan};
use crate::compile::meaning::{
    by_keys, keeps, key_value, keys_before, rows_of, values_on, with_windows, Engine, GroupHead,
    JoinHead, Row,
};
use crate::compile::notes_law::only_reads;
use crate::copies::{same_ctes, same_parts, same_plans, same_programs, same_subs, Part};
use crate::expr::{AggregateCall, EvalExpr, SortKey};
use crate::plan::{
    CtePlan, Delete, Insert, InsteadOf, JsonTableKind, Plan, PlanNode, SubPlan, TriggerProgram,
    Update, WindowFunc,
};
use crate::types::Collation;

verus! {

/// Whether two aggregations group by and compute the same.
pub open spec fn one_head(a: GroupHead, b: GroupHead) -> bool {
    &&& same_parts(a.group_by, b.group_by)
    &&& a.group_collations == b.group_collations
    &&& same_parts(a.aggregates, b.aggregates)
    &&& a.minmax_bare.same(b.minmax_bare)
    &&& a.bare_arbitrary.same(b.bare_arbitrary)
}

/// Whether two joins pair rows in the same way.
pub open spec fn one_join(a: JoinHead, b: JoinHead) -> bool {
    &&& a.left_width == b.left_width
    &&& a.right_width == b.right_width
    &&& a.join_type == b.join_type
    &&& a.on.same(b.on)
    &&& a.strategy.same(b.strategy)
}

/// Whether an engine gives the same for parts that are the same.
pub open spec fn heeds_parts(e: Engine) -> bool {
    &&& forall|a: PlanNode, b: PlanNode|
        #![trigger (e.scan)(a), (e.scan)(b)]
        a.same(b) ==> (e.scan)(a) == (e.scan)(b)
    &&& forall|a: GroupHead, b: GroupHead, rows: Seq<Row>|
        #![trigger (e.groups)(a, rows), (e.groups)(b, rows)]
        one_head(a, b) ==> (e.groups)(a, rows) == (e.groups)(b, rows)
    &&& forall|a: JoinHead, b: JoinHead, left: Seq<Row>, right: Seq<Row>|
        #![trigger (e.join)(a, left, right), (e.join)(b, left, right)]
        one_join(a, b) ==> (e.join)(a, left, right) == (e.join)(b, left, right)
    &&& forall|a: WindowFunc, b: WindowFunc, rows: Seq<Row>, i: int|
        #![trigger (e.window)(a, rows, i), (e.window)(b, rows, i)]
        a.same(b) ==> (e.window)(a, rows, i) == (e.window)(b, rows, i)
    &&& forall|
        kind: JsonTableKind,
        a: EvalExpr,
        b: EvalExpr,
        p: Option<EvalExpr>,
        q: Option<EvalExpr>,
        n: usize,
    |
        #![trigger (e.document)(kind, a, p, n), (e.document)(kind, b, q, n)]
        a.tree() == b.tree() && p.same(q) ==> (e.document)(kind, a, p, n) == (e.document)(
            kind,
            b,
            q,
            n,
        )
}

proof fn same_values(e: Engine, a: Seq<EvalExpr>, b: Seq<EvalExpr>, r: Row)
    requires
        same_parts(a, b),
    ensures
        values_on(e, a, r) == values_on(e, b, r),
{
    assert forall|i: int| 0 <= i < a.len() implies #[trigger] values_on(e, a, r)[i] == values_on(
        e,
        b,
        r,
    )[i] by {
        assert(a[i].same(b[i]));
    }
    assert(values_on(e, a, r) =~= values_on(e, b, r));
}

proof fn same_order(e: Engine, a: Seq<SortKey>, b: Seq<SortKey>, x: Row, y: Row, i: int)
    requires
        same_parts(a, b),
        0 <= i <= a.len(),
    ensures
        keys_before(e, a, x, y, i) == keys_before(e, b, x, y, i),
    decreases a.len() - i,
{
    if i < a.len() {
        assert(a[i].same(b[i]));
        assert(key_value(e, a[i], x) == key_value(e, b[i], x));
        assert(key_value(e, a[i], y) == key_value(e, b[i], y));
        same_order(e, a, b, x, y, i + 1);
    }
}

proof fn same_collations(a: Seq<Collation>, b: Seq<Collation>)
    requires
        same_parts(a, b),
    ensures
        a == b,
{
    assert forall|i: int| 0 <= i < a.len() implies a[i] == b[i] by {
        assert(a[i].same(b[i]));
    }
    assert(a =~= b);
}

/// A copy of a row source emits the rows that the row source emits.
pub proof fn a_copy_emits_the_same_rows(e: Engine, a: PlanNode, b: PlanNode)
    requires
        heeds_parts(e),
        a.same(b),
        only_reads(a),
    ensures
        rows_of(e, a) == rows_of(e, b),
    decreases a,
{
    reveal_with_fuel(PlanNode::same, 3);
    match (a, b) {
        (
            PlanNode::Filter { input, predicate },
            PlanNode::Filter { input: other, predicate: p },
        ) => {
            a_copy_emits_the_same_rows(e, *input, *other);
            assert(predicate.tree() == p.tree());
            assert((|r: Row| keeps(e, predicate, r)) =~= (|r: Row|
                keeps(e, p, r)));
        },
        (PlanNode::Project { input, exprs }, PlanNode::Project { input: other, exprs: xs }) => {
            a_copy_emits_the_same_rows(e, *input, *other);
            assert((|r: Row| values_on(e, exprs@, r)) =~= (|r: Row| values_on(e, xs@, r))) by {
                assert forall|r: Row| values_on(e, exprs@, r) == values_on(e, xs@, r) by {
                    same_values(e, exprs@, xs@, r);
                }
            }
        },
        (
            PlanNode::Sort { input, keys, limit },
            PlanNode::Sort { input: other, keys: ks, limit: l },
        ) => {
            a_copy_emits_the_same_rows(e, *input, *other);
            assert(by_keys(e, keys@) =~= by_keys(e, ks@)) by {
                assert forall|x: Row, y: Row| keys_before(e, keys@, x, y, 0) == keys_before(
                    e,
                    ks@,
                    x,
                    y,
                    0,
                ) by {
                    same_order(e, keys@, ks@, x, y, 0);
                }
            }
            if let Some(x) = limit {
                assert(x.same(l->Some_0));
            }
        },
        (PlanNode::Limit { input, .. }, PlanNode::Limit { input: other, .. }) => {
            a_copy_emits_the_same_rows(e, *input, *other);
        },
        (
            PlanNode::Distinct { input, column_collations },
            PlanNode::Distinct { input: other, column_collations: cs },
        ) => {
            a_copy_emits_the_same_rows(e, *input, *other);
            same_collations(column_collations@, cs@);
        },
        (PlanNode::Aggregate(x), PlanNode::Aggregate(y)) => {
            a_copy_emits_the_same_rows(e, *x.input, *y.input);
            same_collations(x.group_collations@, y.group_collations@);
            if let Some(p) = x.having {
                let q = y.having->Some_0;
                assert(p.tree() == q.tree());
                assert((|r: Row| keeps(e, p, r)) =~= (|r: Row|
                    keeps(e, q, r)));
            }
            let h = GroupHead {
                group_by: x.group_by@,
                group_collations: x.group_collations@,
                aggregates: x.aggregates@,
                minmax_bare: x.minmax_bare,
                bare_arbitrary: x.bare_arbitrary,
            };
            let k = GroupHead {
                group_by: y.group_by@,
                group_collations: y.group_collations@,
                aggregates: y.aggregates@,
                minmax_bare: y.minmax_bare,
                bare_arbitrary: y.bare_arbitrary,
            };
            let rows = rows_of(e, *x.input);
            assert(one_head(h, k));
            assert((e.groups)(h, rows) == (e.groups)(k, rows));
        },
        (PlanNode::Window(x), PlanNode::Window(y)) => {
            a_copy_emits_the_same_rows(e, *x.input, *y.input);
            let rows = rows_of(e, *x.input);
            let p = with_windows(e, x.functions@, rows);
            let q = with_windows(e, y.functions@, rows);
            assert forall|i: int| 0 <= i < rows.len() implies #[trigger] p[i] == q[i] by {
                assert forall|k: int| 0 <= k < x.functions@.len() implies (e.window)(
                    #[trigger] x.functions@[k],
                    rows,
                    i,
                ) == (e.window)(y.functions@[k], rows, i) by {
                    assert(x.functions@[k].same(y.functions@[k]));
                }
                assert(p[i] =~= q[i]);
            }
            assert(p =~= q);
        },
        (PlanNode::Join(x), PlanNode::Join(y)) => {
            a_copy_emits_the_same_rows(e, *x.left, *y.left);
            a_copy_emits_the_same_rows(e, *x.right, *y.right);
            let h = JoinHead {
                left_width: x.left_width,
                right_width: x.right_width,
                join_type: x.join_type,
                on: x.on,
                strategy: x.strategy,
            };
            let k = JoinHead {
                left_width: y.left_width,
                right_width: y.right_width,
                join_type: y.join_type,
                on: y.on,
                strategy: y.strategy,
            };
            assert(one_join(h, k));
            let left = rows_of(e, *x.left);
            let right = rows_of(e, *x.right);
            assert((e.join)(h, left, right) == (e.join)(k, left, right));
        },
        (PlanNode::SetOp(x), PlanNode::SetOp(y)) => {
            a_copy_emits_the_same_rows(e, *x.left, *y.left);
            a_copy_emits_the_same_rows(e, *x.right, *y.right);
            same_collations(x.column_collations@, y.column_collations@);
        },
        (PlanNode::Values { rows }, PlanNode::Values { rows: other }) => {
            let p = rows_of(e, a);
            let q = rows_of(e, b);
            assert forall|i: int| 0 <= i < rows@.len() implies #[trigger] p[i] == q[i] by {
                assert(rows@[i].same(other@[i]));
                same_values(e, rows@[i]@, other@[i]@, seq![]);
            }
            assert(p =~= q);
        },
        (PlanNode::TableFunctionScan { .. }, _) => {},
        (PlanNode::SingleRow, _) => {},
        _ => {
            assert((e.scan)(a) == (e.scan)(b));
        },
    }
}

/// A copy of a scan reads the same table in the same way.
pub proof fn a_copied_scan_reads_the_same_table(
    a: SeqScan,
    b: SeqScan,
    c: RowidScan,
    d: RowidScan,
    f: IndexScan,
    g: IndexScan,
)
    requires
        a.same(b),
        c.same(d),
        f.same(g),
    ensures
        a.table@ == b.table@ && a.db == b.db && a.column_count == b.column_count,
        c.table@ == d.table@ && c.db == d.db && c.column_count == d.column_count && c.direction
            == d.direction && (c.op is Eq <==> d.op is Eq),
        c.op is Eq ==> c.op->Eq_0.tree() == d.op->Eq_0.tree(),
        c.op is Range ==> (c.op->Range_lo is Some <==> d.op->Range_lo is Some) && (
        c.op->Range_hi is Some <==> d.op->Range_hi is Some),
        c.op is Range && c.op->Range_lo is Some ==> c.op->Range_lo->Some_0.value.tree()
            == d.op->Range_lo->Some_0.value.tree() && c.op->Range_lo->Some_0.inclusive
            == d.op->Range_lo->Some_0.inclusive,
        c.op is Range && c.op->Range_hi is Some ==> c.op->Range_hi->Some_0.value.tree()
            == d.op->Range_hi->Some_0.value.tree() && c.op->Range_hi->Some_0.inclusive
            == d.op->Range_hi->Some_0.inclusive,
        f.table@ == g.table@ && f.db == g.db && f.column_count == g.column_count && f.index@
            == g.index@ && f.direction == g.direction && f.covering == g.covering && (
        f.op is Seek <==> g.op is Seek),
        f.op is Seek ==> f.op->Seek_eq_prefix@.len() == g.op->Seek_eq_prefix@.len() && (
        f.op->Seek_lo is Some <==> g.op->Seek_lo is Some) && (f.op->Seek_hi is Some
            <==> g.op->Seek_hi is Some),
        f.op is Seek ==> forall|i: int|
            0 <= i < f.op->Seek_eq_prefix@.len() ==> (#[trigger] f.op->Seek_eq_prefix@[i]).tree()
                == g.op->Seek_eq_prefix@[i].tree(),
{
}

/// A copy of an aggregate call is a call of the same aggregate on the same arguments, and a copy of
/// a window function runs over the same partitions, order and frame.
pub proof fn a_copied_call_computes_the_same(
    a: AggregateCall,
    b: AggregateCall,
    f: WindowFunc,
    g: WindowFunc,
)
    requires
        a.same(b),
        f.same(g),
    ensures
        a.func@ == b.func@,
        a.distinct == b.distinct,
        a.args@.len() == b.args@.len(),
        a.arg_collations@ == b.arg_collations@,
        a.filter is Some <==> b.filter is Some,
        a.filter is Some ==> a.filter->Some_0.tree() == b.filter->Some_0.tree(),
        a.order_by@.len() == b.order_by@.len(),
        forall|i: int|
            0 <= i < a.args@.len() ==> (#[trigger] a.args@[i]).tree() == b.args@[i].tree(),
        f.partition_collations@ == g.partition_collations@,
        f.partition_by@.len() == g.partition_by@.len(),
        f.order_by@.len() == g.order_by@.len(),
        f.frame.units == g.frame.units,
        f.frame.exclude == g.frame.exclude,
        f.frame.start is UnboundedPreceding <==> g.frame.start is UnboundedPreceding,
        f.frame.start is CurrentRow <==> g.frame.start is CurrentRow,
        f.frame.start is Preceding <==> g.frame.start is Preceding,
        f.frame.end is UnboundedFollowing <==> g.frame.end is UnboundedFollowing,
        f.frame.end is CurrentRow <==> g.frame.end is CurrentRow,
        f.frame.end is Following <==> g.frame.end is Following,
        forall|i: int|
            0 <= i < f.order_by@.len() ==> (#[trigger] f.order_by@[i]).desc == g.order_by@[i].desc
                && f.order_by@[i].nulls_first == g.order_by@[i].nulls_first
                && f.order_by@[i].collation == g.order_by@[i].collation
                && f.order_by@[i].expr.tree() == g.order_by@[i].expr.tree(),
{
    same_collations(a.arg_collations@, b.arg_collations@);
    same_collations(f.partition_collations@, g.partition_collations@);
    assert forall|i: int| 0 <= i < f.order_by@.len() implies (#[trigger] f.order_by@[i]).desc
        == g.order_by@[i].desc && f.order_by@[i].nulls_first == g.order_by@[i].nulls_first
        && f.order_by@[i].collation == g.order_by@[i].collation && f.order_by@[i].expr.tree()
        == g.order_by@[i].expr.tree() by {
        assert(f.order_by@[i].same(g.order_by@[i]));
    }
    assert forall|i: int| 0 <= i < a.args@.len() implies (#[trigger] a.args@[i]).tree()
        == b.args@[i].tree() by {
        assert(a.args@[i].same(b.args@[i]));
    }
}

/// A copy of a subquery reads the outer row as the subquery does, and a copy of a trigger fires when
/// the trigger does.
pub proof fn a_copied_subquery_reads_the_same_row(
    a: SubPlan,
    b: SubPlan,
    p: TriggerProgram,
    q: TriggerProgram,
)
    requires
        a.same(b),
        p.same(q),
    ensures
        a.correlated == b.correlated,
        a.deterministic == b.deterministic,
        a.outer_width == b.outer_width,
        a.correlated_cols@ == b.correlated_cols@,
        a.plan.same(b.plan),
        p.name@ == q.name@,
        p.timing == q.timing,
        p.when is Some <==> q.when is Some,
        p.when is Some ==> p.when->Some_0.tree() == q.when->Some_0.tree(),
        p.actions@.len() == q.actions@.len(),
{
    reveal_with_fuel(SubPlan::same, 2);
    reveal_with_fuel(TriggerProgram::same, 2);
    reveal_with_fuel(same_plans, 2);
    assert forall|i: int| 0 <= i < a.correlated_cols@.len() implies a.correlated_cols@[i]
        == b.correlated_cols@[i] by {
        assert(a.correlated_cols@[i].same(b.correlated_cols@[i]));
    }
    assert(a.correlated_cols@ =~= b.correlated_cols@);
}

/// A copy of a plan returns the same columns, changes data where the plan does, and has as many
/// bodies and subqueries; a copy of an update changes the same columns of the same table.
pub proof fn a_copied_plan_has_the_same_parts(a: Plan, b: Plan, u: Update, v: Update, i: int)
    requires
        a.same(b),
        u.same(v),
    ensures
        a.mutates == b.mutates,
        a.root.same(b.root),
        a.result_columns@ == b.result_columns@,
        a.ctes@.len() == b.ctes@.len(),
        a.subqueries@.len() == b.subqueries@.len(),
        a.generated@.len() == b.generated@.len(),
        0 <= i < a.subqueries@.len() ==> a.subqueries@[i].same(b.subqueries@[i]),
        0 <= i < a.ctes@.len() ==> a.ctes@[i].same(b.ctes@[i]),
        u.table@ == v.table@,
        u.db == v.db,
        u.column_count == v.column_count,
        u.on_conflict == v.on_conflict,
        u.assignments@.len() == v.assignments@.len(),
        0 <= i < u.assignments@.len() ==> u.assignments@[i].0 == v.assignments@[i].0
            && u.assignments@[i].1.tree() == v.assignments@[i].1.tree(),
        u.returning@.len() == v.returning@.len(),
        0 <= i < u.returning@.len() ==> u.returning@[i].tree() == v.returning@[i].tree(),
        (*u.scan).same(*v.scan),
        u.triggers@.len() == v.triggers@.len(),
        0 <= i < u.triggers@.len() ==> u.triggers@[i].same(v.triggers@[i]),
{
    reveal_with_fuel(Plan::same, 2);
    reveal_with_fuel(Update::same, 2);
    reveal_with_fuel(same_ctes, 2);
    reveal_with_fuel(same_subs, 2);
    reveal_with_fuel(same_programs, 2);
    assert forall|k: int| 0 <= k < a.result_columns@.len() implies a.result_columns@[k]
        == b.result_columns@[k] by {
        assert(a.result_columns@[k].same(b.result_columns@[k]));
    }
    assert(a.result_columns@ =~= b.result_columns@);
    if 0 <= i < u.assignments@.len() {
        assert(u.assignments@[i].same(v.assignments@[i]));
    }
    if 0 <= i < u.returning@.len() {
        assert(u.returning@[i].same(v.returning@[i]));
    }
}

/// A copy of a delete, or of a change through the triggers of a view, is one of the same rows of the
/// same target.
pub proof fn a_copied_change_has_the_same_target(
    d: Delete,
    f: Delete,
    n: InsteadOf,
    m: InsteadOf,
    c: CtePlan,
    k: CtePlan,
)
    requires
        d.same(f),
        n.same(m),
        c.same(k),
    ensures
        d.table@ == f.table@,
        d.db == f.db,
        d.column_count == f.column_count,
        (*d.scan).same(*f.scan),
        d.returning@.len() == f.returning@.len(),
        d.triggers@.len() == f.triggers@.len(),
        n.view@ == m.view@,
        n.event == m.event,
        n.column_count == m.column_count,
        (*n.frame_source).same(*m.frame_source),
        n.returning@.len() == m.returning@.len(),
        n.programs@.len() == m.programs@.len(),
        c is Materialized <==> k is Materialized,
        c is Materialized ==> c->Materialized_name@ == k->Materialized_name@
            && c->Materialized_column_count == k->Materialized_column_count
            && c->Materialized_body.same(k->Materialized_body),
        c is Recursive ==> c->Recursive_seed.same(k->Recursive_seed) && c->Recursive_step.same(
            k->Recursive_step,
        ) && c->Recursive_union_all == k->Recursive_union_all && c->Recursive_column_count
            == k->Recursive_column_count,
{
    reveal_with_fuel(Delete::same, 2);
    reveal_with_fuel(InsteadOf::same, 2);
    reveal_with_fuel(CtePlan::same, 2);
    reveal_with_fuel(same_programs, 2);
}

/// A copy of an insert puts the same values into the same columns of the same table.
pub proof fn a_copied_insert_has_the_same_target(a: Insert, b: Insert, i: int)
    requires
        a.same(b),
    ensures
        a.table@ == b.table@,
        a.db == b.db,
        a.column_count == b.column_count,
        a.source_width == b.source_width,
        a.on_conflict == b.on_conflict,
        a.rowid_source == b.rowid_source,
        (*a.source).same(*b.source),
        a.columns is Some <==> b.columns is Some,
        a.columns is Some ==> a.columns->Some_0@.len() == b.columns->Some_0@.len(),
        a.columns is Some && 0 <= i < a.columns->Some_0@.len() ==> a.columns->Some_0@[i]
            == b.columns->Some_0@[i],
        a.upsert is Some <==> b.upsert is Some,
        a.returning@.len() == b.returning@.len(),
        0 <= i < a.returning@.len() ==> a.returning@[i].tree() == b.returning@[i].tree(),
        a.triggers@.len() == b.triggers@.len(),
        0 <= i < a.triggers@.len() ==> a.triggers@[i].same(b.triggers@[i]),
        a.checks@.len() == b.checks@.len(),
        a.column_affinities@.len() == b.column_affinities@.len(),
        0 <= i < a.column_affinities@.len() ==> a.column_affinities@[i] == b.column_affinities@[i],
{
    reveal_with_fuel(Insert::same, 2);
    reveal_with_fuel(same_programs, 2);
    if 0 <= i < a.returning@.len() {
        assert(a.returning@[i].same(b.returning@[i]));
    }
    if a.columns is Some && 0 <= i < a.columns->Some_0@.len() {
        assert(a.columns->Some_0@[i].same(b.columns->Some_0@[i]));
    }
    if 0 <= i < a.column_affinities@.len() {
        assert(a.column_affinities@[i].same(b.column_affinities@[i]));
    }
}

} // verus!
