//! The rows that a plan emits, and how sorting, filtering and limiting relate them.
//!
//! What the parts of a plan give that the planner does not look into (a scan, a join, the groups
//! of an aggregation, the result of a window function) is left to an [`Engine`]; what the planner
//! builds over them has its meaning here.

#[allow(unused_imports)]
use vstd::prelude::*;
use crate::compile::limit::{limited, retained};
use crate::compile::order_law::{key_before, Cell};
use crate::expr::{AggregateCall, EvalExpr, ExprNode, ExprTree, SortKey};
use crate::plan::{
    JoinStrategy, JoinType, JsonTableKind, MinMaxBare, PlanNode, SetOpKind, WindowFunc,
};
use crate::types::Collation;

verus! {

/// A row of registers.
pub type Row = Seq<Cell>;

/// What an aggregation groups by and computes, apart from which groups it passes on.
pub struct GroupHead {
    pub group_by: Seq<EvalExpr>,
    pub group_collations: Seq<Collation>,
    pub aggregates: Seq<AggregateCall>,
    pub minmax_bare: Option<MinMaxBare>,
    pub bare_arbitrary: Option<Vec<usize>>,
}

/// How a join pairs rows.
pub struct JoinHead {
    pub left_width: usize,
    pub right_width: usize,
    pub join_type: JoinType,
    pub on: Option<EvalExpr>,
    pub strategy: JoinStrategy,
}

/// What runs a plan.
pub struct Engine {
    /// The width of the outer row that the rows of a plan follow.
    pub outer: usize,
    /// The value of an expression on a row.
    pub eval: spec_fn(ExprTree, Row) -> Cell,
    /// Whether a value counts as true.
    pub truth: spec_fn(Cell) -> bool,
    /// A value as a collation compares it.
    pub collated: spec_fn(Collation, Cell) -> Cell,
    /// The number that an expression of a `LIMIT` gives where a limit evaluates it, or where the
    /// sort under the limit does, which is at another moment.
    pub count: spec_fn(ExprTree, bool) -> int,
    /// The rows of a leaf.
    pub scan: spec_fn(PlanNode) -> Seq<Row>,
    /// The rows of a document, but for its hidden column.
    pub document: spec_fn(JsonTableKind, EvalExpr, Option<EvalExpr>, usize) -> Seq<Row>,
    pub join: spec_fn(JoinHead, Seq<Row>, Seq<Row>) -> Seq<Row>,
    pub combine: spec_fn(SetOpKind, Seq<Collation>, Seq<Row>, Seq<Row>) -> Seq<Row>,
    /// The groups of rows, one row for each.
    pub groups: spec_fn(GroupHead, Seq<Row>) -> Seq<Row>,
    /// The result of a window function for one of the rows it runs over.
    pub window: spec_fn(WindowFunc, Seq<Row>, int) -> Cell,
}

/// Whether a predicate keeps a row.
pub open spec fn keeps(e: Engine, predicate: EvalExpr, r: Row) -> bool {
    (e.truth)((e.eval)(predicate.tree(), r))
}

/// The values of a list of expressions on a row.
pub open spec fn values_on(e: Engine, exprs: Seq<EvalExpr>, r: Row) -> Row {
    exprs.map_values(|x: EvalExpr| (e.eval)(x.tree(), r))
}

/// Each row with the results of the window functions appended.
pub open spec fn with_windows(e: Engine, functions: Seq<WindowFunc>, rows: Seq<Row>) -> Seq<Row> {
    Seq::new(
        rows.len(),
        |i: int| rows[i] + functions.map_values(|f: WindowFunc| (e.window)(f, rows, i)),
    )
}

/// What a row is ordered by under a key.
pub open spec fn key_value(e: Engine, key: SortKey, r: Row) -> Cell {
    (e.collated)(key.collation, (e.eval)(key.expr.tree(), r))
}

/// Whether `a` comes strictly before `b` under the keys from position `i` on: at the first of
/// them on which they differ.
pub open spec fn keys_before(e: Engine, keys: Seq<SortKey>, a: Row, b: Row, i: int) -> bool
    decreases keys.len() - i,
{
    if i >= keys.len() {
        false
    } else if key_value(e, keys[i], a) == key_value(e, keys[i], b) {
        keys_before(e, keys, a, b, i + 1)
    } else {
        key_before(keys[i], key_value(e, keys[i], a), key_value(e, keys[i], b))
    }
}

/// The order of a list of keys.
pub open spec fn by_keys(e: Engine, keys: Seq<SortKey>) -> spec_fn(Row, Row) -> bool {
    |a: Row, b: Row| keys_before(e, keys, a, b, 0)
}

/// A sorted sequence with `x` put behind everything that it does not come before.
pub open spec fn put<A>(before: spec_fn(A, A) -> bool, s: Seq<A>, x: A) -> Seq<A>
    decreases s.len(),
{
    if s.len() > 0 && before(x, s.last()) {
        put(before, s.drop_last(), x).push(s.last())
    } else {
        s.push(x)
    }
}

/// A sequence sorted stably.
pub open spec fn sorted_by<A>(before: spec_fn(A, A) -> bool, s: Seq<A>) -> Seq<A>
    decreases s.len(),
{
    if s.len() == 0 {
        s
    } else {
        put(before, sorted_by(before, s.drop_last()), s.last())
    }
}

/// Whether two rows are the same under the collations of their columns.
pub open spec fn alike(e: Engine, collations: Seq<Collation>, a: Row, b: Row) -> bool {
    &&& a.len() == b.len()
    &&& forall|i: int|
        0 <= i < a.len() ==> (e.collated)(collations[i], #[trigger] a[i]) == (e.collated)(
            collations[i],
            b[i],
        )
}

/// The rows that are like no row before them.
pub open spec fn without_repeats(e: Engine, collations: Seq<Collation>, rows: Seq<Row>) -> Seq<Row>
    decreases rows.len(),
{
    if rows.len() == 0 {
        rows
    } else {
        let before = without_repeats(e, collations, rows.drop_last());
        if exists|i: int|
            0 <= i < before.len() && alike(e, collations, #[trigger] before[i], rows.last()) {
            before
        } else {
            before.push(rows.last())
        }
    }
}

/// The number that an optional expression of a `LIMIT` gives: none is no bound.
pub open spec fn counted(e: Engine, x: Option<EvalExpr>, at_limit: bool, absent: int) -> int {
    match x {
        Some(x) => (e.count)(x.tree(), at_limit),
        None => absent,
    }
}

/// The rows that a plan emits, in order.
pub open spec fn rows_of(e: Engine, node: PlanNode) -> Seq<Row>
    decreases node,
{
    match node {
        PlanNode::Filter { input, predicate } => rows_of(e, *input).filter(
            |r: Row| keeps(e, predicate, r),
        ),
        PlanNode::Project { input, exprs } => rows_of(e, *input).map_values(
            |r: Row| values_on(e, exprs@, r),
        ),
        PlanNode::Sort { input, keys, limit } => {
            let all = sorted_by(by_keys(e, keys@), rows_of(e, *input));
            match limit {
                Some(b) => retained(
                    all,
                    (e.count)(b.limit.tree(), false),
                    counted(e, b.offset, false, 0),
                ),
                None => all,
            }
        },
        PlanNode::Limit { input, limit, offset } => limited(
            rows_of(e, *input),
            counted(e, limit, true, -1),
            counted(e, offset, true, 0),
        ),
        PlanNode::Distinct { input, column_collations } => without_repeats(
            e,
            column_collations@,
            rows_of(e, *input),
        ),
        PlanNode::Aggregate(a) => {
            let head = GroupHead {
                group_by: a.group_by@,
                group_collations: a.group_collations@,
                aggregates: a.aggregates@,
                minmax_bare: a.minmax_bare,
                bare_arbitrary: a.bare_arbitrary,
            };
            let groups = (e.groups)(head, rows_of(e, *a.input));
            match a.having {
                Some(p) => groups.filter(|r: Row| keeps(e, p, r)),
                None => groups,
            }
        },
        PlanNode::Window(w) => with_windows(e, w.functions@, rows_of(e, *w.input)),
        PlanNode::Join(j) => (e.join)(
            JoinHead {
                left_width: j.left_width,
                right_width: j.right_width,
                join_type: j.join_type,
                on: j.on,
                strategy: j.strategy,
            },
            rows_of(e, *j.left),
            rows_of(e, *j.right),
        ),
        PlanNode::SetOp(s) => (e.combine)(
            s.op,
            s.column_collations@,
            rows_of(e, *s.left),
            rows_of(e, *s.right),
        ),
        PlanNode::TableFunctionScan { kind, arg, path, column_count, .. } => (e.document)(
            kind,
            arg,
            path,
            column_count,
        ),
        PlanNode::Values { rows } => rows@.map_values(
            |row: Vec<EvalExpr>| values_on(e, row@, seq![]),
        ),
        PlanNode::SingleRow => seq![seq![]],
        _ => (e.scan)(node),
    }
}

/// Whether the value of a node may change while a statement runs, its operands staying the same: a
/// reading of the clock, a function that is not deterministic, a subquery, a `RAISE`.
pub open spec fn may_vary(node: ExprNode) -> bool {
    match node {
        ExprNode::Now(_) => true,
        ExprNode::Func { deterministic, .. } => !deterministic,
        ExprNode::InSubquery { .. } => true,
        ExprNode::InSubqueryRow { .. } => true,
        ExprNode::Exists { .. } => true,
        ExprNode::ScalarSubquery(_) => true,
        ExprNode::ScalarSubqueryColumn { .. } => true,
        ExprNode::Raise { .. } => true,
        _ => false,
    }
}

/// Whether no node of an expression may vary.
pub open spec fn steady(t: ExprTree) -> bool
    decreases t,
{
    &&& !may_vary(t.node)
    &&& forall|i: int| 0 <= i < t.operands.len() ==> steady(#[trigger] t.operands[i])
}

/// Whether an engine reads a register of a row where the row has it, and gives a steady expression
/// of a `LIMIT` one value.
pub open spec fn runs(e: Engine) -> bool {
    &&& forall|i: usize, r: Row|
        #![trigger (e.eval)(EvalExpr::Column(i).tree(), r)]
        i < r.len() ==> (e.eval)(EvalExpr::Column(i).tree(), r) == r[i as int]
    &&& forall|t: ExprTree|
        #![trigger (e.count)(t, false)]
        steady(t) ==> (e.count)(t, false) == (e.count)(t, true)
}

pub proof fn lemma_put_maps<A, B>(
    f: spec_fn(A) -> B,
    before: spec_fn(A, A) -> bool,
    mapped: spec_fn(B, B) -> bool,
    s: Seq<A>,
    x: A,
)
    requires
        forall|a: A, b: A| #[trigger] before(a, b) == mapped(f(a), f(b)),
    ensures
        put(mapped, s.map_values(f), f(x)) == put(before, s, x).map_values(f),
    decreases s.len(),
{
    if s.len() > 0 && before(x, s.last()) {
        lemma_put_maps(f, before, mapped, s.drop_last(), x);
        assert(s.map_values(f).drop_last() =~= s.drop_last().map_values(f));
        assert(s.map_values(f).last() == f(s.last()));
        assert(put(before, s, x).map_values(f) =~= put(before, s.drop_last(), x).map_values(f).push(
            f(s.last()),
        ));
    } else {
        if s.len() > 0 {
            assert(s.map_values(f).last() == f(s.last()));
        }
        assert(s.push(x).map_values(f) =~= s.map_values(f).push(f(x)));
    }
}

/// Sorting what rows are mapped to is mapping the sorted rows, where the two orders agree.
pub proof fn lemma_sort_maps<A, B>(
    f: spec_fn(A) -> B,
    before: spec_fn(A, A) -> bool,
    mapped: spec_fn(B, B) -> bool,
    s: Seq<A>,
)
    requires
        forall|a: A, b: A| #[trigger] before(a, b) == mapped(f(a), f(b)),
    ensures
        sorted_by(mapped, s.map_values(f)) == sorted_by(before, s).map_values(f),
    decreases s.len(),
{
    if s.len() == 0 {
        assert(s.map_values(f) =~= sorted_by(before, s).map_values(f));
    } else {
        lemma_sort_maps(f, before, mapped, s.drop_last());
        assert(s.map_values(f).drop_last() =~= s.drop_last().map_values(f));
        lemma_put_maps(f, before, mapped, sorted_by(before, s.drop_last()), s.last());
    }
}

/// An order in which nothing comes before anything leaves a sequence as it is.
pub proof fn lemma_sort_by_nothing<A>(before: spec_fn(A, A) -> bool, s: Seq<A>)
    requires
        forall|a: A, b: A| !#[trigger] before(a, b),
    ensures
        sorted_by(before, s) == s,
    decreases s.len(),
{
    if s.len() > 0 {
        lemma_sort_by_nothing(before, s.drop_last());
        assert(s.drop_last().push(s.last()) =~= s);
    }
}

proof fn lemma_put_agrees<A>(
    ok: spec_fn(A) -> bool,
    before: spec_fn(A, A) -> bool,
    other: spec_fn(A, A) -> bool,
    s: Seq<A>,
    x: A,
)
    requires
        forall|a: A, b: A| ok(a) && ok(b) ==> #[trigger] before(a, b) == other(a, b),
        forall|i: int| 0 <= i < s.len() ==> ok(#[trigger] s[i]),
        ok(x),
    ensures
        put(before, s, x) == put(other, s, x),
        forall|i: int| 0 <= i < put(before, s, x).len() ==> ok(#[trigger] put(before, s, x)[i]),
    decreases s.len(),
{
    if s.len() > 0 {
        assert(ok(s[s.len() - 1]));
        assert forall|i: int| 0 <= i < s.drop_last().len() implies ok(#[trigger] s.drop_last()[i]) by {
            assert(ok(s[i]));
        }
        lemma_put_agrees(ok, before, other, s.drop_last(), x);
    }
}

/// Two orders that agree on the elements of a sequence sort it alike.
pub proof fn lemma_sort_agrees<A>(
    ok: spec_fn(A) -> bool,
    before: spec_fn(A, A) -> bool,
    other: spec_fn(A, A) -> bool,
    s: Seq<A>,
)
    requires
        forall|a: A, b: A| ok(a) && ok(b) ==> #[trigger] before(a, b) == other(a, b),
        forall|i: int| 0 <= i < s.len() ==> ok(#[trigger] s[i]),
    ensures
        sorted_by(before, s) == sorted_by(other, s),
        forall|i: int| 0 <= i < sorted_by(before, s).len() ==> ok(#[trigger] sorted_by(before, s)[i]),
    decreases s.len(),
{
    if s.len() > 0 {
        assert forall|i: int| 0 <= i < s.drop_last().len() implies ok(#[trigger] s.drop_last()[i]) by {
            assert(ok(s[i]));
        }
        assert(ok(s[s.len() - 1]));
        lemma_sort_agrees(ok, before, other, s.drop_last());
        lemma_put_agrees(ok, before, other, sorted_by(before, s.drop_last()), s.last());
    }
}

/// A row without repeats is one of the rows.
pub proof fn lemma_no_repeats_are_rows(e: Engine, collations: Seq<Collation>, rows: Seq<Row>, n: nat)
    requires
        forall|i: int| 0 <= i < rows.len() ==> (#[trigger] rows[i]).len() == n,
    ensures
        ({
            let s = without_repeats(e, collations, rows);
            forall|i: int| 0 <= i < s.len() ==> (#[trigger] s[i]).len() == n
        }),
    decreases rows.len(),
{
    if rows.len() > 0 {
        let init = rows.drop_last();
        assert forall|i: int| 0 <= i < init.len() implies (#[trigger] init[i]).len() == n by {
            assert(rows[i].len() == n);
        }
        lemma_no_repeats_are_rows(e, collations, init, n);
        assert(rows[rows.len() - 1].len() == n);
        let before = without_repeats(e, collations, init);
        let s = without_repeats(e, collations, rows);
        assert forall|i: int| 0 <= i < s.len() implies (#[trigger] s[i]).len() == n by {
            if i < before.len() {
                assert(before[i].len() == n);
            }
        }
    } else {
        assert(without_repeats(e, collations, rows) == rows);
    }
}

/// What is kept of a mapped sequence is what is kept of it, mapped.
pub proof fn lemma_retained_maps<A, B>(f: spec_fn(A) -> B, s: Seq<A>, limit: int, offset: int)
    ensures
        retained(s.map_values(f), limit, offset) == retained(s, limit, offset).map_values(f),
{
    assert(retained(s.map_values(f), limit, offset) =~= retained(s, limit, offset).map_values(f));
}

} // verus!
