//! Expression subqueries.
//!
//! Whether a subquery reads the row of an enclosing query is known only once its names are
//! resolved. So it is first bound as if it did not, its own columns from register 0 on. If no
//! name resolved in an enclosing query, that is the plan. Else the trial is rolled back and the
//! subquery bound again with its own columns after the outer row.

#[allow(unused_imports)]
use vstd::prelude::*;
use vstd::string::StringExecFns;
use crate::catalog::Catalog;
use crate::compile::select::{compile_select_scoped, is_select, select_error, select_wf, Select};
use crate::error::Error;
use crate::plan::{PlanNode, SubPlan};
use crate::plan_ctx::{CtxView, Mark, PlanCtx, Savepoint};
use crate::text::{decimal, push_decimal};

verus! {

/// What binding the body of a subquery gave: its select, whether a name of it resolved in an
/// enclosing query, the outer registers those names resolved to, and whether it reads a clock
/// or calls a function that is not deterministic.
#[derive(Debug)]
pub struct BoundBody<'a> {
    pub select: Select<'a>,
    pub saw_correlated: bool,
    pub correlated_cols: Vec<usize>,
    pub nondeterministic: bool,
}

/// A subquery whose trial is under way.
pub struct SubplanTrial {
    start: Savepoint,
    sub_start: usize,
    outer_width: usize,
}

/// What comes after the trial.
#[derive(Debug)]
pub enum SubplanStep {
    /// The trial is the plan.
    Done(SubPlan, Vec<String>),
    /// Bind the body again with its own columns from this register on. Where the enclosing
    /// query groups, it has to be told that its output row is read by a subquery.
    Rebind { base_offset: usize },
}

/// Whether the tree reaches a scan of a materialized body.
pub open spec fn reaches_body(node: PlanNode) -> bool
    decreases node,
{
    match node {
        PlanNode::CteScan { .. } => true,
        PlanNode::RecursiveScan { .. } => true,
        PlanNode::Filter { input, .. } => reaches_body(*input),
        PlanNode::Project { input, .. } => reaches_body(*input),
        PlanNode::Sort { input, .. } => reaches_body(*input),
        PlanNode::Limit { input, .. } => reaches_body(*input),
        PlanNode::Distinct { input, .. } => reaches_body(*input),
        PlanNode::Aggregate(a) => reaches_body(*a.input),
        PlanNode::Window(w) => reaches_body(*w.input),
        PlanNode::Join(j) => reaches_body(*j.left) || reaches_body(*j.right),
        PlanNode::SetOp(s) => reaches_body(*s.left) || reaches_body(*s.right),
        _ => false,
    }
}

/// Whether every subquery from position `start` on is deterministic.
pub open spec fn deterministic_from(subqueries: Seq<SubPlan>, start: int) -> bool {
    forall|i: int| start <= i < subqueries.len() ==> (#[trigger] subqueries[i]).deterministic
}

/// Whether a body compiled to `plan` is known to be deterministic: it is so itself, so are the
/// subqueries nested in it, and it scans no materialized body, which nothing here looks into.
pub open spec fn known_deterministic(
    body: BoundBody<'_>,
    plan: PlanNode,
    subqueries: Seq<SubPlan>,
    start: int,
) -> bool {
    &&& !body.nondeterministic
    &&& deterministic_from(subqueries, start)
    &&& !reaches_body(plan)
}

/// Whether `out` lists the registers of `cols`, ascending and each once.
pub open spec fn ascending_set_of(out: Seq<usize>, cols: Seq<usize>) -> bool {
    &&& forall|i: int, j: int| 0 <= i < j < out.len() ==> #[trigger] out[i] < #[trigger] out[j]
    &&& forall|x: usize| #[trigger] out.contains(x) <==> cols.contains(x)
}

/// Whether `sub` is the plan of a body that reads no outer row, and `names` are its outputs.
pub open spec fn is_uncorrelated_plan(
    catalog: Catalog,
    sub: SubPlan,
    names: Vec<String>,
    body: BoundBody<'_>,
    subqueries: Seq<SubPlan>,
    start: int,
) -> bool {
    &&& is_select(catalog, Ok((sub.plan, names)), body.select, 0)
    &&& !sub.correlated
    &&& sub.correlated_cols@.len() == 0
    &&& sub.deterministic == known_deterministic(body, sub.plan, subqueries, start)
    &&& sub.outer_width == 0
}

/// Whether `sub` is the plan of a body bound after an outer row of width `outer_width`, and
/// `names` are its outputs.
pub open spec fn is_correlated_plan(
    catalog: Catalog,
    sub: SubPlan,
    names: Vec<String>,
    body: BoundBody<'_>,
    subqueries: Seq<SubPlan>,
    start: int,
    outer_width: usize,
) -> bool {
    &&& is_select(catalog, Ok((sub.plan, names)), body.select, outer_width)
    &&& sub.correlated
    &&& ascending_set_of(sub.correlated_cols@, body.correlated_cols@)
    &&& sub.deterministic == known_deterministic(body, sub.plan, subqueries, start)
    &&& sub.outer_width == outer_width
}

/// Whether the step after a trial that started at `start`, and the state after it, are what they
/// should be: a body that reads no outer row is done; else whatever the trial registered is
/// dropped and the body is bound again. A body that does not compile is an error either way.
pub open spec fn is_trial_step(
    catalog: Catalog,
    r: Result<SubplanStep, Error>,
    body: BoundBody<'_>,
    start: Mark,
    before: CtxView,
    after: CtxView,
    outer_width: usize,
) -> bool {
    match (r, select_error(body.select)) {
        (Ok(SubplanStep::Done(sub, names)), None) => {
            &&& !body.saw_correlated
            &&& is_uncorrelated_plan(
                catalog,
                sub,
                names,
                body,
                before.subqueries,
                start.subqueries as int,
            )
            &&& after == before
        },
        (Ok(SubplanStep::Rebind { base_offset }), None) => {
            &&& body.saw_correlated
            &&& base_offset == outer_width
            &&& after == before.back_to(start)
        },
        (Err(e), Some(text)) => e.text() == text && after == before,
        _ => false,
    }
}

/// Whether a trial starts where the statement stands, under an outer row of width `outer_width`.
pub open spec fn starts_at(start: Mark, width: usize, state: CtxView, outer_width: usize) -> bool {
    start == state.mark() && width == outer_width
}

/// Whether the outcome is that of a body bound again after the outer row.
pub open spec fn is_rebound(
    catalog: Catalog,
    r: CompiledSubquery,
    body: BoundBody<'_>,
    start: Mark,
    state: CtxView,
    outer_width: usize,
) -> bool {
    match (r, select_error(body.select)) {
        (Ok((sub, names)), None) => is_correlated_plan(
            catalog,
            sub,
            names,
            body,
            state.subqueries,
            start.subqueries as int,
            outer_width,
        ),
        (Err(e), Some(text)) => e.text() == text,
        _ => false,
    }
}

impl SubplanTrial {
    /// Where the trial started.
    pub closed spec fn mark(self) -> Mark {
        self.start@
    }

    /// The width of the outer row.
    pub closed spec fn outer_width(self) -> usize {
        self.outer_width
    }

    pub closed spec fn wf(self) -> bool {
        self.sub_start == self.start@.subqueries
    }

    /// Start the trial of a subquery under an outer row of width `outer_width`. The body is
    /// then bound with its own columns from register 0 on.
    pub fn begin(ctx: &PlanCtx, outer_width: usize) -> (r: SubplanTrial)
        ensures
            r.wf(),
            starts_at(r.mark(), r.outer_width(), ctx@, outer_width),
    {
        SubplanTrial { start: ctx.savepoint(), sub_start: ctx.subqueries().len(), outer_width }
    }

    /// Go on from the trial. A body that reads no outer row is done; else whatever the trial
    /// registered is dropped and the body is bound again. A body that does not compile is an
    /// error either way.
    pub fn after_trial(&self, ctx: &mut PlanCtx, catalog: &Catalog, body: BoundBody<'_>) -> (r:
        Result<SubplanStep, Error>)
        requires
            self.wf(),
            self.mark().subqueries <= old(ctx)@.subqueries.len(),
            select_wf(body.select),
        ensures
            is_trial_step(
                *catalog,
                r,
                body,
                self.mark(),
                old(ctx)@,
                final(ctx)@,
                self.outer_width(),
            ),
            !(r matches Ok(SubplanStep::Rebind { .. })) ==> *final(ctx) == *old(ctx),
    {
        let (node, names): (PlanNode, Vec<String>) = match compile_select_scoped(
            catalog,
            body.select,
            0,
        ) {
            Ok(p) => p,
            Err(e) => {
                return Err(e);
            },
        };
        if !body.saw_correlated {
            let deterministic: bool = !body.nondeterministic && descendants_deterministic(
                ctx,
                self.sub_start,
            ) && !plan_reaches_materialized_body(&node);
            return Ok(
                SubplanStep::Done(
                    SubPlan {
                        plan: node,
                        correlated: false,
                        correlated_cols: Vec::new(),
                        deterministic,
                        outer_width: 0,
                    },
                    names,
                ),
            );
        }
        ctx.restore(self.start);
        Ok(SubplanStep::Rebind { base_offset: self.outer_width })
    }

    /// Finish with the body bound after the outer row.
    pub fn after_rebind(self, ctx: &PlanCtx, catalog: &Catalog, body: BoundBody<'_>) -> (r:
        CompiledSubquery)
        requires
            self.wf(),
            self.mark().subqueries <= ctx@.subqueries.len(),
            select_wf(body.select),
        ensures
            is_rebound(*catalog, r, body, self.mark(), ctx@, self.outer_width()),
    {
        let (node, names): (PlanNode, Vec<String>) = match compile_select_scoped(
            catalog,
            body.select,
            self.outer_width,
        ) {
            Ok(p) => p,
            Err(e) => {
                return Err(e);
            },
        };
        let deterministic: bool = !body.nondeterministic && descendants_deterministic(
            ctx,
            self.sub_start,
        ) && !plan_reaches_materialized_body(&node);
        let correlated_cols: Vec<usize> = sorted_set(&body.correlated_cols);
        Ok(
            (
                SubPlan {
                    plan: node,
                    correlated: true,
                    correlated_cols,
                    deterministic,
                    outer_width: self.outer_width,
                },
                names,
            ),
        )
    }
}

/// The registers of `cols`, ascending and each once.
fn sorted_set(cols: &Vec<usize>) -> (r: Vec<usize>)
    ensures
        ascending_set_of(r@, cols@),
{
    let mut out: Vec<usize> = Vec::new();
    let mut i: usize = 0;
    while i < cols.len()
        invariant
            i <= cols.len(),
            ascending_set_of(out@, cols@.subrange(0, i as int)),
        decreases cols.len() - i,
    {
        let ghost before = out@;
        insert_sorted(&mut out, cols[i]);
        proof {
            let done = cols@.subrange(0, i as int);
            let more = cols@.subrange(0, i + 1);
            assert(more =~= done.push(cols@[i as int]));
            assert forall|x: usize| #[trigger] out@.contains(x) <==> more.contains(x) by {
                if more.contains(x) {
                    let k = choose|k: int| 0 <= k < more.len() && more[k] == x;
                    if k < i {
                        assert(done[k] == x);
                        assert(before.contains(x));
                    }
                }
                if out@.contains(x) && x != cols@[i as int] {
                    assert(before.contains(x));
                    let k = choose|k: int| 0 <= k < done.len() && done[k] == x;
                    assert(more[k] == x);
                }
                if x == cols@[i as int] {
                    assert(more[i as int] == x);
                }
            }
        }
        i = i + 1;
    }
    proof {
        assert(cols@.subrange(0, cols@.len() as int) =~= cols@);
    }
    out
}

/// Add `x` to an ascending list, unless it is there.
fn insert_sorted(v: &mut Vec<usize>, x: usize)
    requires
        forall|i: int, j: int|
            0 <= i < j < old(v)@.len() ==> #[trigger] old(v)@[i] < #[trigger] old(v)@[j],
    ensures
        forall|i: int, j: int|
            0 <= i < j < final(v)@.len() ==> #[trigger] final(v)@[i] < #[trigger] final(v)@[j],
        forall|y: usize| #[trigger] final(v)@.contains(y) <==> (old(v)@.contains(y) || y == x),
{
    let mut i: usize = 0;
    while i < v.len() && v[i] < x
        invariant
            i <= v.len(),
            *v == *old(v),
            forall|k: int| 0 <= k < i ==> #[trigger] v@[k] < x,
        decreases v.len() - i,
    {
        i = i + 1;
    }
    if i < v.len() && v[i] == x {
        assert(v@.contains(x));
        return;
    }
    let ghost before = v@;
    v.insert(i, x);
    proof {
        assert(v@ == before.insert(i as int, x));
        assert(v@[i as int] == x);
        assert forall|y: usize| #[trigger] v@.contains(y) <==> (before.contains(y) || y == x) by {
            if before.contains(y) {
                let k = choose|k: int| 0 <= k < before.len() && before[k] == y;
                if k < i {
                    assert(v@[k] == y);
                } else {
                    assert(v@[k + 1] == y);
                }
            }
            if v@.contains(y) && y != x {
                let k = choose|k: int| 0 <= k < v@.len() && v@[k] == y;
                if k < i {
                    assert(before[k] == y);
                } else {
                    assert(before[k - 1] == y);
                }
            }
        }
    }
}

/// Whether every subquery registered at or after `start` is deterministic. Those are the ones
/// nested in the subquery being compiled.
pub fn descendants_deterministic(ctx: &PlanCtx, start: usize) -> (r: bool)
    requires
        start <= ctx@.subqueries.len(),
    ensures
        r == deterministic_from(ctx@.subqueries, start as int),
{
    let subs: &Vec<SubPlan> = ctx.subqueries();
    let mut i: usize = start;
    while i < subs.len()
        invariant
            start <= i <= subs.len(),
            subs@ == ctx@.subqueries,
            forall|k: int| start <= k < i ==> (#[trigger] subs@[k]).deterministic,
        decreases subs.len() - i,
    {
        if !subs[i].deterministic {
            return false;
        }
        i = i + 1;
    }
    true
}

/// Whether the tree reaches a scan of a materialized body. Such a body is bound on its own, so
/// that a function in it that is not deterministic goes unseen here.
pub fn plan_reaches_materialized_body(node: &PlanNode) -> (r: bool)
    ensures
        r == reaches_body(*node),
    decreases node,
{
    match node {
        PlanNode::CteScan { .. } => true,
        PlanNode::RecursiveScan { .. } => true,
        PlanNode::Filter { input, .. } => plan_reaches_materialized_body(input),
        PlanNode::Project { input, .. } => plan_reaches_materialized_body(input),
        PlanNode::Sort { input, .. } => plan_reaches_materialized_body(input),
        PlanNode::Limit { input, .. } => plan_reaches_materialized_body(input),
        PlanNode::Distinct { input, .. } => plan_reaches_materialized_body(input),
        PlanNode::Aggregate(a) => plan_reaches_materialized_body(&a.input),
        PlanNode::Window(w) => plan_reaches_materialized_body(&w.input),
        PlanNode::Join(j) => {
            plan_reaches_materialized_body(&j.left) || plan_reaches_materialized_body(&j.right)
        },
        PlanNode::SetOp(s) => {
            plan_reaches_materialized_body(&s.left) || plan_reaches_materialized_body(&s.right)
        },
        PlanNode::SeqScan(_) => false,
        PlanNode::RowidScan(_) => false,
        PlanNode::IndexScan(_) => false,
        PlanNode::MinMaxSeek(_) => false,
        PlanNode::Values { .. } => false,
        PlanNode::SingleRow => false,
        PlanNode::TableFunctionScan { .. } => false,
        PlanNode::PragmaFunctionScan { .. } => false,
        PlanNode::Insert(_) => false,
        PlanNode::Update(_) => false,
        PlanNode::Delete(_) => false,
        PlanNode::InsteadOf(_) => false,
        PlanNode::CreateTable(_) => false,
        PlanNode::CreateIndex(_) => false,
    }
}

/// What compiling a subquery gave: its plan and its output names.
pub type CompiledSubquery = Result<(SubPlan, Vec<String>), Error>;

pub open spec fn width_message(got: nat, expected: nat) -> Seq<char> {
    "sub-select returns "@ + decimal(got) + " columns - expected "@ + decimal(expected)
}

/// Whether a subquery was added and `id` names it.
pub open spec fn registered(before: CtxView, after: CtxView, sub: SubPlan, id: usize) -> bool {
    &&& id == before.subqueries.len()
    &&& after == (CtxView { subqueries: before.subqueries.push(sub), ..before })
}

/// Whether the result, and the state after it, are those of registering a subquery that has to have
/// `expected` columns.
pub open spec fn registers_checked(
    r: Result<usize, Error>,
    compiled: CompiledSubquery,
    expected: nat,
    before: CtxView,
    after: CtxView,
) -> bool {
    match (r, compiled) {
        (Ok(id), Ok((sub, names))) => names@.len() == expected && registered(
            before,
            after,
            sub,
            id,
        ),
        (Err(e), Ok((_, names))) => names@.len() != expected && e.text() == width_message(
            names@.len(),
            expected,
        ) && after == before,
        (Err(e), Err(f)) => e == f && after == before,
        (Ok(_), Err(_)) => false,
    }
}

/// Whether the result, and the state after it, are those of registering a subquery of any width.
pub open spec fn registers_any(
    r: Result<usize, Error>,
    compiled: CompiledSubquery,
    before: CtxView,
    after: CtxView,
) -> bool {
    match (r, compiled) {
        (Ok(id), Ok((sub, _))) => registered(before, after, sub, id),
        (Err(e), Err(f)) => e == f && after == before,
        _ => false,
    }
}

/// Register a subquery of any width, as under `EXISTS`.
pub fn compile_subquery(ctx: &mut PlanCtx, compiled: CompiledSubquery) -> (r: Result<usize, Error>)
    ensures
        registers_any(r, compiled, old(ctx)@, final(ctx)@),
        r is Err ==> *final(ctx) == *old(ctx),
        final(ctx).wf() == old(ctx).wf(),
{
    match compiled {
        Ok((sub, _)) => Ok(ctx.register_subquery(sub)),
        Err(e) => Err(e),
    }
}

/// Register a subquery that stands for one value: it has one column.
pub fn compile_value_subquery(ctx: &mut PlanCtx, compiled: CompiledSubquery) -> (r: Result<
    usize,
    Error,
>)
    ensures
        registers_checked(r, compiled, 1, old(ctx)@, final(ctx)@),
        r is Err ==> *final(ctx) == *old(ctx),
        final(ctx).wf() == old(ctx).wf(),
{
    compile_width_checked_subquery(ctx, compiled, 1)
}

/// Register a subquery that is compared with a row value of `expected_cols` columns.
pub fn compile_row_subquery(
    ctx: &mut PlanCtx,
    compiled: CompiledSubquery,
    expected_cols: usize,
) -> (r: Result<usize, Error>)
    ensures
        registers_checked(r, compiled, expected_cols as nat, old(ctx)@, final(ctx)@),
        r is Err ==> *final(ctx) == *old(ctx),
        final(ctx).wf() == old(ctx).wf(),
{
    compile_width_checked_subquery(ctx, compiled, expected_cols)
}

/// Register the subquery of a column-list assignment; its width comes with it, and the caller
/// holds it against the list.
pub fn compile_columnlist_subquery(ctx: &mut PlanCtx, compiled: CompiledSubquery) -> (r: Result<
    (usize, usize),
    Error,
>)
    ensures
        match (r, compiled) {
            (Ok((id, width)), Ok((sub, names))) => width == names@.len() && registered(
                old(ctx)@,
                final(ctx)@,
                sub,
                id,
            ),
            (Err(e), Err(f)) => e == f && *final(ctx) == *old(ctx),
            _ => false,
        },
        final(ctx).wf() == old(ctx).wf(),
{
    match compiled {
        Ok((sub, names)) => {
            let width: usize = names.len();
            Ok((ctx.register_subquery(sub), width))
        },
        Err(e) => Err(e),
    }
}

fn compile_width_checked_subquery(
    ctx: &mut PlanCtx,
    compiled: CompiledSubquery,
    expected_cols: usize,
) -> (r: Result<usize, Error>)
    ensures
        registers_checked(r, compiled, expected_cols as nat, old(ctx)@, final(ctx)@),
        r is Err ==> *final(ctx) == *old(ctx),
        final(ctx).wf() == old(ctx).wf(),
{
    match compiled {
        Ok((sub, names)) => {
            if names.len() != expected_cols {
                let mut s: String = String::from_str("sub-select returns ");
                push_decimal(&mut s, names.len());
                s.append(" columns - expected ");
                push_decimal(&mut s, expected_cols);
                return Err(Error::Sql(s));
            }
            Ok(ctx.register_subquery(sub))
        },
        Err(e) => Err(e),
    }
}

/// Determinism reaches through nesting: a subquery that is known to be deterministic has only
/// deterministic subqueries nested in it, and one nested subquery that is not makes it unknown.
pub proof fn determinism_is_transitive(
    catalog: Catalog,
    sub: SubPlan,
    names: Vec<String>,
    body: BoundBody<'_>,
    subqueries: Seq<SubPlan>,
    start: int,
    outer_width: usize,
    nested: int,
)
    requires
        is_uncorrelated_plan(catalog, sub, names, body, subqueries, start) || is_correlated_plan(
            catalog,
            sub,
            names,
            body,
            subqueries,
            start,
            outer_width,
        ),
        start <= nested < subqueries.len(),
    ensures
        sub.deterministic ==> subqueries[nested].deterministic && !body.nondeterministic
            && !reaches_body(sub.plan),
{
}

/// A subquery that is compiled as one that reads no outer row keeps none: the trial is the
/// plan, bound from register 0 on, and its registers need no outer row.
pub proof fn an_uncorrelated_plan_reads_no_outer_row(
    catalog: Catalog,
    sub: SubPlan,
    names: Vec<String>,
    body: BoundBody<'_>,
    subqueries: Seq<SubPlan>,
    start: int,
)
    requires
        is_uncorrelated_plan(catalog, sub, names, body, subqueries, start),
    ensures
        sub.outer_width == 0,
        forall|x: usize| !sub.correlated_cols@.contains(x),
{
}

/// The recorded outer registers are all of those that names resolved to, and lie below the
/// outer width wherever those do.
pub proof fn correlated_registers_are_complete(
    catalog: Catalog,
    sub: SubPlan,
    names: Vec<String>,
    body: BoundBody<'_>,
    subqueries: Seq<SubPlan>,
    start: int,
    outer_width: usize,
)
    requires
        is_correlated_plan(catalog, sub, names, body, subqueries, start, outer_width),
        forall|i: int|
            0 <= i < body.correlated_cols@.len() ==> #[trigger] body.correlated_cols@[i]
                < outer_width,
    ensures
        forall|i: int|
            0 <= i < body.correlated_cols@.len() ==> sub.correlated_cols@.contains(
                #[trigger] body.correlated_cols@[i],
            ),
        forall|i: int|
            0 <= i < sub.correlated_cols@.len() ==> #[trigger] sub.correlated_cols@[i]
                < sub.outer_width,
{
    assert forall|i: int| 0 <= i < body.correlated_cols@.len() implies sub.correlated_cols@.contains(
        #[trigger] body.correlated_cols@[i],
    ) by {
        assert(body.correlated_cols@.contains(body.correlated_cols@[i]));
    }
    assert forall|i: int| 0 <= i < sub.correlated_cols@.len() implies #[trigger] sub.correlated_cols@[i]
        < sub.outer_width by {
        assert(sub.correlated_cols@.contains(sub.correlated_cols@[i]));
        assert(body.correlated_cols@.contains(sub.correlated_cols@[i]));
    }
}

} // verus!
