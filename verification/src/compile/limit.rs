//! `LIMIT` and `OFFSET`, and the bound they put on the sort below them.

#[allow(unused_imports)]
use vstd::prelude::*;
use crate::compile::meaning::may_vary;
use crate::error::Error;
use crate::expr::{trees, Bound, CaseWhen, EvalExpr, ExprNode, ExprTree};
use crate::plan::{PlanNode, SortLimit};

verus! {

/// A `LIMIT` clause with its expressions bound.
#[derive(Debug)]
pub struct LimitClause {
    pub limit: Bound,
    pub offset: Option<Bound>,
}

/// The expressions of a `LIMIT` clause, or the message of the first that did not bind.
pub open spec fn limit_exprs(c: LimitClause) -> Result<(EvalExpr, Option<EvalExpr>), Seq<char>> {
    match c.limit {
        Err(e) => Err(e.text()),
        Ok(limit) => match c.offset {
            None => Ok((limit, None)),
            Some(Err(e)) => Err(e.text()),
            Some(Ok(offset)) => Ok((limit, Some(offset))),
        },
    }
}

/// Whether a node, given its operands, has one value throughout a statement. A clock reading,
/// a function that draws or counts, a subquery and a `RAISE` do not.
pub open spec fn settled(node: ExprNode) -> bool {
    match node {
        ExprNode::Now(_) => false,
        ExprNode::Func { deterministic, .. } => deterministic,
        ExprNode::InSubquery { .. } => false,
        ExprNode::InSubqueryRow { .. } => false,
        ExprNode::Exists { .. } => false,
        ExprNode::ScalarSubquery(_) => false,
        ExprNode::ScalarSubqueryColumn { .. } => false,
        ExprNode::Raise { .. } => false,
        _ => true,
    }
}

/// Whether every node of the expression is settled: then it has one value throughout a
/// statement.
pub open spec fn repeatable(t: ExprTree) -> bool
    decreases t,
{
    &&& settled(t.node)
    &&& forall|i: int| 0 <= i < t.operands.len() ==> repeatable(#[trigger] t.operands[i])
}

pub open spec fn all_repeatable(ts: Seq<ExprTree>) -> bool {
    forall|i: int| 0 <= i < ts.len() ==> repeatable(#[trigger] ts[i])
}

/// Whether the bound may be handed to the sort as well: both its expressions are repeatable.
pub open spec fn bounds_the_sort(limit: EvalExpr, offset: Option<EvalExpr>) -> bool {
    repeatable(limit.tree()) && match offset {
        Some(o) => repeatable(o.tree()),
        None => true,
    }
}

pub open spec fn optional_expr_tree(e: Option<EvalExpr>) -> Option<ExprTree> {
    match e {
        Some(x) => Some(x.tree()),
        None => None,
    }
}

/// The bound for the sort under a `LIMIT`: the same two expressions where both are repeatable,
/// else none.
pub open spec fn is_sort_bound(
    bound: Option<SortLimit>,
    limit: EvalExpr,
    offset: Option<EvalExpr>,
) -> bool {
    match bound {
        Some(b) => bounds_the_sort(limit, offset) && b.limit.tree() == limit.tree()
            && optional_expr_tree(b.offset) == optional_expr_tree(offset),
        None => !bounds_the_sort(limit, offset),
    }
}

/// Take the expressions of a `LIMIT` clause. They are bound once: both the `Limit` node and
/// the sort below it take them from here.
pub fn bind_limit_exprs(c: LimitClause) -> (r: Result<(EvalExpr, Option<EvalExpr>), Error>)
    ensures
        match (r, limit_exprs(c)) {
            (Ok(p), Ok(q)) => p == q,
            (Err(e), Err(text)) => e.text() == text,
            _ => false,
        },
{
    let limit: EvalExpr = match c.limit {
        Ok(e) => e,
        Err(e) => {
            return Err(e);
        },
    };
    match c.offset {
        None => Ok((limit, None)),
        Some(Ok(offset)) => Ok((limit, Some(offset))),
        Some(Err(e)) => Err(e),
    }
}

/// Put a `Limit` over `node`.
pub fn build_limit(node: PlanNode, c: LimitClause) -> (r: Result<PlanNode, Error>)
    ensures
        match (r, limit_exprs(c)) {
            (Ok(out), Ok((limit, offset))) => out == (PlanNode::Limit {
                input: Box::new(node),
                limit: Some(limit),
                offset,
            }),
            (Err(e), Err(text)) => e.text() == text,
            _ => false,
        },
{
    match bind_limit_exprs(c) {
        Ok((limit, offset)) => Ok(
            PlanNode::Limit { input: Box::new(node), limit: Some(limit), offset },
        ),
        Err(e) => Err(e),
    }
}

/// The bound to put on the sort under a `LIMIT`.
///
/// The sort evaluates it apart from the `Limit` node. An expression that could give the two
/// different values would let the sort drop rows that the limit still takes, so only
/// repeatable expressions are handed to the sort.
pub fn sort_limit_from(bound: &(EvalExpr, Option<EvalExpr>)) -> (r: Option<SortLimit>)
    ensures
        is_sort_bound(r, bound.0, bound.1),
{
    let offset_ok: bool = match &bound.1 {
        Some(o) => limit_expr_is_deterministic(o),
        None => true,
    };
    if limit_expr_is_deterministic(&bound.0) && offset_ok {
        let offset: Option<EvalExpr> = match &bound.1 {
            Some(o) => Some(o.dup()),
            None => None,
        };
        Some(SortLimit { limit: bound.0.dup(), offset })
    } else {
        None
    }
}

/// Whether the expression has one value throughout a statement.
pub fn limit_expr_is_deterministic(e: &EvalExpr) -> (r: bool)
    ensures
        r == repeatable(e.tree()),
    decreases e,
{
    let ghost ops = e.tree().operands;
    match e {
        EvalExpr::Literal(_) => true,
        EvalExpr::Column(_) => true,
        EvalExpr::Param(_) => true,
        EvalExpr::Now(_) => false,
        EvalExpr::Func { func, args } => {
            let inner: bool = all_deterministic(args);
            func.deterministic && inner
        },
        EvalExpr::Unary { operand, .. } => {
            proof {
                lemma_one(ops);
            }
            limit_expr_is_deterministic(operand)
        },
        EvalExpr::Cast { operand, .. } => {
            proof {
                lemma_one(ops);
            }
            limit_expr_is_deterministic(operand)
        },
        EvalExpr::Collate { operand, .. } => {
            proof {
                lemma_one(ops);
            }
            limit_expr_is_deterministic(operand)
        },
        EvalExpr::IsNull(operand) => {
            proof {
                lemma_one(ops);
            }
            limit_expr_is_deterministic(operand)
        },
        EvalExpr::NotNull(operand) => {
            proof {
                lemma_one(ops);
            }
            limit_expr_is_deterministic(operand)
        },
        EvalExpr::Arith { left, right, .. } => {
            proof {
                lemma_two(ops);
            }
            limit_expr_is_deterministic(left) && limit_expr_is_deterministic(right)
        },
        EvalExpr::Concat { left, right } => {
            proof {
                lemma_two(ops);
            }
            limit_expr_is_deterministic(left) && limit_expr_is_deterministic(right)
        },
        EvalExpr::Bitwise { left, right, .. } => {
            proof {
                lemma_two(ops);
            }
            limit_expr_is_deterministic(left) && limit_expr_is_deterministic(right)
        },
        EvalExpr::And(left, right) => {
            proof {
                lemma_two(ops);
            }
            limit_expr_is_deterministic(left) && limit_expr_is_deterministic(right)
        },
        EvalExpr::Or(left, right) => {
            proof {
                lemma_two(ops);
            }
            limit_expr_is_deterministic(left) && limit_expr_is_deterministic(right)
        },
        EvalExpr::Compare { left, right, .. } => {
            proof {
                lemma_two(ops);
            }
            limit_expr_is_deterministic(left) && limit_expr_is_deterministic(right)
        },
        EvalExpr::NullIf { left, right, .. } => {
            proof {
                lemma_two(ops);
            }
            limit_expr_is_deterministic(left) && limit_expr_is_deterministic(right)
        },
        EvalExpr::Between { subject, low, high, .. } => {
            proof {
                lemma_three(ops);
            }
            limit_expr_is_deterministic(subject) && limit_expr_is_deterministic(low)
                && limit_expr_is_deterministic(high)
        },
        EvalExpr::InList { subject, items, .. } => {
            proof {
                lemma_concat(seq![subject.tree()], trees(items@));
                lemma_one(seq![subject.tree()]);
            }
            limit_expr_is_deterministic(subject) && all_deterministic(items)
        },
        EvalExpr::Coalesce(items) => all_deterministic(items),
        EvalExpr::Case { operand, whens, else_expr } => {
            proof {
                let a = crate::expr::optional_tree(*operand);
                let b = crate::expr::arm_trees(whens@);
                let c = crate::expr::optional_tree(*else_expr);
                lemma_concat(a, b);
                lemma_concat(a + b, c);
            }
            optional_deterministic(operand) && arms_deterministic(whens)
                && optional_deterministic(else_expr)
        },
        EvalExpr::Like { subject, pattern, escape, .. } => {
            proof {
                let a = seq![subject.tree(), pattern.tree()];
                lemma_two(a);
                lemma_concat(a, crate::expr::optional_tree(*escape));
            }
            limit_expr_is_deterministic(subject) && limit_expr_is_deterministic(pattern)
                && optional_deterministic(escape)
        },
        EvalExpr::InSubquery { .. } => false,
        EvalExpr::InSubqueryRow { .. } => false,
        EvalExpr::Exists { .. } => false,
        EvalExpr::ScalarSubquery(_) => false,
        EvalExpr::ScalarSubqueryColumn { .. } => false,
        EvalExpr::Raise { .. } => false,
    }
}

proof fn lemma_one(ts: Seq<ExprTree>)
    ensures
        ts.len() == 1 ==> all_repeatable(ts) == repeatable(ts[0]),
{
}

proof fn lemma_two(ts: Seq<ExprTree>)
    ensures
        ts.len() == 2 ==> all_repeatable(ts) == (repeatable(ts[0]) && repeatable(ts[1])),
{
}

proof fn lemma_three(ts: Seq<ExprTree>)
    ensures
        ts.len() == 3 ==> all_repeatable(ts) == (repeatable(ts[0]) && repeatable(ts[1])
            && repeatable(ts[2])),
{
}

proof fn lemma_concat(a: Seq<ExprTree>, b: Seq<ExprTree>)
    ensures
        all_repeatable(a + b) == (all_repeatable(a) && all_repeatable(b)),
{
    if all_repeatable(a + b) {
        assert forall|i: int| 0 <= i < a.len() implies repeatable(#[trigger] a[i]) by {
            assert((a + b)[i] == a[i]);
        }
        assert forall|i: int| 0 <= i < b.len() implies repeatable(#[trigger] b[i]) by {
            assert((a + b)[a.len() + i] == b[i]);
        }
    }
}

fn all_deterministic(v: &Vec<EvalExpr>) -> (r: bool)
    ensures
        r == all_repeatable(trees(v@)),
    decreases v,
{
    let mut i: usize = 0;
    while i < v.len()
        invariant
            i <= v.len(),
            forall|k: int| 0 <= k < i ==> repeatable(#[trigger] trees(v@)[k]),
        decreases v.len() - i,
    {
        assert(trees(v@)[i as int] == v@[i as int].tree());
        if !limit_expr_is_deterministic(&v[i]) {
            return false;
        }
        i = i + 1;
    }
    true
}

fn optional_deterministic(e: &Option<Box<EvalExpr>>) -> (r: bool)
    ensures
        r == all_repeatable(crate::expr::optional_tree(*e)),
    decreases e,
{
    match e {
        Some(b) => {
            proof {
                lemma_one(crate::expr::optional_tree(*e));
            }
            limit_expr_is_deterministic(b)
        },
        None => true,
    }
}

fn arms_deterministic(v: &Vec<CaseWhen>) -> (r: bool)
    ensures
        r == all_repeatable(crate::expr::arm_trees(v@)),
    decreases v,
{
    let ghost ts = crate::expr::arm_trees(v@);
    let mut i: usize = 0;
    while i < v.len()
        invariant
            i <= v.len(),
            ts == crate::expr::arm_trees(v@),
            forall|k: int| 0 <= k < 2 * i ==> repeatable(#[trigger] ts[k]),
        decreases v.len() - i,
    {
        assert(ts[2 * i] == v@[i as int].when.tree());
        assert(ts[2 * i + 1] == v@[i as int].result.tree());
        if !limit_expr_is_deterministic(&v[i].when) {
            return false;
        }
        if !limit_expr_is_deterministic(&v[i].result) {
            return false;
        }
        i = i + 1;
    }
    true
}

/// What a `Limit` emits of a sequence: `offset` rows are skipped (none where it is negative)
/// and at most `limit` of the rest taken (all where it is negative).
pub open spec fn limited<A>(s: Seq<A>, limit: int, offset: int) -> Seq<A> {
    let from = if offset <= 0 {
        0
    } else if offset <= s.len() {
        offset
    } else {
        s.len() as int
    };
    let rest = s.subrange(from, s.len() as int);
    if limit < 0 || limit >= rest.len() {
        rest
    } else {
        rest.subrange(0, limit)
    }
}

/// What a sort keeps of the sequence it sorts: the rows that a `Limit` with these values can
/// need, which are all of them where `limit` is negative.
pub open spec fn retained<A>(s: Seq<A>, limit: int, offset: int) -> Seq<A> {
    let needed = limit + if offset <= 0 {
        0
    } else {
        offset
    };
    if limit < 0 || needed >= s.len() {
        s
    } else {
        s.subrange(0, needed)
    }
}

/// A `Limit` takes the same rows from what the bounded sort keeps as from the whole sorted
/// sequence: the bound never changes the result.
pub proof fn a_bounded_sort_loses_nothing<A>(sorted: Seq<A>, limit: int, offset: int)
    ensures
        limited(retained(sorted, limit, offset), limit, offset) == limited(sorted, limit, offset),
{
    assert(limited(retained(sorted, limit, offset), limit, offset) =~= limited(
        sorted,
        limit,
        offset,
    ));
}

/// The value of an expression where `apply` gives the value of a node from the values of its
/// operands and the moment at which it is evaluated.
pub open spec fn evaluated<V, M>(
    t: ExprTree,
    apply: spec_fn(ExprNode, Seq<V>, M) -> V,
    moment: M,
) -> V
    decreases t,
{
    apply(t.node, evaluated_all(t.operands, apply, moment), moment)
}

pub open spec fn evaluated_all<V, M>(
    ts: Seq<ExprTree>,
    apply: spec_fn(ExprNode, Seq<V>, M) -> V,
    moment: M,
) -> Seq<V>
    decreases ts,
{
    Seq::new(
        ts.len(),
        |i: int|
            if 0 <= i < ts.len() {
                evaluated(ts[i], apply, moment)
            } else {
                arbitrary()
            },
    )
}

/// A repeatable expression has the same value at any two moments, wherever only nodes that may vary
/// depend on the moment: the sort and the `Limit` above it agree on their bound.
pub proof fn a_repeatable_bound_has_one_value<V, M>(
    t: ExprTree,
    apply: spec_fn(ExprNode, Seq<V>, M) -> V,
    first: M,
    second: M,
)
    requires
        repeatable(t),
        forall|node: ExprNode, args: Seq<V>, x: M, y: M|
            !may_vary(node) ==> #[trigger] apply(node, args, x) == #[trigger] apply(node, args, y),
    ensures
        evaluated(t, apply, first) == evaluated(t, apply, second),
    decreases t,
{
    let at_first = evaluated_all(t.operands, apply, first);
    let at_second = evaluated_all(t.operands, apply, second);
    assert forall|i: int| 0 <= i < t.operands.len() implies #[trigger] at_first[i]
        == at_second[i] by {
        assert(repeatable(t.operands[i]));
        a_repeatable_bound_has_one_value(t.operands[i], apply, first, second);
    }
    assert(at_first =~= at_second);
    assert(apply(t.node, at_first, first) == apply(t.node, at_first, second));
}

} // verus!
