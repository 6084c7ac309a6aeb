//! The tree of an expression tells all of it: two expressions with one tree are the same operator
//! on the same operands.

#[allow(unused_imports)]
use vstd::prelude::*;
use crate::expr::{arm_metas, arm_trees, optional_tree, trees, CaseWhen, EvalExpr};
use crate::types::Value;

verus! {

/// Whether two values are the same.
pub open spec fn one_value(a: Value, b: Value) -> bool {
    match (a, b) {
        (Value::Null, Value::Null) => true,
        (Value::Integer(x), Value::Integer(y)) => x == y,
        (Value::Real(x), Value::Real(y)) => x == y,
        (Value::Text(x), Value::Text(y)) => x@ == y@,
        (Value::Blob(x), Value::Blob(y)) => x@ == y@,
        _ => false,
    }
}

/// Whether two lists hold expressions with the same trees, in the same order.
pub open spec fn one_list(a: Seq<EvalExpr>, b: Seq<EvalExpr>) -> bool {
    &&& a.len() == b.len()
    &&& forall|i: int| 0 <= i < a.len() ==> (#[trigger] a[i]).tree() == b[i].tree()
}

/// Whether two expressions that may be left out have the same tree, or both are left out.
pub open spec fn one_option(a: Option<Box<EvalExpr>>, b: Option<Box<EvalExpr>>) -> bool {
    &&& a is Some <==> b is Some
    &&& a is Some ==> a->Some_0.tree() == b->Some_0.tree()
}

/// Whether two expressions are the same operator, with the same settings, on operands with the
/// same trees in the same places.
pub open spec fn one_operator(a: EvalExpr, b: EvalExpr) -> bool {
    match (a, b) {
        (EvalExpr::Literal(x), EvalExpr::Literal(y)) => one_value(x, y),
        (EvalExpr::Column(x), EvalExpr::Column(y)) => x == y,
        (EvalExpr::Param(x), EvalExpr::Param(y)) => x == y,
        (EvalExpr::Now(x), EvalExpr::Now(y)) => x == y,
        (EvalExpr::Func { func: f, args: x }, EvalExpr::Func { func: g, args: y }) => f.name@
            == g.name@ && f.deterministic == g.deterministic && one_list(x@, y@),
        (EvalExpr::Unary { op: o, operand: x }, EvalExpr::Unary { op: p, operand: y }) => o == p
            && x.tree() == y.tree(),
        (EvalExpr::Cast { operand: x, affinity: o }, EvalExpr::Cast { operand: y, affinity: p }) => o
            == p && x.tree() == y.tree(),
        (
            EvalExpr::Collate { operand: x, collation: o },
            EvalExpr::Collate { operand: y, collation: p },
        ) => o == p && x.tree() == y.tree(),
        (EvalExpr::IsNull(x), EvalExpr::IsNull(y)) => x.tree() == y.tree(),
        (EvalExpr::NotNull(x), EvalExpr::NotNull(y)) => x.tree() == y.tree(),
        (
            EvalExpr::Arith { op: o, left: x, right: v },
            EvalExpr::Arith { op: p, left: y, right: w },
        ) => o == p && x.tree() == y.tree() && v.tree() == w.tree(),
        (EvalExpr::Concat { left: x, right: v }, EvalExpr::Concat { left: y, right: w }) => x.tree()
            == y.tree() && v.tree() == w.tree(),
        (
            EvalExpr::Bitwise { op: o, left: x, right: v },
            EvalExpr::Bitwise { op: p, left: y, right: w },
        ) => o == p && x.tree() == y.tree() && v.tree() == w.tree(),
        (EvalExpr::And(x, v), EvalExpr::And(y, w)) => x.tree() == y.tree() && v.tree() == w.tree(),
        (EvalExpr::Or(x, v), EvalExpr::Or(y, w)) => x.tree() == y.tree() && v.tree() == w.tree(),
        (
            EvalExpr::Compare { op: o, left: x, right: v, meta: m, null_safe: s },
            EvalExpr::Compare { op: p, left: y, right: w, meta: n, null_safe: t },
        ) => o == p && m == n && s == t && x.tree() == y.tree() && v.tree() == w.tree(),
        (
            EvalExpr::NullIf { left: x, right: v, meta: m },
            EvalExpr::NullIf { left: y, right: w, meta: n },
        ) => m == n && x.tree() == y.tree() && v.tree() == w.tree(),
        (
            EvalExpr::Between {
                subject: x,
                low: v,
                high: h,
                low_meta: m,
                high_meta: q,
                negated: s,
            },
            EvalExpr::Between {
                subject: y,
                low: w,
                high: k,
                low_meta: n,
                high_meta: r,
                negated: t,
            },
        ) => m == n && q == r && s == t && x.tree() == y.tree() && v.tree() == w.tree() && h.tree()
            == k.tree(),
        (
            EvalExpr::InList { subject: x, items: v, meta: m, negated: s },
            EvalExpr::InList { subject: y, items: w, meta: n, negated: t },
        ) => m == n && s == t && x.tree() == y.tree() && one_list(v@, w@),
        (EvalExpr::Coalesce(x), EvalExpr::Coalesce(y)) => one_list(x@, y@),
        (
            EvalExpr::Case { operand: x, whens: v, else_expr: h },
            EvalExpr::Case { operand: y, whens: w, else_expr: k },
        ) => one_option(x, y) && one_arms(v@, w@) && one_option(h, k),
        (
            EvalExpr::Like { kind: o, subject: x, pattern: v, escape: h, negated: s },
            EvalExpr::Like { kind: p, subject: y, pattern: w, escape: k, negated: t },
        ) => o == p && s == t && x.tree() == y.tree() && v.tree() == w.tree() && one_option(h, k),
        (
            EvalExpr::InSubquery { subject: x, subquery: o, meta: m, negated: s },
            EvalExpr::InSubquery { subject: y, subquery: p, meta: n, negated: t },
        ) => o == p && m == n && s == t && x.tree() == y.tree(),
        (
            EvalExpr::InSubqueryRow { subjects: x, subquery: o, metas: m, negated: s },
            EvalExpr::InSubqueryRow { subjects: y, subquery: p, metas: n, negated: t },
        ) => o == p && m@ == n@ && s == t && one_list(x@, y@),
        (
            EvalExpr::Exists { subquery: o, negated: s },
            EvalExpr::Exists { subquery: p, negated: t },
        ) => o == p && s == t,
        (EvalExpr::ScalarSubquery(o), EvalExpr::ScalarSubquery(p)) => o == p,
        (
            EvalExpr::ScalarSubqueryColumn { subquery: o, column: x },
            EvalExpr::ScalarSubqueryColumn { subquery: p, column: y },
        ) => o == p && x == y,
        (EvalExpr::Raise { kind: o, message: x }, EvalExpr::Raise { kind: p, message: y }) => o == p
            && (x is Some <==> y is Some) && (x is Some ==> x->Some_0@ == y->Some_0@),
        _ => false,
    }
}

/// Whether two lists of the arms of a `CASE` compare alike and hold expressions with the same
/// trees.
pub open spec fn one_arms(a: Seq<CaseWhen>, b: Seq<CaseWhen>) -> bool {
    &&& a.len() == b.len()
    &&& forall|i: int|
        0 <= i < a.len() ==> (#[trigger] a[i]).when.tree() == b[i].when.tree() && a[i].result.tree()
            == b[i].result.tree() && a[i].meta == b[i].meta
}

proof fn lists_are_told(a: Seq<EvalExpr>, b: Seq<EvalExpr>)
    requires
        trees(a) == trees(b),
    ensures
        one_list(a, b),
{
    assert(trees(a).len() == a.len() && trees(b).len() == b.len());
    assert forall|i: int| 0 <= i < a.len() implies (#[trigger] a[i]).tree() == b[i].tree() by {
        assert(trees(a)[i] == a[i].tree());
        assert(trees(b)[i] == b[i].tree());
    }
}

proof fn options_are_listed(e: Option<Box<EvalExpr>>)
    ensures
        e matches Some(b) ==> optional_tree(e) == seq![b.tree()],
        e is None ==> optional_tree(e).len() == 0,
{
}

proof fn arms_are_listed(v: Seq<CaseWhen>, i: int)
    requires
        0 <= i < v.len(),
    ensures
        arm_trees(v).len() == 2 * v.len(),
        arm_trees(v)[2 * i] == v[i].when.tree(),
        arm_trees(v)[2 * i + 1] == v[i].result.tree(),
{
}

/// A copy of an expression, which has its tree, is the same operator on the same operands.
pub proof fn a_tree_tells_the_expression(a: EvalExpr, b: EvalExpr)
    requires
        a.tree() == b.tree(),
        !(a is Case),
    ensures
        one_operator(a, b),
{
    let s = a.tree().operands;
    let t = b.tree().operands;
    assert(s == t);
    match a {
        EvalExpr::Literal(_) => {
            assert(b is Literal);
        },
        EvalExpr::Column(_) => {
            assert(b is Column);
        },
        EvalExpr::Param(_) => {
            assert(b is Param);
        },
        EvalExpr::Now(_) => {
            assert(b is Now);
        },
        EvalExpr::Exists { .. } => {
            assert(b is Exists);
        },
        EvalExpr::ScalarSubquery(_) => {
            assert(b is ScalarSubquery);
        },
        EvalExpr::ScalarSubqueryColumn { .. } => {
            assert(b is ScalarSubqueryColumn);
        },
        EvalExpr::Raise { .. } => {
            assert(b is Raise);
        },
        EvalExpr::Unary { .. } => {
            assert(b is Unary);
            assert(s[0] == t[0]);
        },
        EvalExpr::Cast { .. } => {
            assert(b is Cast);
            assert(s[0] == t[0]);
        },
        EvalExpr::Collate { .. } => {
            assert(b is Collate);
            assert(s[0] == t[0]);
        },
        EvalExpr::IsNull(_) => {
            assert(b is IsNull);
            assert(s[0] == t[0]);
        },
        EvalExpr::NotNull(_) => {
            assert(b is NotNull);
            assert(s[0] == t[0]);
        },
        EvalExpr::InSubquery { .. } => {
            assert(b is InSubquery);
            assert(s[0] == t[0]);
        },
        EvalExpr::Arith { .. } => {
            assert(b is Arith);
            assert(s[0] == t[0] && s[1] == t[1]);
        },
        EvalExpr::Concat { .. } => {
            assert(b is Concat);
            assert(s[0] == t[0] && s[1] == t[1]);
        },
        EvalExpr::Bitwise { .. } => {
            assert(b is Bitwise);
            assert(s[0] == t[0] && s[1] == t[1]);
        },
        EvalExpr::And(_, _) => {
            assert(b is And);
            assert(s[0] == t[0] && s[1] == t[1]);
        },
        EvalExpr::Or(_, _) => {
            assert(b is Or);
            assert(s[0] == t[0] && s[1] == t[1]);
        },
        EvalExpr::Compare { .. } => {
            assert(b is Compare);
            assert(s[0] == t[0] && s[1] == t[1]);
        },
        EvalExpr::NullIf { .. } => {
            assert(b is NullIf);
            assert(s[0] == t[0] && s[1] == t[1]);
        },
        EvalExpr::Between { .. } => {
            assert(b is Between);
            assert(s[0] == t[0] && s[1] == t[1] && s[2] == t[2]);
        },
        EvalExpr::Func { args, .. } => {
            assert(b is Func);
            lists_are_told(args@, b->Func_args@);
        },
        EvalExpr::Coalesce(items) => {
            assert(b is Coalesce);
            lists_are_told(items@, b->Coalesce_0@);
        },
        EvalExpr::InSubqueryRow { subjects, .. } => {
            assert(b is InSubqueryRow);
            lists_are_told(subjects@, b->InSubqueryRow_subjects@);
        },
        EvalExpr::InList { items, .. } => {
            assert(b is InList);
            assert(s[0] == t[0]);
            assert(s.subrange(1, s.len() as int) =~= trees(items@));
            assert(t.subrange(1, t.len() as int) =~= trees(b->InList_items@));
            lists_are_told(items@, b->InList_items@);
        },
        EvalExpr::Like { escape, .. } => {
            assert(b is Like);
            assert(s[0] == t[0] && s[1] == t[1]);
            options_are_listed(escape);
            options_are_listed(b->Like_escape);
            if escape is Some {
                assert(s[2] == t[2]);
            }
        },
        EvalExpr::Case { .. } => {},
    }
}

/// A copy of a `CASE` has the operand, the arms and the `ELSE` of the `CASE`.
pub proof fn a_tree_tells_the_case(a: EvalExpr, b: EvalExpr)
    requires
        a.tree() == b.tree(),
        a is Case,
    ensures
        one_operator(a, b),
{
    let s = a.tree().operands;
    let t = b.tree().operands;
    assert(s == t);
    assert(b is Case);
    if let EvalExpr::Case { operand: x, whens: v, else_expr: h } = a {
        if let EvalExpr::Case { operand: y, whens: w, else_expr: k } = b {
            let lead: int = if x is Some {
                1
            } else {
                0
            };
            assert(x is Some <==> y is Some);
            assert(h is Some <==> k is Some);
            assert(arm_metas(v@).len() == v@.len());
            assert(arm_metas(w@).len() == w@.len());
            assert(v@.len() == w@.len());
            options_are_listed(x);
            options_are_listed(y);
            options_are_listed(h);
            options_are_listed(k);
            if x is Some {
                assert(s[0] == x->Some_0.tree() && t[0] == y->Some_0.tree());
            }
            let av = arm_trees(v@);
            let aw = arm_trees(w@);
            assert forall|i: int| 0 <= i < v@.len() implies (#[trigger] v@[i]).when.tree()
                == w@[i].when.tree() && v@[i].result.tree() == w@[i].result.tree() && v@[i].meta
                == w@[i].meta by {
                arms_are_listed(v@, i);
                arms_are_listed(w@, i);
                assert(s[lead + 2 * i] == av[2 * i] && t[lead + 2 * i] == aw[2 * i]);
                assert(s[lead + 2 * i + 1] == av[2 * i + 1] && t[lead + 2 * i + 1] == aw[2 * i
                    + 1]);
                assert(arm_metas(v@)[i] == v@[i].meta);
                assert(arm_metas(w@)[i] == w@[i].meta);
            }
            if h is Some {
                let last = lead + 2 * v@.len();
                assert(s[last] == h->Some_0.tree() && t[last] == k->Some_0.tree());
            }
        }
    }
}

} // verus!
