//! Bound expressions: what a name-resolved SQL expression evaluates, over the registers
//! of the row it is given.

#[allow(unused_imports)]
use vstd::prelude::*;
use crate::error::Error;
use crate::types::{Affinity, Collation, Value, ValueView};

verus! {

/// Which clock reading a `CURRENT_*` keyword takes.
#[derive(Debug, Clone, Copy, PartialEq, Eq, Structural)]
pub enum NowKind {
    Date,
    Time,
    Timestamp,
}

/// A resolved scalar function. `deterministic` is false for a function that may give two
/// different results on equal arguments (`random()`, the clock, the connection counters).
#[derive(Debug, Clone)]
pub struct ScalarFunction {
    pub name: String,
    pub deterministic: bool,
}

#[derive(Debug, Clone, Copy, PartialEq, Eq, Structural)]
pub enum UnaryOp {
    Negate,
    Not,
    BitNot,
    Plus,
}

#[derive(Debug, Clone, Copy, PartialEq, Eq, Structural)]
pub enum ArithOp {
    Add,
    Sub,
    Mul,
    Div,
    Rem,
}

#[derive(Debug, Clone, Copy, PartialEq, Eq, Structural)]
pub enum BitwiseOp {
    And,
    Or,
    ShiftLeft,
    ShiftRight,
}

#[derive(Debug, Clone, Copy, PartialEq, Eq, Structural)]
pub enum CompareOp {
    Eq,
    Ne,
    Lt,
    Le,
    Gt,
    Ge,
}

#[derive(Debug, Clone, Copy, PartialEq, Eq, Structural)]
pub enum LikeKind {
    Like,
    Glob,
    Match,
    Regexp,
}

#[derive(Debug, Clone, Copy, PartialEq, Eq, Structural)]
pub enum RaiseKind {
    Ignore,
    Rollback,
    Abort,
    Fail,
}

/// How one comparison converts and collates its operands.
#[derive(Debug, Clone, Copy, PartialEq, Eq, Structural)]
pub struct CompareMeta {
    pub apply_left: Option<Affinity>,
    pub apply_right: Option<Affinity>,
    pub collation: Collation,
}

/// One `WHEN .. THEN ..` arm. `meta` is present in a `CASE` with an operand, whose arms
/// compare for equality.
#[derive(Debug)]
pub struct CaseWhen {
    pub when: EvalExpr,
    pub result: EvalExpr,
    pub meta: Option<CompareMeta>,
}

/// A bound expression. `Column(i)` reads register `i` of the row; a subquery is named by
/// its position among the statement's subqueries.
#[allow(inconsistent_fields)]
#[derive(Debug)]
pub enum EvalExpr {
    Literal(Value),
    Column(usize),
    Param(usize),
    Now(NowKind),
    Func { func: ScalarFunction, args: Vec<EvalExpr> },
    Unary { op: UnaryOp, operand: Box<EvalExpr> },
    Cast { operand: Box<EvalExpr>, affinity: Affinity },
    Collate { operand: Box<EvalExpr>, collation: Collation },
    IsNull(Box<EvalExpr>),
    NotNull(Box<EvalExpr>),
    Arith { op: ArithOp, left: Box<EvalExpr>, right: Box<EvalExpr> },
    Concat { left: Box<EvalExpr>, right: Box<EvalExpr> },
    Bitwise { op: BitwiseOp, left: Box<EvalExpr>, right: Box<EvalExpr> },
    And(Box<EvalExpr>, Box<EvalExpr>),
    Or(Box<EvalExpr>, Box<EvalExpr>),
    Compare {
        op: CompareOp,
        left: Box<EvalExpr>,
        right: Box<EvalExpr>,
        meta: CompareMeta,
        null_safe: bool,
    },
    NullIf { left: Box<EvalExpr>, right: Box<EvalExpr>, meta: CompareMeta },
    Between {
        subject: Box<EvalExpr>,
        low: Box<EvalExpr>,
        high: Box<EvalExpr>,
        low_meta: CompareMeta,
        high_meta: CompareMeta,
        negated: bool,
    },
    InList { subject: Box<EvalExpr>, items: Vec<EvalExpr>, meta: CompareMeta, negated: bool },
    Coalesce(Vec<EvalExpr>),
    Case {
        operand: Option<Box<EvalExpr>>,
        whens: Vec<CaseWhen>,
        else_expr: Option<Box<EvalExpr>>,
    },
    Like {
        kind: LikeKind,
        subject: Box<EvalExpr>,
        pattern: Box<EvalExpr>,
        escape: Option<Box<EvalExpr>>,
        negated: bool,
    },
    InSubquery { subject: Box<EvalExpr>, subquery: usize, meta: CompareMeta, negated: bool },
    InSubqueryRow {
        subjects: Vec<EvalExpr>,
        subquery: usize,
        metas: Vec<CompareMeta>,
        negated: bool,
    },
    Exists { subquery: usize, negated: bool },
    ScalarSubquery(usize),
    ScalarSubqueryColumn { subquery: usize, column: usize },
    Raise { kind: RaiseKind, message: Option<String> },
}

/// What binding an expression gave.
pub type Bound = Result<EvalExpr, Error>;

/// The expressions of a list of bindings, or the message of the first that failed.
pub open spec fn bound_exprs(v: Seq<Bound>) -> Result<Seq<EvalExpr>, Seq<char>>
    decreases v.len(),
{
    if v.len() == 0 {
        Ok(seq![])
    } else {
        match (bound_exprs(v.drop_last()), v.last()) {
            (Err(text), _) => Err(text),
            (Ok(_), Err(e)) => Err(e.text()),
            (Ok(s), Ok(e)) => Ok(s.push(e)),
        }
    }
}

/// The predicate of a clause that may be left out.
pub open spec fn predicate_of(w: Option<Bound>) -> Option<EvalExpr> {
    match w {
        Some(Ok(e)) => Some(e),
        _ => None,
    }
}

/// The message of a clause that may be left out, if it failed to bind.
pub open spec fn predicate_error(w: Option<Bound>) -> Option<Seq<char>> {
    match w {
        Some(Err(e)) => Some(e.text()),
        _ => None,
    }
}

/// Take the predicate out of a clause that may be left out.
pub fn take_predicate(w: Option<Bound>) -> (r: Result<Option<EvalExpr>, Error>)
    ensures
        match (r, predicate_error(w)) {
            (Ok(p), None) => p == predicate_of(w),
            (Err(e), Some(text)) => e.text() == text,
            _ => false,
        },
{
    match w {
        Some(Ok(e)) => Ok(Some(e)),
        Some(Err(e)) => Err(e),
        None => Ok(None),
    }
}

/// A failed binding fails every list that begins with the same bindings.
pub proof fn lemma_bound_exprs_prefix(v: Seq<Bound>, k: int)
    requires
        0 <= k <= v.len(),
        bound_exprs(v.subrange(0, k)) is Err,
    ensures
        bound_exprs(v) == bound_exprs(v.subrange(0, k)),
    decreases v.len() - k,
{
    if k == v.len() {
        assert(v.subrange(0, k) =~= v);
    } else {
        assert(v.subrange(0, k + 1).drop_last() =~= v.subrange(0, k));
        lemma_bound_exprs_prefix(v, k + 1);
    }
}

/// Take the expressions out of a list of bindings.
pub fn take_exprs(v: Vec<Bound>) -> (r: Result<Vec<EvalExpr>, Error>)
    ensures
        crate::error::agrees(r, bound_exprs(v@)),
{
    let mut out: Vec<EvalExpr> = Vec::new();
    proof {
        assert(v@.subrange(0, 0) =~= seq![]);
    }
    for b in it: v
        invariant
            it.seq() == v@,
            bound_exprs(v@.subrange(0, it.index() as int)) == Ok::<Seq<EvalExpr>, Seq<char>>(out@),
    {
        proof {
            assert(v@.subrange(0, it.index() + 1).drop_last() =~= v@.subrange(
                0,
                it.index() as int,
            ));
            assert(v@.subrange(0, it.index() + 1).last() == b);
        }
        match b {
            Ok(e) => {
                out.push(e);
            },
            Err(e) => {
                proof {
                    lemma_bound_exprs_prefix(v@, it.index() + 1);
                }
                return Err(e);
            },
        }
    }
    proof {
        assert(v@.subrange(0, v@.len() as int) =~= v@);
    }
    Ok(out)
}

/// One `ORDER BY` key: an expression and how its values are ordered. `nulls_first` is
/// present where the statement says where NULLs go.
#[derive(Debug, Clone)]
pub struct SortKey {
    pub expr: EvalExpr,
    pub desc: bool,
    pub nulls_first: Option<bool>,
    pub collation: Collation,
}

/// One call of an aggregate function. `arg_collations[i]` is the collation under which
/// argument `i` is compared.
#[derive(Debug, Clone)]
pub struct AggregateCall {
    pub func: String,
    pub args: Vec<EvalExpr>,
    pub arg_collations: Vec<Collation>,
    pub distinct: bool,
    pub filter: Option<EvalExpr>,
    pub order_by: Vec<SortKey>,
}

/// What one node of an expression is, apart from its operands.
#[allow(inconsistent_fields)]
pub enum ExprNode {
    Literal(ValueView),
    Column(usize),
    Param(usize),
    Now(NowKind),
    Func { name: Seq<char>, deterministic: bool },
    Unary(UnaryOp),
    Cast(Affinity),
    Collate(Collation),
    IsNull,
    NotNull,
    Arith(ArithOp),
    Concat,
    Bitwise(BitwiseOp),
    And,
    Or,
    Compare { op: CompareOp, meta: CompareMeta, null_safe: bool },
    NullIf(CompareMeta),
    Between { low_meta: CompareMeta, high_meta: CompareMeta, negated: bool },
    InList { meta: CompareMeta, negated: bool },
    Coalesce,
    Case { has_operand: bool, metas: Seq<Option<CompareMeta>>, has_else: bool },
    Like { kind: LikeKind, has_escape: bool, negated: bool },
    InSubquery { subquery: usize, meta: CompareMeta, negated: bool },
    InSubqueryRow { subquery: usize, metas: Seq<CompareMeta>, negated: bool },
    Exists { subquery: usize, negated: bool },
    ScalarSubquery(usize),
    ScalarSubqueryColumn { subquery: usize, column: usize },
    Raise { kind: RaiseKind, message: Option<Seq<char>> },
}

/// An expression as a tree: a node and its operands, left to right.
pub struct ExprTree {
    pub node: ExprNode,
    pub operands: Seq<ExprTree>,
}

pub open spec fn text_of(s: Option<String>) -> Option<Seq<char>> {
    match s {
        Some(t) => Some(t@),
        None => None,
    }
}

/// The trees of a list of expressions.
pub open spec fn trees(v: Seq<EvalExpr>) -> Seq<ExprTree>
    decreases v,
{
    Seq::new(
        v.len(),
        |i: int|
            if 0 <= i < v.len() {
                v[i].tree()
            } else {
                arbitrary()
            },
    )
}

/// The trees of an optional expression: one or none.
pub open spec fn optional_tree(e: Option<Box<EvalExpr>>) -> Seq<ExprTree>
    decreases e,
{
    match e {
        Some(b) => seq![b.tree()],
        None => seq![],
    }
}

/// The trees of the arms of a `CASE`: condition and result of each arm in turn.
pub open spec fn arm_trees(v: Seq<CaseWhen>) -> Seq<ExprTree>
    decreases v,
{
    Seq::new(
        2 * v.len(),
        |k: int|
            if 0 <= k < 2 * v.len() {
                if k % 2 == 0 {
                    v[k / 2].when.tree()
                } else {
                    v[k / 2].result.tree()
                }
            } else {
                arbitrary()
            },
    )
}

pub open spec fn arm_metas(v: Seq<CaseWhen>) -> Seq<Option<CompareMeta>> {
    v.map_values(|w: CaseWhen| w.meta)
}

impl EvalExpr {
    /// The expression as a tree.
    pub open spec fn tree(self) -> ExprTree
        decreases self,
    {
        match self {
            EvalExpr::Literal(v) => ExprTree {
                node: ExprNode::Literal(v.model()),
                operands: seq![],
            },
            EvalExpr::Column(i) => ExprTree { node: ExprNode::Column(i), operands: seq![] },
            EvalExpr::Param(i) => ExprTree { node: ExprNode::Param(i), operands: seq![] },
            EvalExpr::Now(k) => ExprTree { node: ExprNode::Now(k), operands: seq![] },
            EvalExpr::Func { func, args } => ExprTree {
                node: ExprNode::Func { name: func.name@, deterministic: func.deterministic },
                operands: trees(args@),
            },
            EvalExpr::Unary { op, operand } => ExprTree {
                node: ExprNode::Unary(op),
                operands: seq![operand.tree()],
            },
            EvalExpr::Cast { operand, affinity } => ExprTree {
                node: ExprNode::Cast(affinity),
                operands: seq![operand.tree()],
            },
            EvalExpr::Collate { operand, collation } => ExprTree {
                node: ExprNode::Collate(collation),
                operands: seq![operand.tree()],
            },
            EvalExpr::IsNull(operand) => ExprTree {
                node: ExprNode::IsNull,
                operands: seq![operand.tree()],
            },
            EvalExpr::NotNull(operand) => ExprTree {
                node: ExprNode::NotNull,
                operands: seq![operand.tree()],
            },
            EvalExpr::Arith { op, left, right } => ExprTree {
                node: ExprNode::Arith(op),
                operands: seq![left.tree(), right.tree()],
            },
            EvalExpr::Concat { left, right } => ExprTree {
                node: ExprNode::Concat,
                operands: seq![left.tree(), right.tree()],
            },
            EvalExpr::Bitwise { op, left, right } => ExprTree {
                node: ExprNode::Bitwise(op),
                operands: seq![left.tree(), right.tree()],
            },
            EvalExpr::And(left, right) => ExprTree {
                node: ExprNode::And,
                operands: seq![left.tree(), right.tree()],
            },
            EvalExpr::Or(left, right) => ExprTree {
                node: ExprNode::Or,
                operands: seq![left.tree(), right.tree()],
            },
            EvalExpr::Compare { op, left, right, meta, null_safe } => ExprTree {
                node: ExprNode::Compare { op, meta, null_safe },
                operands: seq![left.tree(), right.tree()],
            },
            EvalExpr::NullIf { left, right, meta } => ExprTree {
                node: ExprNode::NullIf(meta),
                operands: seq![left.tree(), right.tree()],
            },
            EvalExpr::Between { subject, low, high, low_meta, high_meta, negated } => ExprTree {
                node: ExprNode::Between { low_meta, high_meta, negated },
                operands: seq![subject.tree(), low.tree(), high.tree()],
            },
            EvalExpr::InList { subject, items, meta, negated } => ExprTree {
                node: ExprNode::InList { meta, negated },
                operands: seq![subject.tree()] + trees(items@),
            },
            EvalExpr::Coalesce(items) => ExprTree {
                node: ExprNode::Coalesce,
                operands: trees(items@),
            },
            EvalExpr::Case { operand, whens, else_expr } => ExprTree {
                node: ExprNode::Case {
                    has_operand: operand is Some,
                    metas: arm_metas(whens@),
                    has_else: else_expr is Some,
                },
                operands: optional_tree(operand) + arm_trees(whens@) + optional_tree(else_expr),
            },
            EvalExpr::Like { kind, subject, pattern, escape, negated } => ExprTree {
                node: ExprNode::Like { kind, has_escape: escape is Some, negated },
                operands: seq![subject.tree(), pattern.tree()] + optional_tree(escape),
            },
            EvalExpr::InSubquery { subject, subquery, meta, negated } => ExprTree {
                node: ExprNode::InSubquery { subquery, meta, negated },
                operands: seq![subject.tree()],
            },
            EvalExpr::InSubqueryRow { subjects, subquery, metas, negated } => ExprTree {
                node: ExprNode::InSubqueryRow { subquery, metas: metas@, negated },
                operands: trees(subjects@),
            },
            EvalExpr::Exists { subquery, negated } => ExprTree {
                node: ExprNode::Exists { subquery, negated },
                operands: seq![],
            },
            EvalExpr::ScalarSubquery(subquery) => ExprTree {
                node: ExprNode::ScalarSubquery(subquery),
                operands: seq![],
            },
            EvalExpr::ScalarSubqueryColumn { subquery, column } => ExprTree {
                node: ExprNode::ScalarSubqueryColumn { subquery, column },
                operands: seq![],
            },
            EvalExpr::Raise { kind, message } => ExprTree {
                node: ExprNode::Raise { kind, message: text_of(message) },
                operands: seq![],
            },
        }
    }

    /// A second copy of this expression.
    pub fn dup(&self) -> (r: EvalExpr)
        ensures
            r.tree() == self.tree(),
        decreases self,
    {
        match self {
            EvalExpr::Literal(v) => EvalExpr::Literal(v.dup()),
            EvalExpr::Column(i) => EvalExpr::Column(*i),
            EvalExpr::Param(i) => EvalExpr::Param(*i),
            EvalExpr::Now(k) => EvalExpr::Now(*k),
            EvalExpr::Func { func, args } => EvalExpr::Func {
                func: func.dup(),
                args: dup_exprs(args),
            },
            EvalExpr::Unary { op, operand } => EvalExpr::Unary {
                op: *op,
                operand: Box::new(operand.dup()),
            },
            EvalExpr::Cast { operand, affinity } => EvalExpr::Cast {
                operand: Box::new(operand.dup()),
                affinity: *affinity,
            },
            EvalExpr::Collate { operand, collation } => EvalExpr::Collate {
                operand: Box::new(operand.dup()),
                collation: *collation,
            },
            EvalExpr::IsNull(operand) => EvalExpr::IsNull(Box::new(operand.dup())),
            EvalExpr::NotNull(operand) => EvalExpr::NotNull(Box::new(operand.dup())),
            EvalExpr::Arith { op, left, right } => EvalExpr::Arith {
                op: *op,
                left: Box::new(left.dup()),
                right: Box::new(right.dup()),
            },
            EvalExpr::Concat { left, right } => EvalExpr::Concat {
                left: Box::new(left.dup()),
                right: Box::new(right.dup()),
            },
            EvalExpr::Bitwise { op, left, right } => EvalExpr::Bitwise {
                op: *op,
                left: Box::new(left.dup()),
                right: Box::new(right.dup()),
            },
            EvalExpr::And(left, right) => EvalExpr::And(
                Box::new(left.dup()),
                Box::new(right.dup()),
            ),
            EvalExpr::Or(left, right) => EvalExpr::Or(Box::new(left.dup()), Box::new(right.dup())),
            EvalExpr::Compare { op, left, right, meta, null_safe } => EvalExpr::Compare {
                op: *op,
                left: Box::new(left.dup()),
                right: Box::new(right.dup()),
                meta: *meta,
                null_safe: *null_safe,
            },
            EvalExpr::NullIf { left, right, meta } => EvalExpr::NullIf {
                left: Box::new(left.dup()),
                right: Box::new(right.dup()),
                meta: *meta,
            },
            EvalExpr::Between { subject, low, high, low_meta, high_meta, negated } => {
                EvalExpr::Between {
                    subject: Box::new(subject.dup()),
                    low: Box::new(low.dup()),
                    high: Box::new(high.dup()),
                    low_meta: *low_meta,
                    high_meta: *high_meta,
                    negated: *negated,
                }
            },
            EvalExpr::InList { subject, items, meta, negated } => EvalExpr::InList {
                subject: Box::new(subject.dup()),
                items: dup_exprs(items),
                meta: *meta,
                negated: *negated,
            },
            EvalExpr::Coalesce(items) => EvalExpr::Coalesce(dup_exprs(items)),
            EvalExpr::Case { operand, whens, else_expr } => EvalExpr::Case {
                operand: dup_optional(operand),
                whens: dup_arms(whens),
                else_expr: dup_optional(else_expr),
            },
            EvalExpr::Like { kind, subject, pattern, escape, negated } => EvalExpr::Like {
                kind: *kind,
                subject: Box::new(subject.dup()),
                pattern: Box::new(pattern.dup()),
                escape: dup_optional(escape),
                negated: *negated,
            },
            EvalExpr::InSubquery { subject, subquery, meta, negated } => EvalExpr::InSubquery {
                subject: Box::new(subject.dup()),
                subquery: *subquery,
                meta: *meta,
                negated: *negated,
            },
            EvalExpr::InSubqueryRow { subjects, subquery, metas, negated } => {
                EvalExpr::InSubqueryRow {
                    subjects: dup_exprs(subjects),
                    subquery: *subquery,
                    metas: dup_metas(metas),
                    negated: *negated,
                }
            },
            EvalExpr::Exists { subquery, negated } => EvalExpr::Exists {
                subquery: *subquery,
                negated: *negated,
            },
            EvalExpr::ScalarSubquery(subquery) => EvalExpr::ScalarSubquery(*subquery),
            EvalExpr::ScalarSubqueryColumn { subquery, column } => {
                EvalExpr::ScalarSubqueryColumn { subquery: *subquery, column: *column }
            },
            EvalExpr::Raise { kind, message } => EvalExpr::Raise {
                kind: *kind,
                message: dup_text(message),
            },
        }
    }
}

impl Clone for EvalExpr {
    fn clone(&self) -> (r: EvalExpr)
        ensures
            r.tree() == self.tree(),
    {
        self.dup()
    }
}

impl ScalarFunction {
    /// A second copy of this function handle.
    pub fn dup(&self) -> (r: ScalarFunction)
        ensures
            r == *self,
    {
        ScalarFunction { name: self.name.clone(), deterministic: self.deterministic }
    }
}

/// A second copy of an optional text.
pub fn dup_text(s: &Option<String>) -> (r: Option<String>)
    ensures
        r == *s,
{
    match s {
        Some(t) => Some(t.clone()),
        None => None,
    }
}

fn dup_metas(v: &Vec<CompareMeta>) -> (r: Vec<CompareMeta>)
    ensures
        r@ == v@,
{
    let mut out: Vec<CompareMeta> = Vec::new();
    let mut i: usize = 0;
    while i < v.len()
        invariant
            i <= v.len(),
            out@ == v@.subrange(0, i as int),
        decreases v.len() - i,
    {
        out.push(v[i]);
        i = i + 1;
    }
    assert(out@ =~= v@);
    out
}

/// A second copy of a list of expressions.
pub fn dup_exprs(v: &Vec<EvalExpr>) -> (r: Vec<EvalExpr>)
    ensures
        trees(r@) == trees(v@),
    decreases v,
{
    let mut out: Vec<EvalExpr> = Vec::new();
    let mut i: usize = 0;
    while i < v.len()
        invariant
            i <= v.len(),
            out.len() == i,
            forall|k: int| 0 <= k < i ==> (#[trigger] out@[k]).tree() == v@[k].tree(),
        decreases v.len() - i,
    {
        out.push(v[i].dup());
        i = i + 1;
    }
    assert(trees(out@) =~= trees(v@));
    out
}

fn dup_optional(e: &Option<Box<EvalExpr>>) -> (r: Option<Box<EvalExpr>>)
    ensures
        r is Some == e is Some,
        optional_tree(r) == optional_tree(*e),
    decreases e,
{
    match e {
        Some(b) => Some(Box::new(b.dup())),
        None => None,
    }
}

fn dup_arms(v: &Vec<CaseWhen>) -> (r: Vec<CaseWhen>)
    ensures
        arm_trees(r@) == arm_trees(v@),
        arm_metas(r@) == arm_metas(v@),
    decreases v,
{
    let mut out: Vec<CaseWhen> = Vec::new();
    let mut i: usize = 0;
    while i < v.len()
        invariant
            i <= v.len(),
            out.len() == i,
            forall|k: int|
                0 <= k < i ==> {
                    &&& (#[trigger] out@[k]).when.tree() == v@[k].when.tree()
                    &&& out@[k].result.tree() == v@[k].result.tree()
                    &&& out@[k].meta == v@[k].meta
                },
        decreases v.len() - i,
    {
        let arm: &CaseWhen = &v[i];
        out.push(CaseWhen { when: arm.when.dup(), result: arm.result.dup(), meta: arm.meta });
        i = i + 1;
    }
    assert(arm_trees(out@) =~= arm_trees(v@));
    assert(arm_metas(out@) =~= arm_metas(v@));
    out
}

} // verus!
