//! Window functions.
//!
//! A window function runs after the row source and before the projection and appends one
//! column to the row. A call is bound to the function it computes, its partitions, order and
//! frame, and stands in its clause for the column it appends.

#[allow(unused_imports)]
use vstd::prelude::*;
use vstd::string::StringExecFns;
use vstd::string::StrSliceExecFns;
use crate::compile::ordering::{
    is_desc, nulls_first, says_nulls_first, sorts_desc, NullsOrder, SortOrder,
};
use crate::compile::window_chain::{
    ahead, chained, effective_spec, lemma_named_is_passed, over_window, passed, window_named,
    OverClause, SpecView, WindowDef, WindowSpec,
};
use crate::error::{agrees, Error};
use crate::expr::{
    bound_exprs, lemma_bound_exprs_prefix, take_exprs, AggregateCall, Bound, EvalExpr, SortKey,
};
use crate::plan::{PlanNode, Window, WindowFunc};
use crate::search::lemma_least_from;
use crate::text::{eq_ignore_ascii_case, fold, fold_char, same_name};
use crate::types::{Collation, Value};
use crate::window::{FrameBound, FrameExclude, FrameUnits, WindowFrame, WindowFuncKind};

verus! {

/// Whether `out` computes the functions over `input`; it is `input` itself where there are
/// none.
pub open spec fn is_windowed(out: PlanNode, input: PlanNode, functions: Seq<WindowFunc>) -> bool {
    if functions.len() == 0 {
        out == input
    } else {
        &&& out matches PlanNode::Window(w)
        &&& *w.input == input
        &&& w.functions@ == functions
    }
}

/// Put the collected window functions over the row source.
pub fn wrap_window_if_any(functions: Vec<WindowFunc>, input: PlanNode) -> (r: PlanNode)
    ensures
        is_windowed(r, input, functions@),
{
    if functions.len() == 0 {
        input
    } else {
        PlanNode::Window(Window { input: Box::new(input), functions })
    }
}

/// The eleven functions that exist only as window functions.
#[derive(Debug, Clone, Copy, PartialEq, Eq, Structural)]
pub enum BuiltinWindow {
    RowNumber,
    Rank,
    DenseRank,
    PercentRank,
    CumeDist,
    Ntile,
    Lag,
    Lead,
    FirstValue,
    LastValue,
    NthValue,
}

/// The built-in window function of a lower-case name.
pub open spec fn builtin_of(lname: Seq<char>) -> Option<BuiltinWindow> {
    if lname == "row_number"@ {
        Some(BuiltinWindow::RowNumber)
    } else if lname == "rank"@ {
        Some(BuiltinWindow::Rank)
    } else if lname == "dense_rank"@ {
        Some(BuiltinWindow::DenseRank)
    } else if lname == "percent_rank"@ {
        Some(BuiltinWindow::PercentRank)
    } else if lname == "cume_dist"@ {
        Some(BuiltinWindow::CumeDist)
    } else if lname == "ntile"@ {
        Some(BuiltinWindow::Ntile)
    } else if lname == "lag"@ {
        Some(BuiltinWindow::Lag)
    } else if lname == "lead"@ {
        Some(BuiltinWindow::Lead)
    } else if lname == "first_value"@ {
        Some(BuiltinWindow::FirstValue)
    } else if lname == "last_value"@ {
        Some(BuiltinWindow::LastValue)
    } else if lname == "nth_value"@ {
        Some(BuiltinWindow::NthValue)
    } else {
        None
    }
}

/// Whether the characters of a name are none that folding changes.
spec fn is_lower(s: Seq<char>) -> bool {
    forall|i: int| 0 <= i < s.len() ==> fold_char(#[trigger] s[i]) == s[i]
}

proof fn lemma_lower_is_its_fold(s: Seq<char>)
    requires
        is_lower(s),
    ensures
        fold(s) == s,
{
    assert(fold(s) =~= s);
}

proof fn lemma_builtin_names_are_lower()
    ensures
        fold("row_number"@) == "row_number"@,
        fold("rank"@) == "rank"@,
        fold("dense_rank"@) == "dense_rank"@,
        fold("percent_rank"@) == "percent_rank"@,
        fold("cume_dist"@) == "cume_dist"@,
        fold("ntile"@) == "ntile"@,
        fold("lag"@) == "lag"@,
        fold("lead"@) == "lead"@,
        fold("first_value"@) == "first_value"@,
        fold("last_value"@) == "last_value"@,
        fold("nth_value"@) == "nth_value"@,
{
    reveal_strlit("row_number");
    reveal_strlit("rank");
    reveal_strlit("dense_rank");
    reveal_strlit("percent_rank");
    reveal_strlit("cume_dist");
    reveal_strlit("ntile");
    reveal_strlit("lag");
    reveal_strlit("lead");
    reveal_strlit("first_value");
    reveal_strlit("last_value");
    reveal_strlit("nth_value");
    lemma_lower_is_its_fold("row_number"@);
    lemma_lower_is_its_fold("rank"@);
    lemma_lower_is_its_fold("dense_rank"@);
    lemma_lower_is_its_fold("percent_rank"@);
    lemma_lower_is_its_fold("cume_dist"@);
    lemma_lower_is_its_fold("ntile"@);
    lemma_lower_is_its_fold("lag"@);
    lemma_lower_is_its_fold("lead"@);
    lemma_lower_is_its_fold("first_value"@);
    lemma_lower_is_its_fold("last_value"@);
    lemma_lower_is_its_fold("nth_value"@);
}

/// The built-in window function of a name in any case.
fn builtin_window(name: &str) -> (r: Option<BuiltinWindow>)
    ensures
        r == builtin_of(fold(name@)),
{
    proof {
        lemma_builtin_names_are_lower();
    }
    if eq_ignore_ascii_case(name, "row_number") {
        Some(BuiltinWindow::RowNumber)
    } else if eq_ignore_ascii_case(name, "rank") {
        Some(BuiltinWindow::Rank)
    } else if eq_ignore_ascii_case(name, "dense_rank") {
        Some(BuiltinWindow::DenseRank)
    } else if eq_ignore_ascii_case(name, "percent_rank") {
        Some(BuiltinWindow::PercentRank)
    } else if eq_ignore_ascii_case(name, "cume_dist") {
        Some(BuiltinWindow::CumeDist)
    } else if eq_ignore_ascii_case(name, "ntile") {
        Some(BuiltinWindow::Ntile)
    } else if eq_ignore_ascii_case(name, "lag") {
        Some(BuiltinWindow::Lag)
    } else if eq_ignore_ascii_case(name, "lead") {
        Some(BuiltinWindow::Lead)
    } else if eq_ignore_ascii_case(name, "first_value") {
        Some(BuiltinWindow::FirstValue)
    } else if eq_ignore_ascii_case(name, "last_value") {
        Some(BuiltinWindow::LastValue)
    } else if eq_ignore_ascii_case(name, "nth_value") {
        Some(BuiltinWindow::NthValue)
    } else {
        None
    }
}

/// Whether a lower-case name is that of a built-in window function.
pub fn is_builtin_window_name(lname: &str) -> (r: bool)
    ensures
        r == (builtin_of(lname@) is Some),
{
    same_text(lname, "row_number") || same_text(lname, "rank") || same_text(lname, "dense_rank")
        || same_text(lname, "percent_rank") || same_text(lname, "cume_dist") || same_text(
        lname,
        "ntile",
    ) || same_text(lname, "lag") || same_text(lname, "lead") || same_text(lname, "first_value")
        || same_text(lname, "last_value") || same_text(lname, "nth_value")
}

fn same_text(a: &str, b: &str) -> (r: bool)
    ensures
        r == (a@ == b@),
{
    let n: usize = a.unicode_len();
    if n != b.unicode_len() {
        return false;
    }
    let mut i: usize = 0;
    while i < n
        invariant
            i <= n,
            n == a@.len(),
            n == b@.len(),
            forall|k: int| 0 <= k < i ==> a@[k] == b@[k],
        decreases n - i,
    {
        if a.get_char(i) != b.get_char(i) {
            return false;
        }
        i = i + 1;
    }
    assert(a@ =~= b@);
    true
}

/// The arguments of a function call: `*`, none, or a list.
#[derive(Debug)]
pub enum FunctionArgs {
    Star,
    Empty,
    List(Vec<Bound>),
}

/// The listed arguments; none for `*` and an empty list.
pub open spec fn listed(args: FunctionArgs) -> Seq<Bound> {
    match args {
        FunctionArgs::List(v) => v@,
        _ => seq![],
    }
}

pub open spec fn wrong_args_message(name: Seq<char>) -> Seq<char> {
    "wrong number of arguments to function "@ + name + "()"@
}

/// The function's "wrong number of arguments" error.
pub fn wrong_args(name: &str) -> (r: Error)
    ensures
        r.text() == wrong_args_message(name@),
{
    let mut s: String = String::from_str("wrong number of arguments to function ");
    s.append(name);
    s.append("()");
    Error::Sql(s)
}

/// Whether a built-in window function takes `n` arguments.
pub open spec fn takes(b: BuiltinWindow, n: nat) -> bool {
    match b {
        BuiltinWindow::Ntile => n == 1,
        BuiltinWindow::Lag => 1 <= n <= 3,
        BuiltinWindow::Lead => 1 <= n <= 3,
        BuiltinWindow::FirstValue => n == 1,
        BuiltinWindow::LastValue => n == 1,
        BuiltinWindow::NthValue => n == 2,
        _ => n == 0,
    }
}

/// Why a call of a built-in window function does not bind.
pub open spec fn builtin_error(b: BuiltinWindow, name: Seq<char>, args: FunctionArgs) -> Option<
    Seq<char>,
> {
    if args is Star || !takes(b, listed(args).len()) {
        Some(wrong_args_message(name))
    } else {
        match bound_exprs(listed(args)) {
            Err(text) => Some(text),
            Ok(_) => None,
        }
    }
}

/// The offset of `lag` and `lead` where none is written.
pub open spec fn one() -> EvalExpr {
    EvalExpr::Literal(Value::Integer(1))
}

/// The default of `lag` and `lead` where none is written.
pub open spec fn null() -> EvalExpr {
    EvalExpr::Literal(Value::Null)
}

/// The function that a built-in call with arguments `args` computes.
pub open spec fn builtin_kind(b: BuiltinWindow, args: Seq<EvalExpr>) -> WindowFuncKind {
    let offset = if args.len() > 1 {
        args[1]
    } else {
        one()
    };
    let default = if args.len() > 2 {
        args[2]
    } else {
        null()
    };
    match b {
        BuiltinWindow::RowNumber => WindowFuncKind::RowNumber,
        BuiltinWindow::Rank => WindowFuncKind::Rank,
        BuiltinWindow::DenseRank => WindowFuncKind::DenseRank,
        BuiltinWindow::PercentRank => WindowFuncKind::PercentRank,
        BuiltinWindow::CumeDist => WindowFuncKind::CumeDist,
        BuiltinWindow::Ntile => WindowFuncKind::Ntile(args[0]),
        BuiltinWindow::Lag => WindowFuncKind::Lag { expr: args[0], offset, default },
        BuiltinWindow::Lead => WindowFuncKind::Lead { expr: args[0], offset, default },
        BuiltinWindow::FirstValue => WindowFuncKind::FirstValue(args[0]),
        BuiltinWindow::LastValue => WindowFuncKind::LastValue(args[0]),
        BuiltinWindow::NthValue => WindowFuncKind::NthValue { expr: args[0], n: args[1] },
    }
}

/// Bind a call of a built-in window function. `orig` is the name as written.
pub fn bind_builtin_window_kind(b: BuiltinWindow, orig: &str, args: FunctionArgs) -> (r: Result<
    WindowFuncKind,
    Error,
>)
    ensures
        match (r, builtin_error(b, orig@, args)) {
            (Ok(kind), None) => bound_exprs(listed(args)) matches Ok(exprs) && kind
                == builtin_kind(b, exprs),
            (Err(e), Some(text)) => e.text() == text,
            _ => false,
        },
{
    let list: Vec<Bound> = match args {
        FunctionArgs::List(l) => l,
        FunctionArgs::Empty => Vec::new(),
        FunctionArgs::Star => {
            return Err(wrong_args(orig));
        },
    };
    proof {
        assert(list@ =~= listed(args));
    }
    let n: usize = list.len();
    let fits: bool = match b {
        BuiltinWindow::Ntile => n == 1,
        BuiltinWindow::Lag => 1 <= n && n <= 3,
        BuiltinWindow::Lead => 1 <= n && n <= 3,
        BuiltinWindow::FirstValue => n == 1,
        BuiltinWindow::LastValue => n == 1,
        BuiltinWindow::NthValue => n == 2,
        _ => n == 0,
    };
    if !fits {
        return Err(wrong_args(orig));
    }
    proof {
        lemma_bound_len(list@);
    }
    let mut exprs: Vec<EvalExpr> = match take_exprs(list) {
        Ok(v) => v,
        Err(e) => {
            return Err(e);
        },
    };
    let ghost all = exprs@;
    Ok(
        match b {
            BuiltinWindow::RowNumber => WindowFuncKind::RowNumber,
            BuiltinWindow::Rank => WindowFuncKind::Rank,
            BuiltinWindow::DenseRank => WindowFuncKind::DenseRank,
            BuiltinWindow::PercentRank => WindowFuncKind::PercentRank,
            BuiltinWindow::CumeDist => WindowFuncKind::CumeDist,
            BuiltinWindow::Ntile => WindowFuncKind::Ntile(exprs.remove(0)),
            BuiltinWindow::Lag => {
                let (expr, offset, default) = offset_args(exprs);
                WindowFuncKind::Lag { expr, offset, default }
            },
            BuiltinWindow::Lead => {
                let (expr, offset, default) = offset_args(exprs);
                WindowFuncKind::Lead { expr, offset, default }
            },
            BuiltinWindow::FirstValue => WindowFuncKind::FirstValue(exprs.remove(0)),
            BuiltinWindow::LastValue => WindowFuncKind::LastValue(exprs.remove(0)),
            BuiltinWindow::NthValue => {
                let expr: EvalExpr = exprs.remove(0);
                let nth: EvalExpr = exprs.remove(0);
                WindowFuncKind::NthValue { expr, n: nth }
            },
        },
    )
}

proof fn lemma_bound_len(v: Seq<Bound>)
    ensures
        bound_exprs(v) matches Ok(s) ==> s.len() == v.len(),
    decreases v.len(),
{
    if v.len() > 0 {
        lemma_bound_len(v.drop_last());
    }
}

/// The arguments of `lag` and `lead`, with those that are not written filled in.
fn offset_args(exprs: Vec<EvalExpr>) -> (r: (EvalExpr, EvalExpr, EvalExpr))
    requires
        1 <= exprs@.len() <= 3,
    ensures
        r.0 == exprs@[0],
        r.1 == if exprs@.len() > 1 {
            exprs@[1]
        } else {
            one()
        },
        r.2 == if exprs@.len() > 2 {
            exprs@[2]
        } else {
            null()
        },
{
    let mut exprs: Vec<EvalExpr> = exprs;
    let n: usize = exprs.len();
    let expr: EvalExpr = exprs.remove(0);
    let offset: EvalExpr = if n > 1 {
        exprs.remove(0)
    } else {
        EvalExpr::Literal(Value::Integer(1))
    };
    let default: EvalExpr = if n > 2 {
        exprs.remove(0)
    } else {
        EvalExpr::Literal(Value::Null)
    };
    (expr, offset, default)
}

/// An `ORDER BY` term of a window or of an aggregate's arguments, with what binding found for
/// it. `collation` is the collation written after the term, if there is one, and
/// `own_collation` that of its expression.
#[derive(Debug)]
pub struct BoundOrderTerm {
    pub expr: Bound,
    pub order: Option<SortOrder>,
    pub nulls: Option<NullsOrder>,
    pub collation: Option<Result<Collation, Error>>,
    pub own_collation: Collation,
}

/// The sort key of a term, or why it has none.
pub open spec fn term_key(t: BoundOrderTerm) -> Result<SortKey, Seq<char>> {
    match (t.expr, t.collation) {
        (Err(e), _) => Err(e.text()),
        (Ok(_), Some(Err(e))) => Err(e.text()),
        (Ok(expr), explicit) => Ok(
            SortKey {
                expr,
                desc: sorts_desc(t.order),
                nulls_first: says_nulls_first(t.nulls),
                collation: match explicit {
                    Some(Ok(c)) => c,
                    _ => t.own_collation,
                },
            },
        ),
    }
}

/// The sort keys of a list of terms, or the message of the first that has none.
pub open spec fn term_keys(ts: Seq<BoundOrderTerm>) -> Result<Seq<SortKey>, Seq<char>>
    decreases ts.len(),
{
    if ts.len() == 0 {
        Ok(seq![])
    } else {
        match term_keys(ts.drop_last()) {
            Err(text) => Err(text),
            Ok(keys) => match term_key(ts.last()) {
                Err(text) => Err(text),
                Ok(key) => Ok(keys.push(key)),
            },
        }
    }
}

proof fn lemma_term_keys_prefix(ts: Seq<BoundOrderTerm>, k: int)
    requires
        0 <= k <= ts.len(),
        term_keys(ts.subrange(0, k)) is Err,
    ensures
        term_keys(ts) == term_keys(ts.subrange(0, k)),
    decreases ts.len() - k,
{
    if k == ts.len() {
        assert(ts.subrange(0, k) =~= ts);
    } else {
        assert(ts.subrange(0, k + 1).drop_last() =~= ts.subrange(0, k));
        lemma_term_keys_prefix(ts, k + 1);
    }
}

/// The sort key of a term.
pub fn bind_window_order_term(t: BoundOrderTerm) -> (r: Result<SortKey, Error>)
    ensures
        match (r, term_key(t)) {
            (Ok(k), Ok(want)) => k == want,
            (Err(e), Err(text)) => e.text() == text,
            _ => false,
        },
{
    let expr: EvalExpr = match t.expr {
        Ok(e) => e,
        Err(e) => {
            return Err(e);
        },
    };
    let collation: Collation = match t.collation {
        Some(Ok(c)) => c,
        Some(Err(e)) => {
            return Err(e);
        },
        None => t.own_collation,
    };
    Ok(SortKey { expr, desc: is_desc(t.order), nulls_first: nulls_first(t.nulls), collation })
}

fn bind_order_terms(terms: Vec<BoundOrderTerm>) -> (r: Result<Vec<SortKey>, Error>)
    ensures
        agrees(r, term_keys(terms@)),
{
    let ghost all = terms@;
    let mut keys: Vec<SortKey> = Vec::new();
    proof {
        assert(all.subrange(0, 0) =~= seq![]);
    }
    for t in it: terms
        invariant
            it.seq() == all,
            term_keys(all.subrange(0, it.index() as int)) == Ok::<Seq<SortKey>, Seq<char>>(keys@),
    {
        proof {
            let next = all.subrange(0, it.index() + 1);
            assert(next.drop_last() =~= all.subrange(0, it.index() as int));
            assert(next.last() == t);
        }
        match bind_window_order_term(t) {
            Ok(k) => {
                keys.push(k);
            },
            Err(e) => {
                proof {
                    lemma_term_keys_prefix(all, it.index() + 1);
                }
                return Err(e);
            },
        }
    }
    proof {
        assert(all.subrange(0, all.len() as int) =~= all);
    }
    Ok(keys)
}

/// A frame boundary as written, its offset bound.
#[derive(Debug)]
pub enum BoundaryClause {
    UnboundedPreceding,
    Preceding(Bound),
    CurrentRow,
    Following(Bound),
    UnboundedFollowing,
}

/// A frame as written, its offsets bound.
#[derive(Debug)]
pub struct FrameClause {
    pub units: FrameUnits,
    pub start: BoundaryClause,
    pub end: Option<BoundaryClause>,
    pub exclude: Option<FrameExclude>,
}

/// A frame boundary, or why it does not bind.
pub open spec fn boundary(b: BoundaryClause) -> Result<FrameBound, Seq<char>> {
    match b {
        BoundaryClause::UnboundedPreceding => Ok(FrameBound::UnboundedPreceding),
        BoundaryClause::Preceding(Ok(e)) => Ok(FrameBound::Preceding(e)),
        BoundaryClause::Preceding(Err(e)) => Err(e.text()),
        BoundaryClause::CurrentRow => Ok(FrameBound::CurrentRow),
        BoundaryClause::Following(Ok(e)) => Ok(FrameBound::Following(e)),
        BoundaryClause::Following(Err(e)) => Err(e.text()),
        BoundaryClause::UnboundedFollowing => Ok(FrameBound::UnboundedFollowing),
    }
}

/// The frame of nothing written: from the start of the partition to the last peer of the
/// current row.
pub open spec fn default_frame() -> WindowFrame {
    WindowFrame {
        units: FrameUnits::Range,
        start: FrameBound::UnboundedPreceding,
        end: FrameBound::CurrentRow,
        exclude: FrameExclude::NoOthers,
    }
}

/// The frame that a clause stands for. An end that is not written is the current row, and an
/// exclusion that is not written excludes nothing.
pub open spec fn frame_of(clause: Option<FrameClause>) -> Result<WindowFrame, Seq<char>> {
    match clause {
        None => Ok(default_frame()),
        Some(f) => {
            let end = match f.end {
                Some(b) => boundary(b),
                None => Ok(FrameBound::CurrentRow),
            };
            match (boundary(f.start), end) {
                (Err(text), _) => Err(text),
                (Ok(_), Err(text)) => Err(text),
                (Ok(start), Ok(end)) => Ok(
                    WindowFrame {
                        units: f.units,
                        start,
                        end,
                        exclude: match f.exclude {
                            Some(x) => x,
                            None => FrameExclude::NoOthers,
                        },
                    },
                ),
            }
        },
    }
}

/// The frame that a clause stands for.
pub fn bind_frame(clause: Option<FrameClause>) -> (r: Result<WindowFrame, Error>)
    ensures
        match (r, frame_of(clause)) {
            (Ok(f), Ok(want)) => f == want,
            (Err(e), Err(text)) => e.text() == text,
            _ => false,
        },
{
    let f: FrameClause = match clause {
        Some(f) => f,
        None => {
            return Ok(WindowFrame::default_frame());
        },
    };
    let start: FrameBound = match bind_frame_bound(f.start) {
        Ok(b) => b,
        Err(e) => {
            return Err(e);
        },
    };
    let end: FrameBound = match f.end {
        Some(b) => match bind_frame_bound(b) {
            Ok(b) => b,
            Err(e) => {
                return Err(e);
            },
        },
        None => FrameBound::CurrentRow,
    };
    let exclude: FrameExclude = match f.exclude {
        Some(x) => x,
        None => FrameExclude::NoOthers,
    };
    Ok(WindowFrame { units: f.units, start, end, exclude })
}

fn bind_frame_bound(b: BoundaryClause) -> (r: Result<FrameBound, Error>)
    ensures
        match (r, boundary(b)) {
            (Ok(f), Ok(want)) => f == want,
            (Err(e), Err(text)) => e.text() == text,
            _ => false,
        },
{
    match b {
        BoundaryClause::UnboundedPreceding => Ok(FrameBound::UnboundedPreceding),
        BoundaryClause::Preceding(Ok(e)) => Ok(FrameBound::Preceding(e)),
        BoundaryClause::Preceding(Err(e)) => Err(e),
        BoundaryClause::CurrentRow => Ok(FrameBound::CurrentRow),
        BoundaryClause::Following(Ok(e)) => Ok(FrameBound::Following(e)),
        BoundaryClause::Following(Err(e)) => Err(e),
        BoundaryClause::UnboundedFollowing => Ok(FrameBound::UnboundedFollowing),
    }
}

/// The place of a boundary from the start of the partition to its end.
pub open spec fn place(b: FrameBound) -> int {
    match b {
        FrameBound::UnboundedPreceding => 1,
        FrameBound::Preceding(_) => 2,
        FrameBound::CurrentRow => 3,
        FrameBound::Following(_) => 4,
        FrameBound::UnboundedFollowing => 5,
    }
}

/// Whether a boundary has an offset.
pub open spec fn has_offset(b: FrameBound) -> bool {
    b is Preceding || b is Following
}

/// Why a frame is not allowed in a window with `num_order_by` terms of `ORDER BY`.
pub open spec fn frame_error(frame: WindowFrame, num_order_by: nat) -> Option<Seq<char>> {
    if frame.start is UnboundedFollowing {
        Some("a window frame may not start with UNBOUNDED FOLLOWING"@)
    } else if frame.end is UnboundedPreceding {
        Some("a window frame may not end with UNBOUNDED PRECEDING"@)
    } else if place(frame.end) < place(frame.start) {
        Some("the window frame ending boundary may not precede the starting boundary"@)
    } else if frame.units == FrameUnits::Range && (has_offset(frame.start) || has_offset(frame.end))
        && num_order_by != 1 {
        Some(
            "RANGE with an offset PRECEDING/FOLLOWING boundary requires exactly one ORDER BY term"@,
        )
    } else {
        None
    }
}

/// Check that a frame is allowed in a window with `num_order_by` terms of `ORDER BY`.
pub fn validate_frame(frame: &WindowFrame, num_order_by: usize) -> (r: Result<(), Error>)
    ensures
        match (r, frame_error(*frame, num_order_by as nat)) {
            (Ok(_), None) => true,
            (Err(e), Some(text)) => e.text() == text,
            _ => false,
        },
{
    if matches!(frame.start, FrameBound::UnboundedFollowing) {
        return Err(Error::sql("a window frame may not start with UNBOUNDED FOLLOWING"));
    }
    if matches!(frame.end, FrameBound::UnboundedPreceding) {
        return Err(Error::sql("a window frame may not end with UNBOUNDED PRECEDING"));
    }
    if bound_rank(&frame.end) < bound_rank(&frame.start) {
        return Err(
            Error::sql("the window frame ending boundary may not precede the starting boundary"),
        );
    }
    if frame.units == FrameUnits::Range && (is_offset_bound(&frame.start) || is_offset_bound(
        &frame.end,
    )) && num_order_by != 1 {
        return Err(
            Error::sql(
                "RANGE with an offset PRECEDING/FOLLOWING boundary requires exactly one ORDER BY term",
            ),
        );
    }
    Ok(())
}

fn bound_rank(b: &FrameBound) -> (r: u8)
    ensures
        r == place(*b),
{
    match b {
        FrameBound::UnboundedPreceding => 1,
        FrameBound::Preceding(_) => 2,
        FrameBound::CurrentRow => 3,
        FrameBound::Following(_) => 4,
        FrameBound::UnboundedFollowing => 5,
    }
}

fn is_offset_bound(b: &FrameBound) -> (r: bool)
    ensures
        r == has_offset(*b),
{
    match b {
        FrameBound::Preceding(_) => true,
        FrameBound::Following(_) => true,
        _ => false,
    }
}

/// What the function registry says of a name: whether it is an aggregate, whether it is known
/// at all, and the aggregate that the name and the number of arguments resolve to.
#[derive(Debug)]
pub struct RegistryFacts {
    pub is_aggregate: bool,
    pub is_known: bool,
    pub resolved: Result<String, Error>,
}

/// A window-function call with its parts bound, other than its window. `arg_collations` are
/// the collations of its arguments, and `order_by` the order written among its arguments.
#[derive(Debug)]
pub struct WindowCall {
    pub name: String,
    pub distinct: bool,
    pub args: FunctionArgs,
    pub arg_collations: Vec<Collation>,
    pub filter: Option<Bound>,
    pub order_by: Vec<BoundOrderTerm>,
    pub registry: RegistryFacts,
}

/// Whether a call is of an aggregate: with `*` only `count` is one.
pub open spec fn aggregates(call: WindowCall) -> bool {
    if call.args is Star {
        same_name(call.name@, "count"@)
    } else {
        call.registry.is_aggregate
    }
}

pub open spec fn not_a_window_function(name: Seq<char>) -> Seq<char> {
    name + "() may not be used as a window function"@
}

pub open spec fn ordered_builtin_message(name: Seq<char>) -> Seq<char> {
    "ORDER BY may not be used with the non-aggregate function "@ + name + "()"@
}

/// Why an aggregate call does not bind: its arguments, its order and its filter, in the order
/// in which they are written, and then its name.
pub open spec fn aggregate_error(call: WindowCall) -> Option<Seq<char>> {
    match bound_exprs(listed(call.args)) {
        Err(text) => Some(text),
        Ok(_) => match term_keys(call.order_by@) {
            Err(text) => Some(text),
            Ok(_) => match (call.filter, call.registry.resolved) {
                (Some(Err(e)), _) => Some(e.text()),
                (_, Err(e)) => Some(e.text()),
                _ => None,
            },
        },
    }
}

/// Why the function of a call does not bind.
pub open spec fn kind_error(call: WindowCall) -> Option<Seq<char>> {
    match builtin_of(fold(call.name@)) {
        Some(b) => if call.filter is Some {
            Some("FILTER clause may only be used with aggregate window functions"@)
        } else if call.order_by@.len() > 0 {
            Some(ordered_builtin_message(call.name@))
        } else {
            builtin_error(b, call.name@, call.args)
        },
        None => if aggregates(call) {
            aggregate_error(call)
        } else {
            match call.registry.resolved {
                Err(e) => if call.registry.is_known {
                    Some(not_a_window_function(call.name@))
                } else {
                    Some(e.text())
                },
                Ok(_) => Some(not_a_window_function(call.name@)),
            }
        },
    }
}

/// Whether `kind` is the function of a call: a built-in, or the aggregate of its name over its
/// arguments, order and filter.
pub open spec fn is_kind(kind: WindowFuncKind, call: WindowCall) -> bool {
    match builtin_of(fold(call.name@)) {
        Some(b) => bound_exprs(listed(call.args)) matches Ok(exprs) && kind == builtin_kind(
            b,
            exprs,
        ),
        None => {
            &&& kind matches WindowFuncKind::Aggregate(agg)
            &&& call.registry.resolved == Ok::<String, Error>(agg.func)
            &&& bound_exprs(listed(call.args)) == Ok::<Seq<EvalExpr>, Seq<char>>(agg.args@)
            &&& term_keys(call.order_by@) == Ok::<Seq<SortKey>, Seq<char>>(agg.order_by@)
            &&& agg.arg_collations == call.arg_collations
            &&& !agg.distinct
            &&& match call.filter {
                None => agg.filter is None,
                Some(f) => agg.filter matches Some(e) && f == Ok::<EvalExpr, Error>(e),
            }
        },
    }
}

/// Bind the function of a call.
pub fn bind_window_kind(call: WindowCall) -> (r: Result<WindowFuncKind, Error>)
    ensures
        match (r, kind_error(call)) {
            (Ok(kind), None) => is_kind(kind, call),
            (Err(e), Some(text)) => e.text() == text,
            _ => false,
        },
{
    let ghost whole = call;
    if let Some(b) = builtin_window(call.name.as_str()) {
        if call.filter.is_some() {
            return Err(
                Error::sql("FILTER clause may only be used with aggregate window functions"),
            );
        }
        if call.order_by.len() > 0 {
            let mut s: String = String::from_str(
                "ORDER BY may not be used with the non-aggregate function ",
            );
            s.append(call.name.as_str());
            s.append("()");
            return Err(Error::Sql(s));
        }
        return bind_builtin_window_kind(b, call.name.as_str(), call.args);
    }
    if !is_aggregate_window(&call) {
        if call.registry.is_known {
            return Err(misused(call.name.as_str()));
        }
        return match call.registry.resolved {
            Err(e) => Err(e),
            Ok(_) => Err(misused(call.name.as_str())),
        };
    }
    let args: Vec<EvalExpr> = match bind_arg_list(call.args) {
        Ok(v) => v,
        Err(e) => {
            return Err(e);
        },
    };
    let order_by: Vec<SortKey> = match bind_order_terms(call.order_by) {
        Ok(v) => v,
        Err(e) => {
            return Err(e);
        },
    };
    let filter: Option<EvalExpr> = match call.filter {
        Some(Ok(e)) => Some(e),
        Some(Err(e)) => {
            return Err(e);
        },
        None => None,
    };
    let func: String = match call.registry.resolved {
        Ok(f) => f,
        Err(e) => {
            return Err(e);
        },
    };
    Ok(
        WindowFuncKind::Aggregate(
            AggregateCall {
                func,
                args,
                arg_collations: call.arg_collations,
                distinct: false,
                filter,
                order_by,
            },
        ),
    )
}

fn misused(name: &str) -> (r: Error)
    ensures
        r.text() == not_a_window_function(name@),
{
    let mut s: String = String::new();
    s.append(name);
    s.append("() may not be used as a window function");
    proof {
        assert(Seq::<char>::empty() + name@ =~= name@);
    }
    Error::Sql(s)
}

/// The arguments of a call; `*` has none.
pub fn bind_arg_list(args: FunctionArgs) -> (r: Result<Vec<EvalExpr>, Error>)
    ensures
        agrees(r, bound_exprs(listed(args))),
{
    match args {
        FunctionArgs::List(v) => take_exprs(v),
        _ => Ok(Vec::new()),
    }
}

/// The number of arguments by which a name is resolved; `*` counts as none.
pub fn arg_count(args: &FunctionArgs) -> (r: usize)
    ensures
        r == listed(*args).len(),
{
    match args {
        FunctionArgs::List(v) => v.len(),
        _ => 0,
    }
}

/// Whether a call is of an aggregate.
pub fn is_aggregate_window(call: &WindowCall) -> (r: bool)
    ensures
        r == aggregates(*call),
{
    match &call.args {
        FunctionArgs::Star => eq_ignore_ascii_case(call.name.as_str(), "count"),
        _ => call.registry.is_aggregate,
    }
}

/// A `PARTITION BY` key: its expression and its collation.
#[derive(Debug)]
pub struct BoundPartition {
    pub expr: Bound,
    pub collation: Collation,
}

/// A window with the windows it extends worked in and its clauses bound.
#[derive(Debug)]
pub struct BoundWindow {
    pub partition_by: Vec<BoundPartition>,
    pub order_by: Vec<BoundOrderTerm>,
    pub frame: Option<FrameClause>,
}

/// What a [`BoundWindow`] holds.
pub struct WindowView {
    pub partition_by: Seq<BoundPartition>,
    pub order_by: Seq<BoundOrderTerm>,
    pub frame: Option<FrameClause>,
}

impl BoundWindow {
    pub open spec fn view(self) -> WindowView {
        WindowView {
            partition_by: self.partition_by@,
            order_by: self.order_by@,
            frame: self.frame,
        }
    }
}

/// The window clauses that a call may pick, bound, each list in the order of the statement. What
/// binding a clause gave matters only where the call picks it.
#[derive(Debug)]
pub struct WindowClauses {
    pub partitions: Vec<BoundPartition>,
    pub orders: Vec<BoundOrderTerm>,
    pub frames: Vec<FrameClause>,
}

/// Whether the positions of a window are those of clauses, each named once.
pub open spec fn positions_fit(spec: SpecView, clauses: WindowClauses) -> bool {
    &&& spec.partition_by.no_duplicates()
    &&& spec.order_by.no_duplicates()
    &&& forall|i: int|
        0 <= i < spec.partition_by.len() ==> #[trigger] spec.partition_by[i]
            < clauses.partitions@.len()
    &&& forall|i: int|
        0 <= i < spec.order_by.len() ==> #[trigger] spec.order_by[i] < clauses.orders@.len()
    &&& spec.frame matches Some(i) ==> i < clauses.frames@.len()
}

/// Whether the positions of every window that a call may pick from are those of clauses.
pub open spec fn clauses_fit(
    over: OverClause,
    windows: Seq<WindowDef>,
    clauses: WindowClauses,
) -> bool {
    &&& over matches OverClause::Spec(spec) ==> positions_fit(spec@, clauses)
    &&& forall|k: int|
        0 <= k < windows.len() ==> positions_fit((#[trigger] windows[k]).spec@, clauses)
}

/// The elements at the given positions, in the order of the positions.
pub open spec fn picked<T>(all: Seq<T>, positions: Seq<usize>) -> Seq<T> {
    Seq::new(positions.len(), |i: int| all[positions[i] as int])
}

/// The window of a call: the clauses that its `OVER` picks, through the windows that it names or
/// extends, or why it picks none.
pub open spec fn window_over(
    over: OverClause,
    windows: Seq<WindowDef>,
    clauses: WindowClauses,
) -> Result<WindowView, Seq<char>> {
    match over_window(over, windows) {
        Err(text) => Err(text),
        Ok(spec) => Ok(
            WindowView {
                partition_by: picked(clauses.partitions@, spec.partition_by),
                order_by: picked(clauses.orders@, spec.order_by),
                frame: match spec.frame {
                    Some(i) => Some(clauses.frames@[i as int]),
                    None => None,
                },
            },
        ),
    }
}

/// The window functions collected from the clauses of a query, whose results are appended to a
/// row of width `input_width`.
#[derive(Debug)]
pub struct Windowing {
    pub input_width: usize,
    pub functions: Vec<WindowFunc>,
}

pub open spec fn partition_bounds(ps: Seq<BoundPartition>) -> Seq<Bound> {
    ps.map_values(|p: BoundPartition| p.expr)
}

pub open spec fn partition_collations(ps: Seq<BoundPartition>) -> Seq<Collation> {
    ps.map_values(|p: BoundPartition| p.collation)
}

pub open spec fn misuse_message(name: Seq<char>) -> Seq<char> {
    "misuse of window function "@ + name + "()"@
}

/// Why the window of a call does not bind: its partitions, order and frame, in that order, and
/// then what makes the frame not allowed.
pub open spec fn window_error(w: WindowView) -> Option<Seq<char>> {
    match bound_exprs(partition_bounds(w.partition_by)) {
        Err(text) => Some(text),
        Ok(_) => match term_keys(w.order_by) {
            Err(text) => Some(text),
            Ok(keys) => match frame_of(w.frame) {
                Err(text) => Some(text),
                Ok(frame) => frame_error(frame, keys.len()),
            },
        },
    }
}

/// Why a window-function call does not bind. It may stand only where window functions are
/// allowed, its window has to resolve, it may not be `DISTINCT`, and its function and its
/// window have to bind.
pub open spec fn call_error(
    allowed: bool,
    call: WindowCall,
    window: Result<WindowView, Seq<char>>,
) -> Option<Seq<char>> {
    if !allowed {
        Some(misuse_message(call.name@))
    } else {
        match window {
            Err(text) => Some(text),
            Ok(w) => if call.distinct {
                Some("DISTINCT is not supported for window functions"@)
            } else {
                match kind_error(call) {
                    Some(text) => Some(text),
                    None => window_error(w),
                }
            },
        }
    }
}

/// Whether `f` is the window function of a call.
pub open spec fn is_window_function(f: WindowFunc, call: WindowCall, w: WindowView) -> bool {
    &&& is_kind(f.kind, call)
    &&& bound_exprs(partition_bounds(w.partition_by)) == Ok::<Seq<EvalExpr>, Seq<char>>(
        f.partition_by@,
    )
    &&& f.partition_collations@ == partition_collations(w.partition_by)
    &&& term_keys(w.order_by) == Ok::<Seq<SortKey>, Seq<char>>(f.order_by@)
    &&& frame_of(w.frame) == Ok::<WindowFrame, Seq<char>>(f.frame)
}

/// Whether one more function was collected, and `e` stands for the column appended for it.
pub open spec fn is_collected(e: EvalExpr, before: Windowing, after: Windowing) -> bool {
    &&& e == EvalExpr::Column((before.input_width + before.functions@.len()) as usize)
    &&& after.input_width == before.input_width
    &&& after.functions@.len() == before.functions@.len() + 1
    &&& after.functions@.drop_last() == before.functions@
}

/// Bind a window-function call: its function is collected, and the call stands for the column
/// appended for it. `allowed` says whether the clause it stands in may hold window functions.
/// Its window is the one that its `OVER` writes out or names, with the windows of the `WINDOW`
/// clause that it extends worked in.
pub fn bind_window_function(
    windowing: &mut Windowing,
    allowed: bool,
    call: WindowCall,
    over: &OverClause,
    windows: &Vec<WindowDef>,
    clauses: WindowClauses,
) -> (r: Result<EvalExpr, Error>)
    requires
        old(windowing).input_width + old(windowing).functions@.len() <= usize::MAX,
        clauses_fit(*over, windows@, clauses),
    ensures
        match (r, call_error(allowed, call, window_over(*over, windows@, clauses))) {
            (Ok(e), None) => {
                &&& is_collected(e, *old(windowing), *final(windowing))
                &&& window_over(*over, windows@, clauses) matches Ok(w) && is_window_function(
                    final(windowing).functions@.last(),
                    call,
                    w,
                )
            },
            (Err(e), Some(text)) => e.text() == text && *final(windowing) == *old(windowing),
            _ => false,
        },
{
    if !allowed {
        let mut s: String = String::from_str("misuse of window function ");
        s.append(call.name.as_str());
        s.append("()");
        return Err(Error::Sql(s));
    }
    let spec: WindowSpec = match effective_spec(over, windows) {
        Ok(s) => s,
        Err(e) => {
            return Err(e);
        },
    };
    if call.distinct {
        return Err(Error::sql("DISTINCT is not supported for window functions"));
    }
    proof {
        lemma_resolved_positions_fit(*over, windows@, clauses);
    }
    let window: BoundWindow = pick_clauses(spec, clauses);
    match window_function(call, window) {
        Ok(f) => {
            let idx: usize = windowing.functions.len();
            windowing.functions.push(f);
            proof {
                assert(windowing.functions@.drop_last() =~= old(windowing).functions@);
            }
            Ok(EvalExpr::Column(windowing.input_width + idx))
        },
        Err(e) => Err(e),
    }
}

/// The window function of a call over its window.
fn window_function(call: WindowCall, window: BoundWindow) -> (r: Result<WindowFunc, Error>)
    requires
        !call.distinct,
    ensures
        match (r, call_error(true, call, Ok(window@))) {
            (Ok(f), None) => is_window_function(f, call, window@),
            (Err(e), Some(text)) => e.text() == text,
            _ => false,
        },
{
    let kind: WindowFuncKind = match bind_window_kind(call) {
        Ok(k) => k,
        Err(e) => {
            return Err(e);
        },
    };
    let (partition_by, collations): (Vec<EvalExpr>, Vec<Collation>) = match bind_partitions(
        window.partition_by,
    ) {
        Ok(p) => p,
        Err(e) => {
            return Err(e);
        },
    };
    let order_by: Vec<SortKey> = match bind_order_terms(window.order_by) {
        Ok(v) => v,
        Err(e) => {
            return Err(e);
        },
    };
    let frame: WindowFrame = match bind_frame(window.frame) {
        Ok(f) => f,
        Err(e) => {
            return Err(e);
        },
    };
    match validate_frame(&frame, order_by.len()) {
        Ok(_) => {},
        Err(e) => {
            return Err(e);
        },
    }
    Ok(WindowFunc { kind, partition_by, partition_collations: collations, order_by, frame })
}

proof fn lemma_chained_positions_fit(
    windows: Seq<WindowDef>,
    spec: SpecView,
    visited: Seq<Seq<char>>,
    clauses: WindowClauses,
)
    requires
        positions_fit(spec, clauses),
        forall|k: int|
            0 <= k < windows.len() ==> positions_fit((#[trigger] windows[k]).spec@, clauses),
    ensures
        chained(windows, spec, visited) matches Ok(v) ==> positions_fit(v, clauses),
    decreases ahead(windows, visited),
{
    if let Some(b) = spec.base {
        if !passed(visited, b) && window_named(windows, b) is Some {
            let k = window_named(windows, b)->Some_0;
            lemma_least_from(
                |i: int| same_name(windows[i].name@, b),
                0,
                windows.len() as int,
            );
            lemma_named_is_passed(windows, visited, b);
            lemma_chained_positions_fit(windows, windows[k].spec@, visited.push(b), clauses);
        }
    }
}

proof fn lemma_resolved_positions_fit(
    over: OverClause,
    windows: Seq<WindowDef>,
    clauses: WindowClauses,
)
    requires
        clauses_fit(over, windows, clauses),
    ensures
        over_window(over, windows) matches Ok(v) ==> positions_fit(v, clauses),
{
    match over {
        OverClause::Spec(spec) => {
            lemma_chained_positions_fit(windows, spec@, seq![], clauses);
        },
        OverClause::WindowName(name) => {
            if let Some(k) = window_named(windows, name@) {
                lemma_least_from(
                    |i: int| same_name(windows[i].name@, name@),
                    0,
                    windows.len() as int,
                );
                lemma_chained_positions_fit(windows, windows[k].spec@, seq![name@], clauses);
            }
        },
    }
}

/// The clauses that a resolved window picks.
fn pick_clauses(spec: WindowSpec, clauses: WindowClauses) -> (r: BoundWindow)
    requires
        positions_fit(spec@, clauses),
    ensures
        r.partition_by@ == picked(clauses.partitions@, spec@.partition_by),
        r.order_by@ == picked(clauses.orders@, spec@.order_by),
        r.frame == match spec@.frame {
            Some(i) => Some(clauses.frames@[i as int]),
            None => None,
        },
{
    let WindowClauses { partitions, orders, frames } = clauses;
    let mut frames: Vec<FrameClause> = frames;
    let frame: Option<FrameClause> = match spec.frame {
        Some(i) => Some(frames.swap_remove(i)),
        None => None,
    };
    BoundWindow {
        partition_by: pick(partitions, &spec.partition_by),
        order_by: pick(orders, &spec.order_by),
        frame,
    }
}

/// The elements at the given positions, in the order of the positions.
fn pick<T>(all: Vec<T>, positions: &Vec<usize>) -> (r: Vec<T>)
    requires
        positions@.no_duplicates(),
        forall|i: int| 0 <= i < positions@.len() ==> #[trigger] positions@[i] < all@.len(),
    ensures
        r@ == picked(all@, positions@),
{
    let ghost whole = all@;
    let mut slots: Vec<Option<T>> = Vec::new();
    for x in it: all
        invariant
            it.seq() == whole,
            slots@.len() == it.index(),
            forall|k: int| 0 <= k < slots@.len() ==> #[trigger] slots@[k] == Some(whole[k]),
    {
        slots.push(Some(x));
    }
    let mut out: Vec<T> = Vec::new();
    let mut j: usize = 0;
    while j < positions.len()
        invariant
            j <= positions.len(),
            positions@.no_duplicates(),
            forall|i: int| 0 <= i < positions@.len() ==> #[trigger] positions@[i] < whole.len(),
            slots@.len() == whole.len(),
            out@ == picked(whole, positions@).subrange(0, j as int),
            forall|i: int|
                j <= i < positions@.len() ==> slots@[#[trigger] positions@[i] as int] == Some(
                    whole[positions@[i] as int],
                ),
        decreases positions.len() - j,
    {
        let p: usize = positions[j];
        let ghost before = slots@;
        slots.push(None);
        let taken: Option<T> = slots.swap_remove(p);
        proof {
            assert(slots@ =~= before.update(p as int, None));
        }
        match taken {
            Some(x) => {
                out.push(x);
            },
            None => {},
        }
        proof {
            assert(out@ =~= picked(whole, positions@).subrange(0, j + 1));
        }
        j = j + 1;
    }
    proof {
        assert(out@ =~= picked(whole, positions@));
    }
    out
}

fn bind_partitions(ps: Vec<BoundPartition>) -> (r: Result<(Vec<EvalExpr>, Vec<Collation>), Error>)
    ensures
        match (r, bound_exprs(partition_bounds(ps@))) {
            (Ok((exprs, collations)), Ok(s)) => exprs@ == s && collations@ == partition_collations(
                ps@,
            ),
            (Err(e), Err(text)) => e.text() == text,
            _ => false,
        },
{
    let ghost all = ps@;
    let mut exprs: Vec<EvalExpr> = Vec::new();
    let mut collations: Vec<Collation> = Vec::new();
    proof {
        assert(partition_bounds(all).subrange(0, 0) =~= seq![]);
    }
    for p in it: ps
        invariant
            it.seq() == all,
            bound_exprs(partition_bounds(all).subrange(0, it.index() as int)) == Ok::<
                Seq<EvalExpr>,
                Seq<char>,
            >(exprs@),
            collations@ == partition_collations(all).subrange(0, it.index() as int),
    {
        proof {
            let next = partition_bounds(all).subrange(0, it.index() + 1);
            assert(next.drop_last() =~= partition_bounds(all).subrange(0, it.index() as int));
            assert(next.last() == p.expr);
        }
        collations.push(p.collation);
        match p.expr {
            Ok(e) => {
                exprs.push(e);
            },
            Err(e) => {
                proof {
                    lemma_bound_exprs_prefix(partition_bounds(all), it.index() + 1);
                }
                return Err(e);
            },
        }
        proof {
            assert(collations@ =~= partition_collations(all).subrange(0, it.index() + 1));
        }
    }
    proof {
        assert(partition_bounds(all).subrange(0, all.len() as int) =~= partition_bounds(all));
        assert(collations@ =~= partition_collations(all));
    }
    Ok((exprs, collations))
}

/// The default frame is allowed whatever the order of the window.
pub proof fn the_default_frame_is_allowed(frame: WindowFrame, num_order_by: nat)
    requires
        frame.is_default(),
    ensures
        frame_error(frame, num_order_by) is None,
        frame == default_frame(),
{
}

/// An allowed frame starts no later than it ends, and where its boundaries are a band of
/// values there is exactly one value to measure them on.
pub proof fn an_allowed_frame_is_in_order(frame: WindowFrame, num_order_by: nat)
    requires
        frame_error(frame, num_order_by) is None,
    ensures
        place(frame.start) <= place(frame.end),
        !(frame.start is UnboundedFollowing),
        !(frame.end is UnboundedPreceding),
        frame.units == FrameUnits::Range && (has_offset(frame.start) || has_offset(frame.end))
            ==> num_order_by == 1,
{
}

/// The collations of a window function's partition keys stand one for one with the keys.
pub proof fn partition_collations_line_up(f: WindowFunc, call: WindowCall, w: WindowView)
    requires
        is_window_function(f, call, w),
    ensures
        f.partition_collations@.len() == f.partition_by@.len(),
{
    lemma_bound_len(partition_bounds(w.partition_by));
}

} // verus!
