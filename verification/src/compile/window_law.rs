//! What a bound window-function call means: the rows of its frame, the function that it computes
//! and the order it computes it in are those that its text says.

#[allow(unused_imports)]
use vstd::prelude::*;
use crate::compile::meaning::{runs, with_windows, Engine, Row};
use crate::compile::order_law::{key_before, Cell};
use crate::compile::ordering::{NullsOrder, SortOrder};
use crate::compile::window::{
    builtin_of, call_error, frame_error, frame_of, is_collected, is_kind, is_window_function,
    kind_error, listed, partition_bounds, partition_collations, term_key, term_keys, window_over,
    BoundOrderTerm, BoundaryClause, FrameClause, FunctionArgs, WindowCall, WindowClauses,
    WindowView, Windowing,
};
use crate::compile::window_chain::{
    chained, lemma_named_is_passed, over_window, passed, window_named, OverClause, SpecView,
    WindowDef, WindowSpec,
};
use crate::error::Error;
use crate::expr::{bound_exprs, Bound, EvalExpr, SortKey};
use crate::plan::WindowFunc;
use crate::search::lemma_least_from;
use crate::text::{fold, same_name};
use crate::types::Value;
use crate::window::{FrameBound, FrameExclude, FrameUnits, WindowFrame, WindowFuncKind};

verus! {

/// A partition seen from one of its rows. Rows are numbered in the order of the window.
pub struct Partition {
    /// The first and the last row of the partition.
    pub first: int,
    pub last: int,
    /// Where the current row lies as the start (or the end) of a frame of these units.
    pub here: spec_fn(FrameUnits, bool) -> int,
    /// Where the row lies that is this offset before (or after) the current one.
    pub back: spec_fn(FrameUnits, EvalExpr, bool) -> int,
    pub ahead: spec_fn(FrameUnits, EvalExpr, bool) -> int,
    /// Whether an exclusion leaves a row out.
    pub leaves_out: spec_fn(FrameExclude, int) -> bool,
}

/// Where a boundary lies, as the start of a frame or as its end.
pub open spec fn lies_at(p: Partition, units: FrameUnits, b: FrameBound, start: bool) -> int {
    match b {
        FrameBound::UnboundedPreceding => p.first,
        FrameBound::Preceding(e) => (p.back)(units, e, start),
        FrameBound::CurrentRow => (p.here)(units, start),
        FrameBound::Following(e) => (p.ahead)(units, e, start),
        FrameBound::UnboundedFollowing => p.last,
    }
}

/// Where a written boundary lies.
pub open spec fn written_at(p: Partition, units: FrameUnits, b: BoundaryClause, start: bool) -> int {
    match b {
        BoundaryClause::UnboundedPreceding => p.first,
        BoundaryClause::Preceding(e) => (p.back)(units, e->Ok_0, start),
        BoundaryClause::CurrentRow => (p.here)(units, start),
        BoundaryClause::Following(e) => (p.ahead)(units, e->Ok_0, start),
        BoundaryClause::UnboundedFollowing => p.last,
    }
}

/// Where a frame starts by its text: at the first row of the partition where nothing is written.
pub open spec fn written_start(p: Partition, clause: Option<FrameClause>) -> int {
    match clause {
        Some(f) => written_at(p, f.units, f.start, true),
        None => p.first,
    }
}

/// Where a frame ends by its text: at the current row where no end is written, and at its last
/// peer where no frame is.
pub open spec fn written_end(p: Partition, clause: Option<FrameClause>) -> int {
    match clause {
        Some(f) => match f.end {
            Some(end) => written_at(p, f.units, end, false),
            None => (p.here)(f.units, false),
        },
        None => (p.here)(FrameUnits::Range, false),
    }
}

/// Whether the text of a frame leaves a row out. `EXCLUDE NO OTHERS` leaves none out.
pub open spec fn written_out(p: Partition, clause: Option<FrameClause>, row: int) -> bool {
    match clause {
        Some(f) => match f.exclude {
            Some(FrameExclude::NoOthers) => false,
            Some(x) => (p.leaves_out)(x, row),
            None => false,
        },
        None => false,
    }
}

/// Whether a frame takes a row in.
pub open spec fn takes_in(p: Partition, frame: WindowFrame, row: int) -> bool {
    &&& lies_at(p, frame.units, frame.start, true) <= row
    &&& row <= lies_at(p, frame.units, frame.end, false)
    &&& frame.exclude == FrameExclude::NoOthers || !(p.leaves_out)(frame.exclude, row)
}

/// The rows of a bound frame are the rows that its text denotes: it starts and ends where the text
/// says, and leaves out what the text leaves out. In particular a frame that ends with `UNBOUNDED
/// FOLLOWING` and excludes nothing takes in every row from its start to the last of the partition.
pub proof fn a_bound_frame_takes_in_the_written_rows(
    p: Partition,
    clause: Option<FrameClause>,
    frame: WindowFrame,
    row: int,
)
    requires
        frame_of(clause) == Ok::<WindowFrame, Seq<char>>(frame),
    ensures
        lies_at(p, frame.units, frame.start, true) == written_start(p, clause),
        lies_at(p, frame.units, frame.end, false) == written_end(p, clause),
        takes_in(p, frame, row) <==> written_start(p, clause) <= row <= written_end(p, clause)
            && !written_out(p, clause, row),
        clause matches Some(f) && f.end matches Some(BoundaryClause::UnboundedFollowing) && (
        f.exclude is None) && written_start(p, clause) <= row <= p.last ==> takes_in(p, frame, row),
{
}

/// The offset of a written boundary does not bind.
pub open spec fn offset_fails(b: BoundaryClause) -> bool {
    match b {
        BoundaryClause::Preceding(e) => e is Err,
        BoundaryClause::Following(e) => e is Err,
        _ => false,
    }
}

/// A frame binds exactly where the offsets of both its boundaries do.
pub proof fn a_frame_binds_where_its_offsets_do(clause: Option<FrameClause>)
    ensures
        frame_of(clause) is Ok <==> match clause {
            Some(f) => !offset_fails(f.start) && (f.end matches Some(end) ==> !offset_fails(end)),
            None => true,
        },
{
}

/// Where a boundary lies among the rows from `-far` to `far` around the current row 0, if its
/// offset is `offset`.
pub open spec fn spot(b: FrameBound, offset: int, far: int) -> int {
    match b {
        FrameBound::UnboundedPreceding => -far,
        FrameBound::Preceding(_) => -offset,
        FrameBound::CurrentRow => 0,
        FrameBound::Following(_) => offset,
        FrameBound::UnboundedFollowing => far,
    }
}

/// Whether the frame starts no later than it ends, with these offsets at its start and its end.
pub open spec fn spans(frame: WindowFrame, at_start: int, at_end: int, far: int) -> bool {
    &&& 0 < at_start < far
    &&& 0 < at_end < far
    &&& spot(frame.start, at_start, far) <= spot(frame.end, at_end, far)
}

/// A frame is allowed exactly where it neither starts with `UNBOUNDED FOLLOWING` nor ends with
/// `UNBOUNDED PRECEDING`, some offsets above zero give it a start that is no later than its end,
/// and a band of values is measured on one `ORDER BY` term.
pub proof fn a_frame_is_allowed_where_it_can_span_rows(frame: WindowFrame, num_order_by: nat)
    ensures
        frame_error(frame, num_order_by) is None <==> {
            &&& !(frame.start is UnboundedFollowing)
            &&& !(frame.end is UnboundedPreceding)
            &&& exists|s: int, e: int, far: int| #[trigger] spans(frame, s, e, far)
            &&& frame.units == FrameUnits::Range && (frame.start is Preceding
                || frame.start is Following || frame.end is Preceding || frame.end is Following)
                ==> num_order_by == 1
        },
{
    if frame.start is Preceding {
        assert(frame_error(frame, 1) is None ==> spans(frame, 2, 1, 3));
    } else {
        assert(frame_error(frame, 1) is None ==> spans(frame, 1, 2, 3));
    }
}

/// Whether `exprs` are the values that binding gave.
pub open spec fn all_bound_to(bounds: Seq<Bound>, exprs: Seq<EvalExpr>) -> bool {
    &&& bounds.len() == exprs.len()
    &&& forall|i: int| 0 <= i < bounds.len() ==> #[trigger] bounds[i] == Ok::<
        EvalExpr,
        Error,
    >(exprs[i])
}

/// Expressions are bound one by one, in order.
pub proof fn bound_expressions_stay_in_order(bounds: Seq<Bound>, exprs: Seq<EvalExpr>)
    ensures
        bound_exprs(bounds) == Ok::<Seq<EvalExpr>, Seq<char>>(exprs) <==> all_bound_to(
            bounds,
            exprs,
        ),
    decreases bounds.len(),
{
    if bounds.len() > 0 {
        let init = bounds.drop_last();
        if bound_exprs(init) is Ok {
            bound_expressions_stay_in_order(init, bound_exprs(init)->Ok_0);
        }
        if exprs.len() > 0 {
            bound_expressions_stay_in_order(init, exprs.drop_last());
        }
        if all_bound_to(bounds, exprs) {
            assert forall|i: int| 0 <= i < init.len() implies #[trigger] init[i] == Ok::<
                EvalExpr,
                Error,
            >(exprs.drop_last()[i]) by {
                assert(bounds[i] == init[i]);
            }
            assert(bounds[bounds.len() - 1] == bounds.last());
            assert(exprs.drop_last().push(exprs.last()) =~= exprs);
        }
        if bound_exprs(bounds) == Ok::<Seq<EvalExpr>, Seq<char>>(exprs) {
            let s = bound_exprs(init)->Ok_0;
            assert(exprs == s.push(bounds.last()->Ok_0));
            assert forall|i: int| 0 <= i < bounds.len() implies #[trigger] bounds[i] == Ok::<
                EvalExpr,
                Error,
            >(exprs[i]) by {
                if i < init.len() {
                    assert(init[i] == bounds[i]);
                }
            }
        }
    } else {
        assert(exprs.len() == 0 ==> exprs =~= seq![]);
    }
}

/// The names of the window functions that are no aggregates.
pub open spec fn ranking_names() -> Seq<Seq<char>> {
    seq![
        "row_number"@,
        "rank"@,
        "dense_rank"@,
        "percent_rank"@,
        "cume_dist"@,
        "ntile"@,
        "lag"@,
        "lead"@,
        "first_value"@,
        "last_value"@,
        "nth_value"@,
    ]
}

/// The name of the function that is computed, other than an aggregate, and what it is given.
pub open spec fn computed(kind: WindowFuncKind) -> (Seq<char>, Seq<EvalExpr>) {
    match kind {
        WindowFuncKind::RowNumber => ("row_number"@, seq![]),
        WindowFuncKind::Rank => ("rank"@, seq![]),
        WindowFuncKind::DenseRank => ("dense_rank"@, seq![]),
        WindowFuncKind::PercentRank => ("percent_rank"@, seq![]),
        WindowFuncKind::CumeDist => ("cume_dist"@, seq![]),
        WindowFuncKind::Ntile(n) => ("ntile"@, seq![n]),
        WindowFuncKind::Lag { expr, offset, default } => ("lag"@, seq![expr, offset, default]),
        WindowFuncKind::Lead { expr, offset, default } => ("lead"@, seq![expr, offset, default]),
        WindowFuncKind::FirstValue(e) => ("first_value"@, seq![e]),
        WindowFuncKind::LastValue(e) => ("last_value"@, seq![e]),
        WindowFuncKind::NthValue { expr, n } => ("nth_value"@, seq![expr, n]),
        WindowFuncKind::Aggregate(_) => arbitrary(),
    }
}

/// What is given to a function whose arguments from the second on may be left out: one row away,
/// and NULL.
pub open spec fn with_defaults(args: Seq<EvalExpr>) -> Seq<EvalExpr> {
    let defaults = seq![
        EvalExpr::Literal(Value::Integer(1)),
        EvalExpr::Literal(Value::Null),
    ];
    args + defaults.subrange(args.len() - 1, 2)
}

/// How many arguments a function that is no aggregate takes, at least and at most.
pub open spec fn arity(lname: Seq<char>) -> (nat, nat) {
    if lname == "lag"@ || lname == "lead"@ {
        (1, 3)
    } else if lname == "nth_value"@ {
        (2, 2)
    } else if lname == "ntile"@ || lname == "first_value"@ || lname == "last_value"@ {
        (1, 1)
    } else {
        (0, 0)
    }
}

/// The arguments that are written out; `*` and empty brackets have none.
pub open spec fn written_args(args: FunctionArgs) -> Seq<Bound> {
    match args {
        FunctionArgs::List(v) => v@,
        FunctionArgs::Star => seq![],
        FunctionArgs::Empty => seq![],
    }
}

/// A call that binds computes the function that it names, on its arguments in order.
///
/// A name that is no aggregate's is matched up to ASCII case; `lag` and `lead` look one row away
/// and fall back to NULL where the call does not say otherwise. Every other call is of the
/// aggregate that its name resolves to, with its filter and its order.
pub proof fn a_bound_call_computes_what_it_names(kind: WindowFuncKind, call: WindowCall, args: Seq<EvalExpr>)
    requires
        kind_error(call) is None,
        is_kind(kind, call),
        all_bound_to(written_args(call.args), args),
    ensures
        kind is Aggregate <==> !ranking_names().contains(fold(call.name@)),
        !(kind is Aggregate) ==> {
            &&& computed(kind).0 == fold(call.name@)
            &&& computed(kind).1 == if fold(call.name@) == "lag"@ || fold(call.name@) == "lead"@ {
                with_defaults(args)
            } else {
                args
            }
            &&& call.filter is None
            &&& call.order_by@.len() == 0
        },
        kind matches WindowFuncKind::Aggregate(agg) ==> {
            &&& call.registry.resolved matches Ok(func) && func == agg.func
            &&& agg.args@ == args
            &&& agg.arg_collations@ == call.arg_collations@
            &&& !agg.distinct
            &&& agg.filter is Some <==> call.filter is Some
            &&& call.filter matches Some(f) ==> f->Ok_0 == agg.filter->Some_0 && f is Ok
            &&& orders_as(call.order_by@, agg.order_by@)
            &&& match call.args {
                FunctionArgs::Star => fold(call.name@) == fold("count"@),
                _ => call.registry.is_aggregate,
            }
        },
{
    lemma_names_differ();
    bound_expressions_stay_in_order(listed(call.args), args);
    let names = ranking_names();
    assert(names[0] == "row_number"@ && names[1] == "rank"@ && names[2] == "dense_rank"@
        && names[3] == "percent_rank"@ && names[4] == "cume_dist"@ && names[5] == "ntile"@
        && names[6] == "lag"@ && names[7] == "lead"@ && names[8] == "first_value"@ && names[9]
        == "last_value"@ && names[10] == "nth_value"@);
    assert(builtin_of(fold(call.name@)) is Some <==> names.contains(fold(call.name@)));
    match kind {
        WindowFuncKind::Aggregate(agg) => {
            keys_order_as_their_terms(call.order_by@, agg.order_by@);
        },
        _ => {
            assert(computed(kind).1 =~= if fold(call.name@) == "lag"@ || fold(call.name@)
                == "lead"@ {
                with_defaults(args)
            } else {
                args
            });
        },
    }
}

proof fn lemma_names_differ()
    ensures
        "lag"@ != "lead"@,
        forall|i: int|
            0 <= i < 11 ==> ((#[trigger] ranking_names()[i]) == "lag"@ <==> i == 6) && (
            ranking_names()[i] == "lead"@ <==> i == 7),
{
    reveal_strlit("row_number");
    reveal_strlit("rank");
    reveal_strlit("dense_rank");
    reveal_strlit("percent_rank");
    reveal_strlit("cume_dist");
    reveal_strlit("ntile");
    reveal_strlit("lag");
    reveal_strlit("lead");
    reveal_strlit("first_value");
    reveal_strlit("last_value");
    reveal_strlit("nth_value");
    assert("lag"@.len() == 3);
    assert("lead"@.len() == 4);
    assert("rank"@.len() == 4 && "rank"@[0] == 'r');
    assert("lead"@[0] == 'l');
}

/// A call of a function that is no aggregate binds wherever it has neither a filter nor an order,
/// is not called on `*`, and has as many arguments as the function takes, all of them bound.
pub proof fn a_ranking_call_binds_where_its_arguments_fit(call: WindowCall, args: Seq<EvalExpr>)
    requires
        ranking_names().contains(fold(call.name@)),
        all_bound_to(written_args(call.args), args),
    ensures
        kind_error(call) is None <==> {
            &&& call.filter is None
            &&& call.order_by@.len() == 0
            &&& !(call.args is Star)
            &&& arity(fold(call.name@)).0 <= args.len() <= arity(fold(call.name@)).1
        },
{
    the_names_differ();
    bound_expressions_stay_in_order(listed(call.args), args);
    let names = ranking_names();
    let i = choose|i: int| 0 <= i < names.len() && names[i] == fold(call.name@);
    assert(names[i] == fold(call.name@));
}

/// No two of the names are the same.
pub proof fn the_names_differ()
    ensures
        forall|i: int, j: int|
            0 <= i < j < 11 ==> #[trigger] ranking_names()[i] != #[trigger] ranking_names()[j],
{
    reveal_strlit("row_number");
    reveal_strlit("rank");
    reveal_strlit("dense_rank");
    reveal_strlit("percent_rank");
    reveal_strlit("cume_dist");
    reveal_strlit("ntile");
    reveal_strlit("lag");
    reveal_strlit("lead");
    reveal_strlit("first_value");
    reveal_strlit("last_value");
    reveal_strlit("nth_value");
    let s = ranking_names();
    assert(s[0].len() == 10 && s[1].len() == 4 && s[2].len() == 10 && s[3].len() == 12
        && s[4].len() == 9 && s[5].len() == 5 && s[6].len() == 3 && s[7].len() == 4 && s[8].len()
        == 11 && s[9].len() == 10 && s[10].len() == 9);
    assert(s[0][0] == 'r' && s[2][0] == 'd' && s[9][0] == 'l');
    assert(s[4][0] == 'c' && s[10][0] == 'n');
    assert(s[1][0] == 'r' && s[7][0] == 'l');
}

/// Whether a term puts `a` strictly before `b`, by what is written: ascending unless it says
/// `DESC`, and NULLs where it says, else below every value.
pub open spec fn term_before(
    order: Option<SortOrder>,
    nulls: Option<NullsOrder>,
    a: Cell,
    b: Cell,
) -> bool {
    let down = match order {
        Some(SortOrder::Desc) => true,
        Some(SortOrder::Asc) => false,
        None => false,
    };
    match (a, b) {
        (Cell::At(i), Cell::At(j)) => if down {
            i > j
        } else {
            i < j
        },
        (Cell::Null, Cell::Null) => false,
        (Cell::Null, Cell::At(_)) => match nulls {
            Some(NullsOrder::First) => true,
            Some(NullsOrder::Last) => false,
            None => !down,
        },
        (Cell::At(_), Cell::Null) => match nulls {
            Some(NullsOrder::First) => false,
            Some(NullsOrder::Last) => true,
            None => down,
        },
    }
}

/// Whether a key orders by a term: on the term's expression, under its collation, in its order.
pub open spec fn orders_by(term: BoundOrderTerm, key: SortKey) -> bool {
    &&& term.expr matches Ok(e) && e == key.expr
    &&& key.collation == match term.collation {
        Some(c) => c->Ok_0,
        None => term.own_collation,
    }
    &&& forall|a: Cell, b: Cell| #[trigger]
        key_before(key, a, b) == term_before(term.order, term.nulls, a, b)
}

/// Whether keys order by the terms of a list, in its order.
pub open spec fn orders_as(terms: Seq<BoundOrderTerm>, keys: Seq<SortKey>) -> bool {
    &&& keys.len() == terms.len()
    &&& forall|i: int| 0 <= i < terms.len() ==> orders_by(#[trigger] terms[i], keys[i])
}

/// The sort key of a term orders as the term says.
pub proof fn a_key_orders_as_its_term(term: BoundOrderTerm, key: SortKey)
    requires
        term_key(term) == Ok::<SortKey, Seq<char>>(key),
    ensures
        orders_by(term, key),
{
}

/// The sort keys of a list of terms order as the terms say, one key for each term.
pub proof fn keys_order_as_their_terms(terms: Seq<BoundOrderTerm>, keys: Seq<SortKey>)
    requires
        term_keys(terms) == Ok::<Seq<SortKey>, Seq<char>>(keys),
    ensures
        orders_as(terms, keys),
    decreases terms.len(),
{
    if terms.len() > 0 {
        let init = term_keys(terms.drop_last())->Ok_0;
        keys_order_as_their_terms(terms.drop_last(), init);
        a_key_orders_as_its_term(terms.last(), keys.last());
        assert forall|i: int| 0 <= i < terms.len() implies orders_by(#[trigger] terms[i], keys[i]) by {
            if i < terms.len() - 1 {
                assert(terms.drop_last()[i] == terms[i]);
                assert(orders_by(terms.drop_last()[i], init[i]));
            }
        }
    }
}

/// A window function that is collected computes what its call names, over the partitions, the
/// order and the frame of its window.
pub proof fn a_window_function_means_what_its_call_says(
    f: WindowFunc,
    call: WindowCall,
    w: WindowView,
    p: Partition,
)
    requires
        call_error(true, call, Ok(w)) is None,
        is_window_function(f, call, w),
    ensures
        !call.distinct,
        f.partition_by@.len() == w.partition_by.len(),
        f.partition_collations@.len() == w.partition_by.len(),
        forall|i: int|
            0 <= i < w.partition_by.len() ==> (#[trigger] w.partition_by[i]).expr->Ok_0
                == f.partition_by@[i] && w.partition_by[i].expr is Ok && w.partition_by[i].collation
                == f.partition_collations@[i],
        orders_as(w.order_by, f.order_by@),
        lies_at(p, f.frame.units, f.frame.start, true) == written_start(p, w.frame),
        lies_at(p, f.frame.units, f.frame.end, false) == written_end(p, w.frame),
        frame_error(f.frame, w.order_by.len()) is None,
{
    bound_expressions_stay_in_order(partition_bounds(w.partition_by), f.partition_by@);
    keys_order_as_their_terms(w.order_by, f.order_by@);
    a_bound_frame_takes_in_the_written_rows(p, w.frame, f.frame, 0);
    assert forall|i: int| 0 <= i < w.partition_by.len() implies (#[trigger] w.partition_by[i]).expr->Ok_0
        == f.partition_by@[i] && w.partition_by[i].expr is Ok && w.partition_by[i].collation
        == f.partition_collations@[i] by {
        assert(partition_bounds(w.partition_by)[i] == w.partition_by[i].expr);
        assert(partition_collations(w.partition_by)[i] == w.partition_by[i].collation);
    }
}

/// Whether `k` is the window of a name: the first of that name.
pub open spec fn is_window(windows: Seq<WindowDef>, name: Seq<char>, k: int) -> bool {
    &&& 0 <= k < windows.len()
    &&& same_name(windows[k].name@, name)
    &&& forall|j: int| 0 <= j < k ==> !same_name((#[trigger] windows[j]).name@, name)
}

/// A window that extends another has the partitions of that window, its order followed by its
/// own, and its own frame; a window that extends none is what it says. It resolves exactly where
/// the other resolves without having come back to it, the other has no frame, it has no
/// partitions itself, and at most one of the two has an order.
pub proof fn a_window_adds_to_the_one_it_extends(
    windows: Seq<WindowDef>,
    spec: SpecView,
    visited: Seq<Seq<char>>,
    k: int,
)
    requires
        spec.base matches Some(name) ==> is_window(windows, name, k),
    ensures
        spec.base is None ==> chained(windows, spec, visited) == Ok::<SpecView, Seq<char>>(spec),
        spec.base matches Some(name) ==> {
            let under = chained(windows, windows[k].spec@, visited.push(name));
            &&& chained(windows, spec, visited) is Ok <==> {
                &&& !passed(visited, name)
                &&& under matches Ok(u)
                &&& u.frame is None
                &&& spec.partition_by.len() == 0
                &&& u.order_by.len() == 0 || spec.order_by.len() == 0
            }
            &&& chained(windows, spec, visited) matches Ok(v) ==> {
                &&& v.base is None
                &&& v.partition_by == under->Ok_0.partition_by
                &&& v.order_by == under->Ok_0.order_by + spec.order_by
                &&& v.frame == spec.frame
            }
        },
{
    if let Some(name) = spec.base {
        named_window_is_found(windows, name, k);
        if !passed(visited, name) {
            lemma_named_is_passed(windows, visited, name);
        }
        if let Ok(u) = chained(windows, windows[k].spec@, visited.push(name)) {
            if u.order_by.len() == 0 {
                assert(u.order_by + spec.order_by =~= spec.order_by);
            } else {
                assert(spec.order_by.len() == 0 ==> u.order_by + spec.order_by =~= u.order_by);
            }
        }
    }
}

proof fn named_window_is_found(windows: Seq<WindowDef>, name: Seq<char>, k: int)
    requires
        is_window(windows, name, k),
    ensures
        window_named(windows, name) == Some(k),
{
    let p = |i: int| same_name(windows[i].name@, name);
    lemma_least_from(p, 0, windows.len() as int);
    assert(p(k));
    let found = window_named(windows, name);
    assert(found is Some);
    if found->Some_0 < k {
        assert(p(found->Some_0));
    } else if found->Some_0 > k {
        assert(!p(k));
    }
}

/// `OVER` with a name takes the window of that name, with its frame.
pub proof fn a_named_window_is_taken_whole(windows: Seq<WindowDef>, name: String, k: int)
    requires
        is_window(windows, name@, k),
    ensures
        windows[k].spec@.base is None ==> over_window(OverClause::WindowName(name), windows) == Ok::<
            SpecView,
            Seq<char>,
        >(windows[k].spec@),
        over_window(OverClause::WindowName(name), windows) matches Ok(v) ==> v.frame
            == windows[k].spec@.frame,
{
    named_window_is_found(windows, name@, k);
}

/// A window that extends a name that no window has does not resolve, nor one that extends a name
/// that was passed on the way to it.
pub proof fn a_window_extends_only_a_window_ahead(
    windows: Seq<WindowDef>,
    spec: SpecView,
    visited: Seq<Seq<char>>,
    name: Seq<char>,
)
    requires
        spec.base == Some(name),
        (forall|k: int|
            0 <= k < windows.len() ==> !same_name((#[trigger] windows[k]).name@, name)) || (exists|
            i: int,
        |
            0 <= i < visited.len() && same_name(#[trigger] visited[i], name)),
    ensures
        chained(windows, spec, visited) is Err,
{
    let p = |i: int| same_name(windows[i].name@, name);
    lemma_least_from(p, 0, windows.len() as int);
    if let Some(k) = window_named(windows, name) {
        assert(p(k));
        assert(same_name(windows[k].name@, name));
    }
}

/// `OVER` with a window in brackets takes that window, where it extends none, and keeps its frame
/// where it does; `OVER` with a name that no window has takes none.
pub proof fn a_window_in_brackets_is_taken_as_written(
    windows: Seq<WindowDef>,
    spec: WindowSpec,
    name: String,
)
    ensures
        spec@.base is None ==> over_window(OverClause::Spec(spec), windows) == Ok::<
            SpecView,
            Seq<char>,
        >(spec@),
        over_window(OverClause::Spec(spec), windows) matches Ok(v) ==> v.frame == spec@.frame,
        (forall|k: int|
            0 <= k < windows.len() ==> !same_name((#[trigger] windows[k]).name@, name@))
            ==> over_window(OverClause::WindowName(name), windows) is Err,
{
    let p = |i: int| same_name(windows[i].name@, name@);
    lemma_least_from(p, 0, windows.len() as int);
    if let Some(k) = window_named(windows, name@) {
        assert(p(k));
        assert(same_name(windows[k].name@, name@));
    }
}

/// A bound call stands for the result of its own function: on every row that the window functions
/// of the query are appended to, whichever functions are collected after it, its expression gives
/// what its function gives for that row.
pub proof fn a_bound_call_reads_its_own_result(
    e: Engine,
    expr: EvalExpr,
    before: Windowing,
    after: Windowing,
    all: Seq<WindowFunc>,
    rows: Seq<Row>,
    i: int,
)
    requires
        runs(e),
        is_collected(expr, before, after),
        before.input_width + before.functions@.len() <= usize::MAX,
        after.functions@.len() <= all.len(),
        all.subrange(0, after.functions@.len() as int) == after.functions@,
        0 <= i < rows.len(),
        rows[i].len() == before.input_width,
    ensures
        (e.eval)(expr.tree(), with_windows(e, all, rows)[i]) == (e.window)(
            after.functions@.last(),
            rows,
            i,
        ),
        after.functions@.drop_last() == before.functions@,
{
    let k = before.functions@.len() as int;
    let out = with_windows(e, all, rows)[i];
    let column = (before.input_width + k) as usize;
    assert(all[k] == all.subrange(0, after.functions@.len() as int)[k]);
    assert(all[k] == after.functions@.last());
    assert(out[column as int] == (e.window)(all[k], rows, i));
    assert((e.eval)(EvalExpr::Column(column).tree(), out) == out[column as int]);
}

/// A call that is no ranking function binds exactly where it is one of an aggregate, which `*`
/// stands for in `count` alone, its arguments, the terms of its order and its filter bind, and its
/// name resolves.
pub proof fn an_aggregate_call_binds_where_its_parts_do(call: WindowCall)
    requires
        !ranking_names().contains(fold(call.name@)),
    ensures
        kind_error(call) is None <==> {
            &&& call.args is Star ==> fold(call.name@) == fold("count"@)
            &&& !(call.args is Star) ==> call.registry.is_aggregate
            &&& bound_exprs(written_args(call.args)) is Ok
            &&& term_keys(call.order_by@) is Ok
            &&& call.filter matches Some(f) ==> f is Ok
            &&& call.registry.resolved is Ok
        },
{
    let names = ranking_names();
    assert(names[0] == "row_number"@ && names[1] == "rank"@ && names[2] == "dense_rank"@
        && names[3] == "percent_rank"@ && names[4] == "cume_dist"@ && names[5] == "ntile"@
        && names[6] == "lag"@ && names[7] == "lead"@ && names[8] == "first_value"@ && names[9]
        == "last_value"@ && names[10] == "nth_value"@);
    assert(builtin_of(fold(call.name@)) is None);
}

/// The clauses of a resolved window are picked from those of the statement by their positions, in
/// the order of the positions.
pub proof fn a_window_picks_its_clauses(
    over: OverClause,
    windows: Seq<WindowDef>,
    clauses: WindowClauses,
    i: int,
)
    requires
        over_window(over, windows) is Ok,
    ensures
        ({
            let spec = over_window(over, windows)->Ok_0;
            &&& window_over(over, windows, clauses) matches Ok(w)
            &&& w.partition_by.len() == spec.partition_by.len()
            &&& w.order_by.len() == spec.order_by.len()
            &&& 0 <= i < spec.partition_by.len() ==> w.partition_by[i]
                == clauses.partitions@[spec.partition_by[i] as int]
            &&& 0 <= i < spec.order_by.len() ==> w.order_by[i]
                == clauses.orders@[spec.order_by[i] as int]
            &&& w.frame is Some <==> spec.frame is Some
            &&& spec.frame matches Some(k) ==> w.frame == Some(clauses.frames@[k as int])
        }),
{
}

} // verus!
