//! `SELECT`: from the bound parts of a query core to its plan.
//!
//! The row source is filtered, windowed, projected, made distinct, sorted and limited, in that
//! order. An `ORDER BY` term that is no output column is projected as a hidden column after
//! the outputs and dropped again above the sort.

#[allow(unused_imports)]
use vstd::prelude::*;
use crate::catalog::{Catalog, IndexDef};
use crate::compile::emit_json::{emitting, finalize_tvf_emit_json, json_named};
use crate::compile::limit::{
    bind_limit_exprs, build_limit, is_sort_bound, limit_exprs, sort_limit_from, LimitClause,
};
use crate::compile::minmax_index::{seek_of, try_optimize};
use crate::compile::ordering::{
    is_desc, nulls_first, says_nulls_first, sorts_desc, NullsOrder, SortOrder,
};
use crate::compile::order_scan::{order_rewrite, project_rewritten, satisfy_order_by};
use crate::compile::values::{
    column_name_list, compile_values, holds_rows, texts, values_error,
};
use crate::compile::window::{is_windowed, wrap_window_if_any, Windowing};
use crate::error::{failure, first_error, Error};
use crate::expr::{AggregateCall, Bound, EvalExpr, SortKey};
use crate::plan::{
    filter_by, filtered, Aggregate, MinMaxBare, PlanNode, SortLimit, WindowFunc,
};
use crate::scope::Source;
use crate::search::{least, least_from};
use crate::text::{eq_ignore_ascii_case, same_name};
use crate::types::Collation;

verus! {

/// What an `ORDER BY` term orders by: an output column, or an expression that is none.
#[derive(Debug)]
pub enum OrderResolved {
    Output(usize),
    Hidden(EvalExpr),
}

/// An `ORDER BY` term of a query with what binding found for it. `collation` is the collation
/// written after the term, if there is one, and `own_collation` that of its expression.
#[derive(Debug)]
pub struct OrderingTerm {
    pub resolved: Result<OrderResolved, Error>,
    pub order: Option<SortOrder>,
    pub nulls: Option<NullsOrder>,
    pub collation: Option<Result<Collation, Error>>,
    pub own_collation: Collation,
}

/// The bound result list of a query over its row source. `collations[i]` is the collation of
/// output `i`, absent where the output has no source expression.
#[derive(Debug)]
pub struct Compiled {
    pub input: PlanNode,
    pub projections: Vec<EvalExpr>,
    pub names: Vec<String>,
    pub collations: Vec<Option<Collation>>,
    pub windows: Vec<WindowFunc>,
    pub is_aggregate: bool,
}

/// Why a term cannot be ordered by.
pub open spec fn term_error(t: OrderingTerm) -> Option<Seq<char>> {
    match (t.resolved, t.collation) {
        (Err(e), _) => Some(e.text()),
        (Ok(_), Some(Err(e))) => Some(e.text()),
        _ => None,
    }
}

/// The message of the first term that cannot be ordered by.
pub open spec fn terms_error(ts: Seq<OrderingTerm>) -> Option<Seq<char>>
    decreases ts.len(),
{
    if ts.len() == 0 {
        None
    } else {
        match terms_error(ts.drop_last()) {
            Some(text) => Some(text),
            None => term_error(ts.last()),
        }
    }
}

/// The expressions of the terms that are no output column, in order.
pub open spec fn hidden_exprs(ts: Seq<OrderingTerm>) -> Seq<EvalExpr>
    decreases ts.len(),
{
    if ts.len() == 0 {
        seq![]
    } else {
        let before = hidden_exprs(ts.drop_last());
        match ts.last().resolved {
            Ok(OrderResolved::Hidden(e)) => before.push(e),
            _ => before,
        }
    }
}

/// The collation of a term: the one written after it; else that of the output column it is,
/// bytewise where that has no source expression; else that of its own expression.
pub open spec fn collation_of(t: OrderingTerm, collations: Seq<Option<Collation>>) -> Collation {
    match (t.collation, t.resolved) {
        (Some(Ok(c)), _) => c,
        (_, Ok(OrderResolved::Output(i))) => match collations[i as int] {
            Some(c) => c,
            None => Collation::Binary,
        },
        _ => t.own_collation,
    }
}

/// The column of the projected row that a term orders by: the output column it is, or the
/// hidden column after the `outputs` output columns and the `hidden` hidden ones before it.
pub open spec fn key_column(t: OrderingTerm, outputs: nat, hidden: nat) -> usize {
    match t.resolved {
        Ok(OrderResolved::Output(i)) => i,
        _ => (outputs + hidden) as usize,
    }
}

pub open spec fn sort_key(
    t: OrderingTerm,
    outputs: nat,
    hidden: nat,
    collations: Seq<Option<Collation>>,
) -> SortKey {
    SortKey {
        expr: EvalExpr::Column(key_column(t, outputs, hidden)),
        desc: sorts_desc(t.order),
        nulls_first: says_nulls_first(t.nulls),
        collation: collation_of(t, collations),
    }
}

/// The sort keys of the terms.
pub open spec fn sort_keys(
    ts: Seq<OrderingTerm>,
    outputs: nat,
    collations: Seq<Option<Collation>>,
) -> Seq<SortKey> {
    Seq::new(
        ts.len(),
        |i: int| sort_key(ts[i], outputs, hidden_exprs(ts.subrange(0, i)).len(), collations),
    )
}

/// Whether the output columns that terms name are there.
pub open spec fn outputs_exist(ts: Seq<OrderingTerm>, collations: Seq<Option<Collation>>) -> bool {
    forall|i: int|
        0 <= i < ts.len() ==> ((#[trigger] ts[i]).resolved matches Ok(OrderResolved::Output(k))
            ==> k < collations.len())
}

/// The collations under which `DISTINCT` compares the output columns.
pub open spec fn distinct_collations(collations: Seq<Option<Collation>>) -> Seq<Collation> {
    collations.map_values(
        |c: Option<Collation>|
            match c {
                Some(k) => k,
                None => Collation::Binary,
            },
    )
}

/// The tail of a query: what follows its result list.
#[derive(Debug)]
pub struct QueryTail {
    pub distinct: bool,
    pub order_by: Vec<OrderingTerm>,
    pub limit: Option<LimitClause>,
}

pub open spec fn hidden_with_distinct_message() -> Seq<char> {
    "ORDER BY term does not match any column in the result set"@
}

/// Why a query cannot be assembled: the first bad term, a hidden term under `DISTINCT`, or a
/// bad limit, in that order.
pub open spec fn output_error(tail: QueryTail) -> Option<Seq<char>> {
    match terms_error(tail.order_by@) {
        Some(text) => Some(text),
        None => if tail.distinct && hidden_exprs(tail.order_by@).len() > 0 {
            Some(hidden_with_distinct_message())
        } else {
            match tail.limit {
                Some(c) => match limit_exprs(c) {
                    Err(text) => Some(text),
                    Ok(_) => None,
                },
                None => None,
            }
        },
    }
}

/// Whether `node` projects the outputs and the hidden columns from the windowed row source,
/// made distinct where asked.
pub open spec fn is_projection(node: PlanNode, compiled: Compiled, tail: QueryTail) -> bool {
    let project = if tail.distinct {
        *node->Distinct_input
    } else {
        node
    };
    &&& tail.distinct ==> node is Distinct && node->Distinct_column_collations@
        == distinct_collations(compiled.collations@)
    &&& project matches PlanNode::Project { input, exprs }
    &&& is_windowed(*input, compiled.input, compiled.windows@)
    &&& exprs@ == compiled.projections@ + hidden_exprs(tail.order_by@)
}

/// Whether the order may be served by the scan: nothing under the sort reorders rows or puts
/// an outer row before the scan's own.
pub open spec fn scan_may_serve(compiled: Compiled, tail: QueryTail, base_offset: usize) -> bool {
    !tail.distinct && !compiled.is_aggregate && base_offset == 0
}

/// Whether `sorted` is the projection in the order of the terms: by a rewritten scan where one
/// serves the order, else by a sort whose bound is that of the limit.
pub open spec fn is_ordered(
    catalog: Catalog,
    sorted: PlanNode,
    projection: PlanNode,
    compiled: Compiled,
    tail: QueryTail,
    base_offset: usize,
) -> bool {
    let keys = sort_keys(tail.order_by@, compiled.projections@.len(), compiled.collations@);
    let rewrite = if scan_may_serve(compiled, tail, base_offset) {
        order_rewrite(catalog, projection, keys)
    } else {
        None
    };
    if keys.len() == 0 {
        sorted == projection
    } else {
        match rewrite {
            Some(rw) => sorted == project_rewritten(projection, rw),
            None => {
                &&& sorted matches PlanNode::Sort { input, keys: k, limit }
                &&& *input == projection
                &&& k@ == keys
                &&& match tail.limit {
                    None => limit is None,
                    Some(c) => limit_exprs(c) matches Ok((l, o)) && is_sort_bound(limit, l, o),
                }
            },
        }
    }
}

/// Whether `exprs` are the first `n` columns of the row.
pub open spec fn are_columns(exprs: Seq<EvalExpr>, n: nat) -> bool {
    &&& exprs.len() == n
    &&& forall|i: int| 0 <= i < n ==> #[trigger] exprs[i] == EvalExpr::Column(i as usize)
}

/// Whether `out` is the assembled query.
pub open spec fn is_assembled(
    catalog: Catalog,
    out: PlanNode,
    compiled: Compiled,
    tail: QueryTail,
    base_offset: usize,
) -> bool {
    let unlimited = match tail.limit {
        Some(_) => *out->Limit_input,
        None => out,
    };
    let sorted = if hidden_exprs(tail.order_by@).len() > 0 {
        *unlimited->Project_input
    } else {
        unlimited
    };
    &&& tail.limit matches Some(c) ==> limit_exprs(c) matches Ok((l, o)) && (out
        == PlanNode::Limit { input: Box::new(unlimited), limit: Some(l), offset: o })
    &&& hidden_exprs(tail.order_by@).len() > 0 ==> unlimited is Project && are_columns(
        unlimited->Project_exprs@,
        compiled.projections@.len(),
    )
    &&& exists|projection: PlanNode|
        #![trigger is_projection(projection, compiled, tail)]
        is_projection(projection, compiled, tail) && is_ordered(
            catalog,
            sorted,
            projection,
            compiled,
            tail,
            base_offset,
        )
}

proof fn lemma_terms_prefix(ts: Seq<OrderingTerm>, k: int)
    requires
        0 <= k <= ts.len(),
        terms_error(ts.subrange(0, k)) is Some,
    ensures
        terms_error(ts) == terms_error(ts.subrange(0, k)),
    decreases ts.len() - k,
{
    if k == ts.len() {
        assert(ts.subrange(0, k) =~= ts);
    } else {
        assert(ts.subrange(0, k + 1).drop_last() =~= ts.subrange(0, k));
        lemma_terms_prefix(ts, k + 1);
    }
}

/// The column of the projected row that a term orders by; an expression that is no output
/// column is projected as a hidden column. The index of the output column comes with it, if
/// the term is one.
fn resolve_order_term(resolved: OrderResolved, projections: &mut Vec<EvalExpr>) -> (r: (
    EvalExpr,
    Option<usize>,
))
    ensures
        match resolved {
            OrderResolved::Output(i) => r.0 == EvalExpr::Column(i) && r.1 == Some(i)
                && final(projections)@ == old(projections)@,
            OrderResolved::Hidden(e) => r.0 == EvalExpr::Column(old(projections)@.len() as usize)
                && r.1 is None && final(projections)@ == old(projections)@.push(e),
        },
{
    match resolved {
        OrderResolved::Output(i) => (EvalExpr::Column(i), Some(i)),
        OrderResolved::Hidden(e) => {
            projections.push(e);
            (EvalExpr::Column(projections.len() - 1), None)
        },
    }
}

/// The collation of a term.
fn order_collation(
    explicit: Option<Result<Collation, Error>>,
    out_idx: Option<usize>,
    own_collation: Collation,
    collations: &Vec<Option<Collation>>,
) -> (r: Result<Collation, Error>)
    requires
        out_idx matches Some(i) ==> i < collations@.len(),
    ensures
        match (r, explicit) {
            (Ok(c), Some(Ok(d))) => c == d,
            (Err(e), Some(Err(f))) => e == f,
            (Ok(c), None) => c == match out_idx {
                Some(i) => match collations@[i as int] {
                    Some(k) => k,
                    None => Collation::Binary,
                },
                None => own_collation,
            },
            _ => false,
        },
{
    match explicit {
        Some(parsed) => parsed,
        None => match out_idx {
            Some(i) => match collations[i] {
                Some(c) => Ok(c),
                None => Ok(Collation::Binary),
            },
            None => Ok(own_collation),
        },
    }
}

/// The sort keys of the terms; hidden columns are added to the projections.
fn order_keys(
    terms: Vec<OrderingTerm>,
    projections: &mut Vec<EvalExpr>,
    collations: &Vec<Option<Collation>>,
) -> (r: Result<Vec<SortKey>, Error>)
    requires
        outputs_exist(terms@, collations@),
    ensures
        match (r, terms_error(terms@)) {
            (Ok(keys), None) => {
                &&& keys@ == sort_keys(terms@, old(projections)@.len(), collations@)
                &&& final(projections)@ == old(projections)@ + hidden_exprs(terms@)
            },
            (Err(e), Some(text)) => e.text() == text,
            _ => false,
        },
{
    let ghost all = terms@;
    let ghost outs = projections@;
    let mut keys: Vec<SortKey> = Vec::new();
    proof {
        assert(all.subrange(0, 0) =~= seq![]);
        assert(outs + hidden_exprs(all.subrange(0, 0)) =~= outs);
    }
    for t in it: terms
        invariant
            it.seq() == all,
            outputs_exist(all, collations@),
            terms_error(all.subrange(0, it.index() as int)) is None,
            projections@ == outs + hidden_exprs(all.subrange(0, it.index() as int)),
            keys@.len() == it.index(),
            forall|k: int|
                0 <= k < keys@.len() ==> #[trigger] keys@[k] == sort_key(
                    all[k],
                    outs.len(),
                    hidden_exprs(all.subrange(0, k)).len(),
                    collations@,
                ),
    {
        proof {
            let next = all.subrange(0, it.index() + 1);
            assert(next.drop_last() =~= all.subrange(0, it.index() as int));
            assert(next.last() == t);
            assert(all[it.index() as int] == t);
        }
        let resolved: OrderResolved = match t.resolved {
            Ok(x) => x,
            Err(e) => {
                proof {
                    lemma_terms_prefix(all, it.index() + 1);
                }
                return Err(e);
            },
        };
        let (expr, out_idx) = resolve_order_term(resolved, projections);
        match order_collation(t.collation, out_idx, t.own_collation, collations) {
            Ok(collation) => {
                keys.push(
                    SortKey {
                        expr,
                        desc: is_desc(t.order),
                        nulls_first: nulls_first(t.nulls),
                        collation,
                    },
                );
            },
            Err(e) => {
                proof {
                    lemma_terms_prefix(all, it.index() + 1);
                }
                return Err(e);
            },
        }
        proof {
            assert(projections@ =~= outs + hidden_exprs(all.subrange(0, it.index() + 1)));
        }
    }
    proof {
        assert(all.subrange(0, all.len() as int) =~= all);
        assert(keys@ =~= sort_keys(all, outs.len(), collations@));
    }
    Ok(keys)
}

fn collations_for_distinct(collations: &Vec<Option<Collation>>) -> (r: Vec<Collation>)
    ensures
        r@ == distinct_collations(collations@),
{
    let mut out: Vec<Collation> = Vec::new();
    let mut i: usize = 0;
    while i < collations.len()
        invariant
            i <= collations.len(),
            out@ == distinct_collations(collations@).subrange(0, i as int),
        decreases collations.len() - i,
    {
        let c: Collation = match collations[i] {
            Some(k) => k,
            None => Collation::Binary,
        };
        out.push(c);
        proof {
            assert(out@ =~= distinct_collations(collations@).subrange(0, i + 1));
        }
        i = i + 1;
    }
    proof {
        assert(out@ =~= distinct_collations(collations@));
    }
    out
}

fn first_columns(n: usize) -> (r: Vec<EvalExpr>)
    ensures
        are_columns(r@, n as nat),
{
    let mut out: Vec<EvalExpr> = Vec::new();
    let mut i: usize = 0;
    while i < n
        invariant
            i <= n,
            are_columns(out@, i as nat),
        decreases n - i,
    {
        out.push(EvalExpr::Column(i));
        i = i + 1;
    }
    out
}

/// Put the projection, `DISTINCT`, `ORDER BY` and `LIMIT` over the row source.
pub fn assemble_output(
    catalog: &Catalog,
    compiled: Compiled,
    tail: QueryTail,
    base_offset: usize,
) -> (r: Result<(PlanNode, Vec<String>), Error>)
    requires
        outputs_exist(tail.order_by@, compiled.collations@),
    ensures
        match (r, output_error(tail)) {
            (Ok((node, names)), None) => is_assembled(*catalog, node, compiled, tail, base_offset)
                && names == compiled.names,
            (Err(e), Some(text)) => e.text() == text,
            _ => false,
        },
{
    let ghost parts = compiled;
    let ghost whole = tail;
    let Compiled { input, projections, names, collations, windows, is_aggregate } =
        compiled;
    let QueryTail { distinct, order_by, limit } = tail;
    let mut projections: Vec<EvalExpr> = projections;
    let num_out: usize = projections.len();
    let keys: Vec<SortKey> = match order_keys(order_by, &mut projections, &collations) {
        Ok(k) => k,
        Err(e) => {
            return Err(e);
        },
    };
    let has_hidden: bool = projections.len() > num_out;
    if distinct && has_hidden {
        return Err(Error::sql("ORDER BY term does not match any column in the result set"));
    }
    let input: PlanNode = wrap_window_if_any(windows, input);
    let mut node: PlanNode = PlanNode::Project { input: Box::new(input), exprs: projections };
    if distinct {
        node = PlanNode::Distinct {
            input: Box::new(node),
            column_collations: collations_for_distinct(&collations),
        };
    }
    let ghost projection = node;
    assert(is_projection(projection, parts, whole));
    let bound_limit: Option<(EvalExpr, Option<EvalExpr>)> = match limit {
        Some(c) => match bind_limit_exprs(c) {
            Ok(b) => Some(b),
            Err(e) => {
                return Err(e);
            },
        },
        None => None,
    };
    if keys.len() > 0 {
        let bound: Option<SortLimit> = match &bound_limit {
            Some(b) => sort_limit_from(b),
            None => None,
        };
        if !distinct && !is_aggregate && base_offset == 0 {
            node = match satisfy_order_by(catalog, node, &keys) {
                Ok(rewritten) => rewritten,
                Err(unsorted) => PlanNode::Sort { input: Box::new(unsorted), keys, limit: bound },
            };
        } else {
            node = PlanNode::Sort { input: Box::new(node), keys, limit: bound };
        }
    }
    assert(is_ordered(*catalog, node, projection, parts, whole, base_offset));
    if has_hidden {
        node = PlanNode::Project { input: Box::new(node), exprs: first_columns(num_out) };
    }
    if let Some((limit, offset)) = bound_limit {
        node = PlanNode::Limit { input: Box::new(node), limit: Some(limit), offset };
    }
    Ok((node, names))
}

/// What an `ORDER BY` term of a `VALUES` list names.
#[derive(Debug)]
pub enum ValuesTarget {
    Ordinal(i64),
    Name(String),
    Other,
}

/// An `ORDER BY` term of a `VALUES` list.
#[derive(Debug)]
pub struct ValuesTerm {
    pub target: ValuesTarget,
    pub order: Option<SortOrder>,
    pub nulls: Option<NullsOrder>,
    pub collation: Option<Result<Collation, Error>>,
}

/// The output column that a term of a `VALUES` list names: by its position from 1 on, or by
/// name.
pub open spec fn values_column(t: ValuesTarget, names: Seq<Seq<char>>) -> Result<usize, Seq<char>> {
    match t {
        ValuesTarget::Ordinal(k) => if 1 <= k <= names.len() {
            Ok((k - 1) as usize)
        } else {
            Err("ORDER BY term out of range"@)
        },
        ValuesTarget::Name(name) => match least(
            |i: int| same_name(names[i], name@),
            names.len() as int,
        ) {
            Some(i) => Ok(i as usize),
            None => Err(
                "ORDER BY on VALUES must reference an output column by position or name"@,
            ),
        },
        ValuesTarget::Other => Err(
            "ORDER BY on VALUES must reference an output column by position or name"@,
        ),
    }
}

/// The sort key of a term of a `VALUES` list. Its columns have no collation of their own.
pub open spec fn values_key(t: ValuesTerm, names: Seq<Seq<char>>) -> Result<SortKey, Seq<char>> {
    match values_column(t.target, names) {
        Err(text) => Err(text),
        Ok(column) => match t.collation {
            Some(Err(e)) => Err(e.text()),
            explicit => Ok(
                SortKey {
                    expr: EvalExpr::Column(column),
                    desc: sorts_desc(t.order),
                    nulls_first: says_nulls_first(t.nulls),
                    collation: match explicit {
                        Some(Ok(c)) => c,
                        _ => Collation::Binary,
                    },
                },
            ),
        },
    }
}

/// The sort keys of a `VALUES` list, or the message of the first bad term.
pub open spec fn values_keys(ts: Seq<ValuesTerm>, names: Seq<Seq<char>>) -> Result<
    Seq<SortKey>,
    Seq<char>,
>
    decreases ts.len(),
{
    if ts.len() == 0 {
        Ok(seq![])
    } else {
        match values_keys(ts.drop_last(), names) {
            Err(text) => Err(text),
            Ok(keys) => match values_key(ts.last(), names) {
                Err(text) => Err(text),
                Ok(key) => Ok(keys.push(key)),
            },
        }
    }
}

proof fn lemma_values_prefix(ts: Seq<ValuesTerm>, names: Seq<Seq<char>>, k: int)
    requires
        0 <= k <= ts.len(),
        values_keys(ts.subrange(0, k), names) is Err,
    ensures
        values_keys(ts, names) == values_keys(ts.subrange(0, k), names),
    decreases ts.len() - k,
{
    if k == ts.len() {
        assert(ts.subrange(0, k) =~= ts);
    } else {
        assert(ts.subrange(0, k + 1).drop_last() =~= ts.subrange(0, k));
        lemma_values_prefix(ts, names, k + 1);
    }
}

/// Why the tail of a `VALUES` list cannot be compiled.
pub open spec fn values_tail_error(
    terms: Seq<ValuesTerm>,
    limit: Option<LimitClause>,
    names: Seq<Seq<char>>,
) -> Option<Seq<char>> {
    match values_keys(terms, names) {
        Err(text) => Some(text),
        Ok(_) => match limit {
            Some(c) => match limit_exprs(c) {
                Err(text) => Some(text),
                Ok(_) => None,
            },
            None => None,
        },
    }
}

/// Whether `out` is `node` sorted and limited. The sort of a `VALUES` list is not bounded.
pub open spec fn is_values_tail(
    out: PlanNode,
    node: PlanNode,
    terms: Seq<ValuesTerm>,
    limit: Option<LimitClause>,
    names: Seq<Seq<char>>,
) -> bool {
    let sorted = match limit {
        Some(_) => *out->Limit_input,
        None => out,
    };
    &&& limit matches Some(c) ==> limit_exprs(c) matches Ok((l, o)) && (out == PlanNode::Limit {
        input: Box::new(sorted),
        limit: Some(l),
        offset: o,
    })
    &&& if terms.len() == 0 {
        sorted == node
    } else {
        &&& sorted matches PlanNode::Sort { input, keys, limit: bound }
        &&& *input == node
        &&& values_keys(terms, names) == Ok::<Seq<SortKey>, Seq<char>>(keys@)
        &&& bound is None
    }
}

/// Put the `ORDER BY` and `LIMIT` of a `VALUES` list over it.
pub fn apply_values_tail(
    node: PlanNode,
    names: &Vec<String>,
    terms: Vec<ValuesTerm>,
    limit: Option<LimitClause>,
) -> (r: Result<PlanNode, Error>)
    ensures
        match (r, values_tail_error(terms@, limit, texts(names@))) {
            (Ok(out), None) => is_values_tail(out, node, terms@, limit, texts(names@)),
            (Err(e), Some(text)) => e.text() == text,
            _ => false,
        },
{
    let ghost all = terms@;
    let mut node: PlanNode = node;
    if terms.len() > 0 {
        let mut keys: Vec<SortKey> = Vec::new();
        proof {
            assert(all.subrange(0, 0) =~= seq![]);
        }
        for t in it: terms
            invariant
                it.seq() == all,
                values_keys(all.subrange(0, it.index() as int), texts(names@)) == Ok::<
                    Seq<SortKey>,
                    Seq<char>,
                >(keys@),
        {
            proof {
                let next = all.subrange(0, it.index() + 1);
                assert(next.drop_last() =~= all.subrange(0, it.index() as int));
                assert(next.last() == t);
            }
            let column: usize = match resolve_values_order_term(&t.target, names) {
                Ok(c) => c,
                Err(e) => {
                    proof {
                        lemma_values_prefix(all, texts(names@), it.index() + 1);
                    }
                    return Err(e);
                },
            };
            let collation: Collation = match t.collation {
                Some(Ok(c)) => c,
                Some(Err(e)) => {
                    proof {
                        lemma_values_prefix(all, texts(names@), it.index() + 1);
                    }
                    return Err(e);
                },
                None => Collation::Binary,
            };
            keys.push(
                SortKey {
                    expr: EvalExpr::Column(column),
                    desc: is_desc(t.order),
                    nulls_first: nulls_first(t.nulls),
                    collation,
                },
            );
        }
        proof {
            assert(all.subrange(0, all.len() as int) =~= all);
        }
        node = PlanNode::Sort { input: Box::new(node), keys, limit: None };
    }
    match limit {
        Some(c) => build_limit(node, c),
        None => Ok(node),
    }
}

/// The output column that a term of a `VALUES` list names.
pub fn resolve_values_order_term(target: &ValuesTarget, names: &Vec<String>) -> (r: Result<
    usize,
    Error,
>)
    ensures
        match (r, values_column(*target, texts(names@))) {
            (Ok(i), Ok(k)) => i == k && i < names@.len(),
            (Err(e), Err(text)) => e.text() == text,
            _ => false,
        },
{
    match target {
        ValuesTarget::Ordinal(k) => {
            if *k >= 1 && (*k as u64) <= names.len() as u64 {
                return Ok((*k - 1) as usize);
            }
            return Err(Error::sql("ORDER BY term out of range"));
        },
        ValuesTarget::Name(name) => {
            let ghost p = |i: int| same_name(texts(names@)[i], name@);
            let mut i: usize = 0;
            while i < names.len()
                invariant
                    i <= names.len(),
                    *target == ValuesTarget::Name(*name),
                    p == (|i: int| same_name(texts(names@)[i], name@)),
                    least(p, names@.len() as int) == least_from(p, i as int, names@.len() as int),
                decreases names.len() - i,
            {
                if eq_ignore_ascii_case(names[i].as_str(), name.as_str()) {
                    assert(p(i as int));
                    return Ok(i);
                }
                assert(!p(i as int));
                i = i + 1;
            }
        },
        ValuesTarget::Other => {},
    }
    Err(Error::sql("ORDER BY on VALUES must reference an output column by position or name"))
}

/// What building the `FROM` of a query gave: its row source, and what is left of the `WHERE`
/// for a filter above it.
pub type BuiltFrom = Result<(PlanNode, Option<EvalExpr>), Error>;

/// The `FROM` and the `WHERE` of a query: what resolving the sources, binding the predicate and
/// building the row source gave.
#[derive(Debug)]
pub struct CoreFrom<'a> {
    pub resolved: Result<Vec<Source<'a>>, Error>,
    pub bound_where: Result<(), Error>,
    pub built: BuiltFrom,
}

/// Why a query has no row source: the first step that failed.
pub open spec fn source_error(from: CoreFrom<'_>) -> Option<Seq<char>> {
    first_error(failure(from.resolved), first_error(failure(from.bound_where), failure(from.built)))
}

/// Whether `out` is the row source of a query: that of its `FROM`, filtered by what is left of
/// its `WHERE`.
pub open spec fn is_core_source(out: PlanNode, from: CoreFrom<'_>) -> bool {
    from.built matches Ok((node, residual)) && out == filtered(node, residual)
}

/// The sources and the row source of a query.
pub fn core_source<'a>(from: CoreFrom<'a>) -> (r: Result<(Vec<Source<'a>>, PlanNode), Error>)
    ensures
        match (r, source_error(from)) {
            (Ok((sources, node)), None) => from.resolved == Ok::<Vec<Source<'a>>, Error>(sources)
                && is_core_source(node, from),
            (Err(e), Some(text)) => e.text() == text,
            _ => false,
        },
{
    let sources: Vec<Source<'a>> = match from.resolved {
        Err(e) => {
            return Err(e);
        },
        Ok(s) => s,
    };
    match from.bound_where {
        Err(e) => {
            return Err(e);
        },
        Ok(_) => {},
    }
    match from.built {
        Err(e) => Err(e),
        Ok((node, residual)) => Ok((sources, filter_by(node, residual))),
    }
}

/// The register after the last column of a source.
pub open spec fn source_end(s: Source<'_>) -> int {
    match s {
        Source::BaseTable { table, base, .. } => if table.without_rowid {
            base + table.columns@.len()
        } else {
            base + table.columns@.len() + 1
        },
        Source::Derived { columns, base, .. } => base + columns@.len(),
    }
}

/// The register after the last column of any source; `base_offset` where there is none.
pub open spec fn sources_end(sources: Seq<Source<'_>>, base_offset: int) -> int
    decreases sources.len(),
{
    if sources.len() == 0 {
        base_offset
    } else if sources.len() == 1 {
        source_end(sources[0])
    } else {
        let before = sources_end(sources.drop_last(), base_offset);
        if source_end(sources.last()) > before {
            source_end(sources.last())
        } else {
            before
        }
    }
}

/// The width of the row that the window functions of a query core run over: its own row, after
/// the outer row it is placed behind. Window results are appended from there on.
pub fn window_input_width(sources: &Vec<Source<'_>>, base_offset: usize) -> (r: usize)
    requires
        forall|i: int|
            0 <= i < sources@.len() ==> source_end(#[trigger] sources@[i]) <= usize::MAX,
    ensures
        r == sources_end(sources@, base_offset as int),
{
    if sources.len() == 0 {
        return base_offset;
    }
    let mut width: usize = end_of(&sources[0]);
    let mut i: usize = 1;
    proof {
        assert(sources@.subrange(0, 1)[0] == sources@[0]);
    }
    while i < sources.len()
        invariant
            1 <= i <= sources.len(),
            forall|i: int|
                0 <= i < sources@.len() ==> source_end(#[trigger] sources@[i]) <= usize::MAX,
            width == sources_end(sources@.subrange(0, i as int), base_offset as int),
        decreases sources.len() - i,
    {
        proof {
            assert(sources@.subrange(0, i + 1).drop_last() =~= sources@.subrange(0, i as int));
            assert(sources@.subrange(0, i + 1).last() == sources@[i as int]);
        }
        let end: usize = end_of(&sources[i]);
        if end > width {
            width = end;
        }
        i = i + 1;
    }
    proof {
        assert(sources@.subrange(0, sources@.len() as int) =~= sources@);
    }
    width
}

fn end_of(s: &Source<'_>) -> (r: usize)
    requires
        source_end(*s) <= usize::MAX,
    ensures
        r == source_end(*s),
{
    match s {
        Source::BaseTable { table, base, .. } => if table.without_rowid {
            *base + table.columns.len()
        } else {
            *base + table.columns.len() + 1
        },
        Source::Derived { columns, base, .. } => *base + columns.len(),
    }
}

/// The window functions of a query core, none of them collected yet: their results follow its
/// row, and the outer row that it is placed behind.
pub fn core_windowing(sources: &Vec<Source<'_>>, base_offset: usize) -> (r: Windowing)
    requires
        forall|i: int|
            0 <= i < sources@.len() ==> source_end(#[trigger] sources@[i]) <= usize::MAX,
    ensures
        r.input_width == sources_end(sources@, base_offset as int),
        r.functions@.len() == 0,
{
    Windowing { input_width: window_input_width(sources, base_offset), functions: Vec::new() }
}

/// The grouping of a query that has groups or aggregates. `is_max` is present where the query is
/// a single `MIN` or `MAX`.
#[derive(Debug)]
pub struct Grouping {
    pub group_by: Vec<EvalExpr>,
    pub group_collations: Vec<Collation>,
    pub aggregates: Vec<AggregateCall>,
    pub having: Option<EvalExpr>,
    pub minmax_bare: Option<MinMaxBare>,
    pub bare_arbitrary: Option<Vec<usize>>,
    pub is_max: Option<bool>,
}

/// The aggregation of the rows of `source`.
pub open spec fn grouped(g: Grouping, source: PlanNode) -> Aggregate {
    Aggregate {
        input: Box::new(source),
        group_by: g.group_by,
        group_collations: g.group_collations,
        aggregates: g.aggregates,
        having: g.having,
        minmax_bare: g.minmax_bare,
        bare_arbitrary: g.bare_arbitrary,
    }
}

/// The bound result list of a query. `grouping` is present where the query has groups or
/// aggregates; `defined[i]` is the collation that output `i` defines for a compound select, if
/// it defines one.
#[derive(Debug)]
pub struct ResultList {
    pub grouping: Option<Grouping>,
    pub projections: Vec<EvalExpr>,
    pub names: Vec<String>,
    pub collations: Vec<Option<Collation>>,
    pub defined: Vec<Option<Collation>>,
    pub windows: Vec<WindowFunc>,
}

/// What the outputs of a query are computed from: its row source, or its aggregation, which a
/// seek replaces where the query has no window functions and a seek gives the same value.
pub open spec fn output_source(
    list: ResultList,
    sources: Seq<Source<'_>>,
    indexes: Seq<IndexDef>,
    source: PlanNode,
) -> PlanNode {
    match list.grouping {
        None => source,
        Some(g) => {
            let agg = grouped(g, source);
            let seek = if list.windows@.len() == 0 {
                seek_of(sources, indexes, agg, g.is_max)
            } else {
                None
            };
            match seek {
                Some(seek) => PlanNode::MinMaxSeek(seek),
                None => PlanNode::Aggregate(agg),
            }
        },
    }
}

/// The result list over its row source.
pub open spec fn over(
    list: ResultList,
    sources: Seq<Source<'_>>,
    indexes: Seq<IndexDef>,
    source: PlanNode,
) -> Compiled {
    Compiled {
        input: output_source(list, sources, indexes, source),
        projections: list.projections,
        names: list.names,
        collations: list.collations,
        windows: list.windows,
        is_aggregate: list.grouping is Some,
    }
}

/// What the outputs of a query are computed from, given its row source.
fn group_source(
    catalog: &Catalog,
    sources: &Vec<Source<'_>>,
    grouping: Option<Grouping>,
    windowed: bool,
    source: PlanNode,
) -> (r: PlanNode)
    ensures
        forall|list: ResultList|
            list.grouping == grouping && (list.windows@.len() > 0) == windowed ==> r
                == #[trigger] output_source(list, sources@, catalog.indexes@, source),
{
    match grouping {
        None => source,
        Some(g) => {
            let agg: Aggregate = Aggregate {
                input: Box::new(source),
                group_by: g.group_by,
                group_collations: g.group_collations,
                aggregates: g.aggregates,
                having: g.having,
                minmax_bare: g.minmax_bare,
                bare_arbitrary: g.bare_arbitrary,
            };
            assert(agg == grouped(g, source));
            if windowed {
                PlanNode::Aggregate(agg)
            } else {
                try_optimize(sources, catalog, agg, g.is_max)
            }
        },
    }
}

/// A query core: a `VALUES` list, or a query.
#[derive(Debug)]
pub enum SelectCore<'a> {
    Values { rows: Vec<Vec<Bound>>, order_by: Vec<ValuesTerm>, limit: Option<LimitClause> },
    Query { from: CoreFrom<'a>, result: Result<ResultList, Error>, tail: QueryTail },
}

/// A compiled core: its plan, its output names, and the collation that each output defines for
/// a compound select, if it defines one.
#[derive(Debug)]
pub struct CompiledCore {
    pub node: PlanNode,
    pub names: Vec<String>,
    pub defined: Vec<Option<Collation>>,
}

/// Whether no output of `n` defines a collation.
pub open spec fn none_defined(defined: Seq<Option<Collation>>, n: nat) -> bool {
    &&& defined.len() == n
    &&& forall|i: int| 0 <= i < n ==> (#[trigger] defined[i]) is None
}

/// Whether the output columns that terms of the core name are there, and each output says which
/// collation it defines.
pub open spec fn core_wf(core: SelectCore<'_>) -> bool {
    core matches SelectCore::Query { result: Ok(list), tail, .. } ==> {
        &&& outputs_exist(tail.order_by@, list.collations@)
        &&& list.defined@.len() == list.names@.len()
    }
}

/// Why a core cannot be compiled.
pub open spec fn core_error(core: SelectCore<'_>) -> Option<Seq<char>> {
    match core {
        SelectCore::Values { rows, order_by, limit } => match values_error(rows@) {
            Some(text) => Some(text),
            None => values_tail_error(order_by@, limit, column_name_list(rows@[0]@.len())),
        },
        SelectCore::Query { from, result, tail } => first_error(
            source_error(from),
            first_error(failure(result), output_error(tail)),
        ),
    }
}

/// Whether `query` is the query of a result list over its row source.
pub open spec fn is_query(
    catalog: Catalog,
    query: PlanNode,
    list: ResultList,
    sources: Seq<Source<'_>>,
    source: PlanNode,
    tail: QueryTail,
    base_offset: usize,
) -> bool {
    is_assembled(
        catalog,
        query,
        over(list, sources, catalog.indexes@, source),
        tail,
        base_offset,
    )
}

/// Whether `out` is the compiled core.
pub open spec fn is_core(
    catalog: Catalog,
    out: CompiledCore,
    core: SelectCore<'_>,
    base_offset: usize,
) -> bool {
    match core {
        SelectCore::Values { rows, order_by, limit } => {
            let names = column_name_list(rows@[0]@.len());
            &&& exists|list: PlanNode|
                #![trigger holds_rows(list, rows@)]
                holds_rows(list, rows@) && is_values_tail(out.node, list, order_by@, limit, names)
            &&& texts(out.names@) == names
            &&& none_defined(out.defined@, names.len())
        },
        SelectCore::Query { from, result, tail } => {
            &&& result matches Ok(list)
            &&& from.resolved matches Ok(sources)
            &&& exists|source: PlanNode, query: PlanNode|
                #![trigger is_core_source(source, from), is_query(catalog, query, list, sources@, source, tail, base_offset)]
                is_core_source(source, from) && is_query(
                    catalog,
                    query,
                    list,
                    sources@,
                    source,
                    tail,
                    base_offset,
                ) && out.node == emitting(query, json_named(sources@))
            &&& out.names == list.names
            &&& out.defined == list.defined
        },
    }
}

/// Compile a query core placed after an outer row of width `base_offset`.
pub fn compile_core(catalog: &Catalog, core: SelectCore<'_>, base_offset: usize) -> (r: Result<
    CompiledCore,
    Error,
>)
    requires
        core_wf(core),
    ensures
        match (r, core_error(core)) {
            (Ok(out), None) => is_core(*catalog, out, core, base_offset),
            (Err(e), Some(text)) => e.text() == text,
            _ => false,
        },
{
    match core {
        SelectCore::Values { rows, order_by, limit } => {
            let ghost all = rows@;
            match compile_values(rows) {
                Ok((list, names)) => {
                    let ghost g = list;
                    match apply_values_tail(list, &names, order_by, limit) {
                        Ok(node) => {
                            let defined: Vec<Option<Collation>> = undefined_collations(names.len());
                            proof {
                                assert(holds_rows(g, all));
                                assert(texts(names@).len() == names@.len());
                            }
                            Ok(CompiledCore { node, names, defined })
                        },
                        Err(e) => Err(e),
                    }
                },
                Err(e) => Err(e),
            }
        },
        SelectCore::Query { from, result, tail } => {
            let (sources, source): (Vec<Source<'_>>, PlanNode) = match core_source(from) {
                Ok(p) => p,
                Err(e) => {
                    return Err(e);
                },
            };
            let list: ResultList = match result {
                Ok(l) => l,
                Err(e) => {
                    return Err(e);
                },
            };
            let ghost start = source;
            let ghost whole = list;
            let is_aggregate: bool = list.grouping.is_some();
            let windowed: bool = list.windows.len() > 0;
            let input: PlanNode = group_source(
                catalog,
                &sources,
                list.grouping,
                windowed,
                source,
            );
            assert(input == output_source(whole, sources@, catalog.indexes@, start));
            let compiled: Compiled = Compiled {
                input,
                projections: list.projections,
                names: list.names,
                collations: list.collations,
                windows: list.windows,
                is_aggregate,
            };
            assert(compiled == over(whole, sources@, catalog.indexes@, start));
            match assemble_output(catalog, compiled, tail, base_offset) {
                Ok((node, names)) => {
                    let mut node: PlanNode = node;
                    let ghost query = node;
                    finalize_tvf_emit_json(&mut node, &sources);
                    assert(is_core_source(start, from));
                    assert(is_query(
                        *catalog,
                        query,
                        whole,
                        sources@,
                        start,
                        tail,
                        base_offset,
                    ));
                    Ok(CompiledCore { node, names, defined: list.defined })
                },
                Err(e) => Err(e),
            }
        },
    }
}

fn undefined_collations(n: usize) -> (r: Vec<Option<Collation>>)
    ensures
        none_defined(r@, n as nat),
{
    let mut out: Vec<Option<Collation>> = Vec::new();
    let mut i: usize = 0;
    while i < n
        invariant
            i <= n,
            none_defined(out@, i as nat),
        decreases n - i,
    {
        out.push(None);
        i = i + 1;
    }
    out
}

/// The body of a select: a compound, with what compiling it gave, or a single core.
#[derive(Debug)]
pub enum SelectBody<'a> {
    Compound(Result<CompiledCore, Error>),
    Select(SelectCore<'a>),
}

/// A select. `with` is what compiling it through its `WITH` clause gave, where it has one.
#[derive(Debug)]
pub struct Select<'a> {
    pub with: Option<Result<(PlanNode, Vec<String>), Error>>,
    pub body: SelectBody<'a>,
}

/// Whether the output columns that terms of the select name are there.
pub open spec fn select_wf(sel: Select<'_>) -> bool {
    sel.body matches SelectBody::Select(core) ==> core_wf(core)
}

/// Why a select cannot be compiled.
pub open spec fn select_error(sel: Select<'_>) -> Option<Seq<char>> {
    match (sel.with, sel.body) {
        (Some(outcome), _) => failure(outcome),
        (None, SelectBody::Compound(outcome)) => failure(outcome),
        (None, SelectBody::Select(core)) => core_error(core),
    }
}

/// How many output columns a select that compiles has.
pub open spec fn select_width(sel: Select<'_>) -> nat {
    match (sel.with, sel.body) {
        (Some(Ok((_, names))), _) => names@.len(),
        (None, SelectBody::Compound(Ok(out))) => out.names@.len(),
        (None, SelectBody::Select(SelectCore::Values { rows, .. })) => rows@[0]@.len(),
        (None, SelectBody::Select(SelectCore::Query { result: Ok(list), .. })) => list.names@.len(),
        _ => 0,
    }
}

/// Whether `r` is what compiling the select gives: through its `WITH` clause if it has one,
/// else through its compound, else its core.
pub open spec fn is_select(
    catalog: Catalog,
    r: Result<(PlanNode, Vec<String>), Error>,
    sel: Select<'_>,
    base_offset: usize,
) -> bool {
    match (sel.with, sel.body) {
        (Some(outcome), _) => r == outcome,
        (None, SelectBody::Compound(Ok(out))) => r == Ok::<(PlanNode, Vec<String>), Error>(
            (out.node, out.names),
        ),
        (None, SelectBody::Compound(Err(e))) => r == Err::<(PlanNode, Vec<String>), Error>(e),
        (None, SelectBody::Select(core)) => match (r, core_error(core)) {
            (Ok((node, names)), None) => exists|defined: Vec<Option<Collation>>| #[trigger]
                is_core(catalog, CompiledCore { node, names, defined }, core, base_offset),
            (Err(e), Some(text)) => e.text() == text,
            _ => false,
        },
    }
}

/// Compile a top-level select: there is no outer row before its own.
pub fn compile_select(catalog: &Catalog, sel: Select<'_>) -> (r: Result<
    (PlanNode, Vec<String>),
    Error,
>)
    requires
        select_wf(sel),
    ensures
        is_select(*catalog, r, sel, 0),
        match (r, select_error(sel)) {
            (Ok((_, names)), None) => names@.len() == select_width(sel),
            (Err(e), Some(text)) => e.text() == text,
            _ => false,
        },
{
    compile_select_scoped(catalog, sel, 0)
}

/// Compile a select that is a trigger action: its own row comes after the outer row, whose
/// width is `parent`.
pub fn compile_select_with_parent(catalog: &Catalog, sel: Select<'_>, parent: Option<usize>) -> (r:
    Result<(PlanNode, Vec<String>), Error>)
    requires
        select_wf(sel),
    ensures
        is_select(
            *catalog,
            r,
            sel,
            match parent {
                Some(width) => width,
                None => 0,
            },
        ),
        match (r, select_error(sel)) {
            (Ok((_, names)), None) => names@.len() == select_width(sel),
            (Err(e), Some(text)) => e.text() == text,
            _ => false,
        },
{
    let base_offset: usize = match parent {
        Some(width) => width,
        None => 0,
    };
    compile_select_scoped(catalog, sel, base_offset)
}

/// Compile a select whose own row comes after an outer row of width `base_offset`.
pub fn compile_select_scoped(catalog: &Catalog, sel: Select<'_>, base_offset: usize) -> (r: Result<
    (PlanNode, Vec<String>),
    Error,
>)
    requires
        select_wf(sel),
    ensures
        is_select(*catalog, r, sel, base_offset),
        match (r, select_error(sel)) {
            (Ok((_, names)), None) => names@.len() == select_width(sel),
            (Err(e), Some(text)) => e.text() == text,
            _ => false,
        },
{
    match sel.with {
        Some(outcome) => outcome,
        None => match compile_body(catalog, sel.body, base_offset) {
            Ok(out) => {
                assert(out == CompiledCore {
                    node: out.node,
                    names: out.names,
                    defined: out.defined,
                });
                Ok((out.node, out.names))
            },
            Err(e) => Err(e),
        },
    }
}

/// Compile a body without its `WITH` clause: an arm of a compound is compiled this way, for
/// the collations that its outputs define.
pub fn compile_body(catalog: &Catalog, body: SelectBody<'_>, base_offset: usize) -> (r: Result<
    CompiledCore,
    Error,
>)
    requires
        body matches SelectBody::Select(core) ==> core_wf(core),
    ensures
        match body {
            SelectBody::Compound(outcome) => r == outcome,
            SelectBody::Select(core) => match (r, core_error(core)) {
                (Ok(out), None) => is_core(*catalog, out, core, base_offset),
                (Err(e), Some(text)) => e.text() == text,
                _ => false,
            },
        },
{
    match body {
        SelectBody::Compound(outcome) => outcome,
        SelectBody::Select(core) => compile_core(catalog, core, base_offset),
    }
}

/// The row that window functions run over ends with the source that reaches furthest: no source
/// reaches beyond it, and some source reaches to it. A table takes a register for each column and
/// one for its rowid, where it has one, from its first register on. Without a source the row is the
/// outer row.
pub proof fn the_row_ends_with_its_furthest_source(
    sources: Seq<Source<'_>>,
    base_offset: int,
    i: int,
)
    ensures
        sources.len() == 0 ==> sources_end(sources, base_offset) == base_offset,
        0 <= i < sources.len() ==> match sources[i] {
            Source::BaseTable { table, base, .. } => sources_end(sources, base_offset) >= base
                + table.columns@.len() + if table.without_rowid {
                0int
            } else {
                1int
            },
            Source::Derived { columns, base, .. } => sources_end(sources, base_offset) >= base
                + columns@.len(),
        },
        sources.len() > 0 ==> exists|k: int|
            0 <= k < sources.len() && sources_end(sources, base_offset) == match (
            #[trigger] sources[k]) {
                Source::BaseTable { table, base, .. } => base + table.columns@.len()
                    + if table.without_rowid {
                    0int
                } else {
                    1int
                },
                Source::Derived { columns, base, .. } => base + columns@.len(),
            },
    decreases sources.len(),
{
    if sources.len() == 1 {
        assert(sources_end(sources, base_offset) == source_end(sources[0]));
    } else if sources.len() > 1 {
        let init = sources.drop_last();
        the_row_ends_with_its_furthest_source(init, base_offset, i);
        assert(sources.last() == sources[sources.len() - 1]);
        if 0 <= i < init.len() {
            assert(init[i] == sources[i]);
        }
        let k = choose|k: int|
            0 <= k < init.len() && sources_end(init, base_offset) == match (#[trigger] init[k]) {
                Source::BaseTable { table, base, .. } => base + table.columns@.len()
                    + if table.without_rowid {
                    0int
                } else {
                    1int
                },
                Source::Derived { columns, base, .. } => base + columns@.len(),
            };
        assert(sources[k] == init[k]);
    }
}

} // verus!
