//! A compiled query emits the rows that its text denotes: those of its `FROM` that its `WHERE`
//! keeps, grouped, the groups that its `HAVING` keeps, windowed, projected, made distinct, ordered
//! and limited.

#[allow(unused_imports)]
use vstd::prelude::*;
use crate::catalog::Catalog;
use crate::compile::emit_json::{emitting, every_json_scan_is_set, json_named, json_settings};
use crate::compile::limit::{
    a_bounded_sort_loses_nothing, is_sort_bound, limit_exprs, limited, repeatable, retained,
    LimitClause,
};
use crate::compile::meaning::{
    by_keys, counted, keeps, key_value, keys_before, lemma_no_repeats_are_rows, lemma_retained_maps,
    lemma_sort_agrees, lemma_sort_by_nothing, lemma_sort_maps, rows_of, runs, sorted_by, steady,
    values_on, with_windows, without_repeats, Engine, GroupHead, Row,
};
use crate::compile::minmax_index::seek_of;
use crate::compile::order_law::{key_before, Cell};
use crate::compile::order_scan::{order_rewrite, project_rewritten};
use crate::compile::select::{
    are_columns, core_error, core_wf, distinct_collations, grouped, hidden_exprs, is_assembled,
    is_core, is_core_source, is_ordered, is_projection, is_query, is_select, is_values_tail,
    key_column, output_error, output_source, outputs_exist, over, scan_may_serve, sort_key,
    sort_keys, terms_error, values_column, values_key, values_keys, Compiled, CompiledCore,
    CoreFrom, OrderResolved, OrderingTerm, QueryTail, ResultList, Select, SelectBody, SelectCore,
    ValuesTarget, ValuesTerm,
};
use crate::compile::values::{column_name_list, holds_rows, rows_error, texts};
use crate::compile::window_law::{bound_expressions_stay_in_order, term_before};
use crate::error::Error;
use crate::expr::{bound_exprs, Bound, EvalExpr, ExprTree, SortKey};
use crate::plan::{Aggregate, PlanNode, SortLimit, WindowFunc};
use crate::scope::Source;
use crate::search::{least, lemma_least_from};
use crate::text::{decimal, fold, same_name};
use crate::types::Collation;

verus! {

/// The rows of a `FROM` that are left by the part of the `WHERE` that its row source does not
/// apply itself.
pub open spec fn from_rows(e: Engine, from: CoreFrom<'_>) -> Seq<Row> {
    match from.built {
        Ok((node, Some(rest))) => rows_of(e, node).filter(|r: Row| keeps(e, rest, r)),
        Ok((node, None)) => rows_of(e, node),
        Err(_) => seq![],
    }
}

/// The rows of the groups of a query that its `HAVING` keeps; the rows themselves where it has no
/// groups.
pub open spec fn group_rows(e: Engine, list: ResultList, rows: Seq<Row>) -> Seq<Row> {
    match list.grouping {
        None => rows,
        Some(g) => {
            let head = GroupHead {
                group_by: g.group_by@,
                group_collations: g.group_collations@,
                aggregates: g.aggregates@,
                minmax_bare: g.minmax_bare,
                bare_arbitrary: g.bare_arbitrary,
            };
            let groups = (e.groups)(head, rows);
            match g.having {
                None => groups,
                Some(having) => groups.filter(|r: Row| keeps(e, having, r)),
            }
        },
    }
}

/// The collation under which output `k` is compared.
pub open spec fn output_collation(collations: Seq<Option<Collation>>, k: int) -> Collation {
    match collations[k] {
        Some(c) => c,
        None => Collation::Binary,
    }
}

/// The collation under which a term is compared: the one written after it, else that of the output
/// that it names, else that of its expression.
pub open spec fn term_collation(t: OrderingTerm, collations: Seq<Option<Collation>>) -> Collation {
    match t.collation {
        Some(written) => written->Ok_0,
        None => match t.resolved->Ok_0 {
            OrderResolved::Output(k) => output_collation(collations, k as int),
            OrderResolved::Hidden(_) => t.own_collation,
        },
    }
}

/// The expression that a term orders by.
pub open spec fn term_expr(t: OrderingTerm, projections: Seq<EvalExpr>) -> EvalExpr {
    match t.resolved->Ok_0 {
        OrderResolved::Output(k) => projections[k as int],
        OrderResolved::Hidden(x) => x,
    }
}

/// What a term orders a row of the row source by.
pub open spec fn term_value(
    e: Engine,
    projections: Seq<EvalExpr>,
    collations: Seq<Option<Collation>>,
    t: OrderingTerm,
    r: Row,
) -> Cell {
    (e.collated)(term_collation(t, collations), (e.eval)(term_expr(t, projections).tree(), r))
}

/// Whether `a` comes strictly before `b` under the terms from position `i` on.
pub open spec fn terms_before(
    e: Engine,
    projections: Seq<EvalExpr>,
    collations: Seq<Option<Collation>>,
    terms: Seq<OrderingTerm>,
    a: Row,
    b: Row,
    i: int,
) -> bool
    decreases terms.len() - i,
{
    if i >= terms.len() {
        false
    } else {
        let x = term_value(e, projections, collations, terms[i], a);
        let y = term_value(e, projections, collations, terms[i], b);
        if x == y {
            terms_before(e, projections, collations, terms, a, b, i + 1)
        } else {
            term_before(terms[i].order, terms[i].nulls, x, y)
        }
    }
}

/// The order of a list of terms on the rows of the row source.
pub open spec fn by_terms(
    e: Engine,
    projections: Seq<EvalExpr>,
    collations: Seq<Option<Collation>>,
    terms: Seq<OrderingTerm>,
) -> spec_fn(Row, Row) -> bool {
    |a: Row, b: Row| terms_before(e, projections, collations, terms, a, b, 0)
}

/// What a term that names an output orders a row of outputs by.
pub open spec fn output_value(
    e: Engine,
    collations: Seq<Option<Collation>>,
    t: OrderingTerm,
    out: Row,
) -> Cell {
    (e.collated)(term_collation(t, collations), out[t.resolved->Ok_0->Output_0 as int])
}

/// Whether a row of outputs comes strictly before another under the terms from position `i` on.
pub open spec fn outputs_before(
    e: Engine,
    collations: Seq<Option<Collation>>,
    terms: Seq<OrderingTerm>,
    a: Row,
    b: Row,
    i: int,
) -> bool
    decreases terms.len() - i,
{
    if i >= terms.len() {
        false
    } else {
        let x = output_value(e, collations, terms[i], a);
        let y = output_value(e, collations, terms[i], b);
        if x == y {
            outputs_before(e, collations, terms, a, b, i + 1)
        } else {
            term_before(terms[i].order, terms[i].nulls, x, y)
        }
    }
}

/// The order of a list of terms on rows of outputs.
pub open spec fn by_outputs(
    e: Engine,
    collations: Seq<Option<Collation>>,
    terms: Seq<OrderingTerm>,
) -> spec_fn(Row, Row) -> bool {
    |a: Row, b: Row| outputs_before(e, collations, terms, a, b, 0)
}

/// The outputs of a query over the rows of its row source, in order: sorted by the terms and then
/// projected, or projected, made distinct and then sorted.
pub open spec fn ordered_rows(
    e: Engine,
    projections: Seq<EvalExpr>,
    collations: Seq<Option<Collation>>,
    tail: QueryTail,
    rows: Seq<Row>,
) -> Seq<Row> {
    let out = |r: Row| values_on(e, projections, r);
    if tail.distinct {
        let under = Seq::new(collations.len(), |k: int| output_collation(collations, k));
        sorted_by(
            by_outputs(e, collations, tail.order_by@),
            without_repeats(e, under, rows.map_values(out)),
        )
    } else {
        sorted_by(by_terms(e, projections, collations, tail.order_by@), rows).map_values(out)
    }
}

/// Each row with the results of its window functions, where there are any.
pub open spec fn windowed_rows(e: Engine, windows: Seq<WindowFunc>, rows: Seq<Row>) -> Seq<Row> {
    if windows.len() == 0 {
        rows
    } else {
        with_windows(e, windows, rows)
    }
}

/// The outputs of a query over the rows of its row source, as many as its `LIMIT` says.
pub open spec fn tail_rows(
    e: Engine,
    projections: Seq<EvalExpr>,
    collations: Seq<Option<Collation>>,
    tail: QueryTail,
    rows: Seq<Row>,
) -> Seq<Row> {
    let all = ordered_rows(e, projections, collations, tail, rows);
    match tail.limit {
        None => all,
        Some(c) => limited(
            all,
            (e.count)(c.limit->Ok_0.tree(), true),
            match c.offset {
                Some(o) => (e.count)(o->Ok_0.tree(), true),
                None => 0,
            },
        ),
    }
}

/// The rows that a query denotes.
pub open spec fn query_rows(
    e: Engine,
    from: CoreFrom<'_>,
    list: ResultList,
    tail: QueryTail,
) -> Seq<Row> {
    tail_rows(
        e,
        list.projections@,
        list.collations@,
        tail,
        windowed_rows(e, list.windows@, group_rows(e, list, from_rows(e, from))),
    )
}

/// Whether the engine emits sorted rows where a scan is rewritten to serve an order and no outer
/// row stands before its own, as [`a_rewritten_scan_emits_the_sorted_rows`] has it.
///
/// [`a_rewritten_scan_emits_the_sorted_rows`]: crate::compile::order_law::a_rewritten_scan_emits_the_sorted_rows
pub open spec fn serves_orders(e: Engine, catalog: Catalog) -> bool {
    e.outer == 0 ==> forall|node: PlanNode, keys: Seq<SortKey>| #[trigger]
        order_rewrite(catalog, node, keys) matches Some(rw) ==> rows_of(
            e,
            project_rewritten(node, rw),
        ) == sorted_by(by_keys(e, keys), rows_of(e, node))
}

/// Whether the engine reads off a b-tree what an aggregation computes, where a seek stands for it,
/// as [`a_seek_finds_the_extremum`] has it.
///
/// [`a_seek_finds_the_extremum`]: crate::compile::minmax_law::a_seek_finds_the_extremum
pub open spec fn serves_seeks(e: Engine, catalog: Catalog, sources: Seq<Source<'_>>) -> bool {
    forall|agg: Aggregate, asked: Option<bool>| #[trigger]
        seek_of(sources, catalog.indexes@, agg, asked) matches Some(seek) ==> rows_of(
            e,
            PlanNode::MinMaxSeek(seek),
        ) == rows_of(e, PlanNode::Aggregate(agg))
}

/// An expression that may bound a sort is steady.
pub proof fn a_repeatable_expression_is_steady(t: ExprTree)
    ensures
        repeatable(t) ==> steady(t),
    decreases t,
{
    if repeatable(t) {
        assert forall|i: int| 0 <= i < t.operands.len() implies steady(#[trigger] t.operands[i]) by {
            assert(repeatable(t.operands[i]));
            a_repeatable_expression_is_steady(t.operands[i]);
        }
    }
}

/// Whether the hidden columns of JSON tables are filled changes no other column.
pub proof fn emitting_keeps_the_rows(e: Engine, node: PlanNode, emit: bool)
    ensures
        rows_of(e, emitting(node, emit)) == rows_of(e, node),
    decreases node,
{
    match node {
        PlanNode::Filter { input, .. } => emitting_keeps_the_rows(e, *input, emit),
        PlanNode::Project { input, .. } => emitting_keeps_the_rows(e, *input, emit),
        PlanNode::Sort { input, .. } => emitting_keeps_the_rows(e, *input, emit),
        PlanNode::Limit { input, .. } => emitting_keeps_the_rows(e, *input, emit),
        PlanNode::Distinct { input, .. } => emitting_keeps_the_rows(e, *input, emit),
        PlanNode::Aggregate(a) => emitting_keeps_the_rows(e, *a.input, emit),
        PlanNode::Window(w) => emitting_keeps_the_rows(e, *w.input, emit),
        PlanNode::Join(j) => {
            emitting_keeps_the_rows(e, *j.left, emit);
            emitting_keeps_the_rows(e, *j.right, emit);
        },
        PlanNode::SetOp(s) => {
            emitting_keeps_the_rows(e, *s.left, emit);
            emitting_keeps_the_rows(e, *s.right, emit);
        },
        _ => {},
    }
}

/// The column of a hidden term holds its expression.
proof fn hidden_column_holds_the_term(terms: Seq<OrderingTerm>, i: int)
    requires
        0 <= i < terms.len(),
        terms[i].resolved matches Ok(OrderResolved::Hidden(_)),
    ensures
        hidden_exprs(terms.subrange(0, i)).len() < hidden_exprs(terms).len(),
        terms[i].resolved == Ok::<OrderResolved, Error>(
            OrderResolved::Hidden(hidden_exprs(terms)[hidden_exprs(terms.subrange(0, i)).len() as int]),
        ),
    decreases terms.len(),
{
    let init = terms.drop_last();
    if i == terms.len() - 1 {
        assert(terms.subrange(0, i) =~= init);
    } else {
        assert(init.subrange(0, i) =~= terms.subrange(0, i));
        hidden_column_holds_the_term(init, i);
    }
}

/// Whether every term is bound, and names an output that is there.
pub open spec fn terms_bound(terms: Seq<OrderingTerm>, outputs: nat) -> bool {
    forall|i: int|
        #![trigger terms[i]]
        0 <= i < terms.len() ==> {
            &&& terms[i].resolved matches Ok(what)
            &&& what matches OrderResolved::Output(k) ==> k < outputs
            &&& terms[i].collation matches Some(c) ==> c is Ok
        }
}

proof fn a_query_that_compiles_has_bound_terms(terms: Seq<OrderingTerm>)
    requires
        terms_error(terms) is None,
    ensures
        forall|i: int|
            #![trigger terms[i]]
            0 <= i < terms.len() ==> terms[i].resolved is Ok && (terms[i].collation matches Some(c)
                ==> c is Ok),
    decreases terms.len(),
{
    if terms.len() > 0 {
        a_query_that_compiles_has_bound_terms(terms.drop_last());
        assert forall|i: int|
            #![trigger terms[i]]
            0 <= i < terms.len() implies terms[i].resolved is Ok && (terms[i].collation matches Some(
            c,
        ) ==> c is Ok) by {
            if i < terms.len() - 1 {
                assert(terms.drop_last()[i] == terms[i]);
            }
        }
    }
}

/// A sort key compares as its term does, whichever cells it is given.
proof fn a_sort_key_compares_as_its_term(
    t: OrderingTerm,
    outputs: nat,
    hidden: nat,
    collations: Seq<Option<Collation>>,
    x: Cell,
    y: Cell,
)
    ensures
        key_before(sort_key(t, outputs, hidden, collations), x, y) == term_before(
            t.order,
            t.nulls,
            x,
            y,
        ),
{
}

/// The keys order the projected rows as the terms order the rows that they are projected from.
proof fn keys_order_as_terms(
    e: Engine,
    projections: Seq<EvalExpr>,
    collations: Seq<Option<Collation>>,
    terms: Seq<OrderingTerm>,
    exprs: Vec<EvalExpr>,
    a: Row,
    b: Row,
    i: int,
)
    requires
        runs(e),
        exprs@ == projections + hidden_exprs(terms),
        collations.len() == projections.len(),
        terms_bound(terms, projections.len()),
        0 <= i <= terms.len(),
    ensures
        keys_before(
            e,
            sort_keys(terms, projections.len(), collations),
            values_on(e, exprs@, a),
            values_on(e, exprs@, b),
            i,
        ) == terms_before(e, projections, collations, terms, a, b, i),
    decreases terms.len() - i,
{
    if i < terms.len() {
        let t = terms[i];
        let hidden = hidden_exprs(terms.subrange(0, i)).len();
        let key = sort_key(t, projections.len(), hidden, collations);
        let column = key_column(t, projections.len(), hidden);
        assert(exprs@.len() == exprs.len());
        if t.resolved->Ok_0 is Hidden {
            hidden_column_holds_the_term(terms, i);
            assert(exprs@[(projections.len() + hidden) as int] == hidden_exprs(terms)[hidden as int]);
        } else {
            assert(exprs@[column as int] == projections[column as int]);
        }
        assert(exprs@[column as int] == term_expr(t, projections));
        let va = values_on(e, exprs@, a);
        let vb = values_on(e, exprs@, b);
        assert((e.eval)(EvalExpr::Column(column).tree(), va) == va[column as int]);
        assert((e.eval)(EvalExpr::Column(column).tree(), vb) == vb[column as int]);
        let x = term_value(e, projections, collations, t, a);
        let y = term_value(e, projections, collations, t, b);
        assert(key_value(e, key, va) == x);
        assert(key_value(e, key, vb) == y);
        a_sort_key_compares_as_its_term(t, projections.len(), hidden, collations, x, y);
        keys_order_as_terms(e, projections, collations, terms, exprs, a, b, i + 1);
    }
}

/// The keys order rows of outputs as the terms do, where every term names an output.
proof fn keys_order_as_outputs(
    e: Engine,
    outputs: nat,
    collations: Seq<Option<Collation>>,
    terms: Seq<OrderingTerm>,
    a: Row,
    b: Row,
    i: int,
)
    requires
        runs(e),
        collations.len() == outputs,
        terms_bound(terms, outputs),
        hidden_exprs(terms).len() == 0,
        a.len() == outputs,
        b.len() == outputs,
        0 <= i <= terms.len(),
    ensures
        keys_before(e, sort_keys(terms, outputs, collations), a, b, i) == outputs_before(
            e,
            collations,
            terms,
            a,
            b,
            i,
        ),
    decreases terms.len() - i,
{
    if i < terms.len() {
        let t = terms[i];
        let hidden = hidden_exprs(terms.subrange(0, i)).len();
        if t.resolved->Ok_0 is Hidden {
            hidden_column_holds_the_term(terms, i);
        }
        let key = sort_key(t, outputs, hidden, collations);
        let column = t.resolved->Ok_0->Output_0;
        assert((e.eval)(EvalExpr::Column(column).tree(), a) == a[column as int]);
        assert((e.eval)(EvalExpr::Column(column).tree(), b) == b[column as int]);
        let x = output_value(e, collations, t, a);
        let y = output_value(e, collations, t, b);
        assert(key_value(e, key, a) == x);
        assert(key_value(e, key, b) == y);
        a_sort_key_compares_as_its_term(t, outputs, hidden, collations, x, y);
        keys_order_as_outputs(e, outputs, collations, terms, a, b, i + 1);
    }
}

/// A projection emits the windowed rows of its row source, projected.
proof fn projected_rows(e: Engine, node: PlanNode, compiled: Compiled, tail: QueryTail)
    requires
        is_projection(node, compiled, tail),
    ensures
        ({
            let project = if tail.distinct {
                *node->Distinct_input
            } else {
                node
            };
            let rows = windowed_rows(e, compiled.windows@, rows_of(e, compiled.input));
            &&& project matches PlanNode::Project { input, exprs }
            &&& exprs@ == compiled.projections@ + hidden_exprs(tail.order_by@)
            &&& rows_of(e, project) == rows.map_values(|r: Row| values_on(e, exprs@, r))
            &&& rows_of(e, node) == if tail.distinct {
                without_repeats(
                    e,
                    distinct_collations(compiled.collations@),
                    rows.map_values(|r: Row| values_on(e, exprs@, r)),
                )
            } else {
                rows.map_values(|r: Row| values_on(e, exprs@, r))
            }
        }),
{
    reveal_with_fuel(rows_of, 4);
}

/// What the first columns of a projected row are.
proof fn stripped_row(
    e: Engine,
    projections: Seq<EvalExpr>,
    hidden: Seq<EvalExpr>,
    columns: Seq<EvalExpr>,
    r: Row,
)
    requires
        runs(e),
        projections.len() <= usize::MAX,
        are_columns(columns, projections.len()),
    ensures
        values_on(e, columns, values_on(e, projections + hidden, r)) == values_on(e, projections, r),
{
    let whole = values_on(e, projections + hidden, r);
    let out = values_on(e, columns, whole);
    assert forall|i: int| 0 <= i < projections.len() implies #[trigger] out[i] == values_on(
        e,
        projections,
        r,
    )[i] by {
        assert(columns[i] == EvalExpr::Column(i as usize));
        assert((e.eval)(EvalExpr::Column(i as usize).tree(), whole) == whole[i]);
        assert((projections + hidden)[i] == projections[i]);
    }
    assert(out =~= values_on(e, projections, r));
}

/// What a bounded sort keeps is enough for the limit above it.
proof fn the_bound_is_the_limit(
    e: Engine,
    bound: Option<SortLimit>,
    limit: EvalExpr,
    offset: Option<EvalExpr>,
)
    requires
        runs(e),
        is_sort_bound(bound, limit, offset),
    ensures
        bound matches Some(b) ==> (e.count)(b.limit.tree(), false) == (e.count)(limit.tree(), true)
            && counted(e, b.offset, false, 0) == counted(e, offset, true, 0),
{
    if let Some(b) = bound {
        a_repeatable_expression_is_steady(limit.tree());
        if let Some(o) = offset {
            a_repeatable_expression_is_steady(o.tree());
        }
    }
}

/// The rows under the `LIMIT` of a query, with or without those that the limit cannot need.
pub open spec fn nearly(e: Engine, tail: QueryTail, rows: Seq<Row>, all: Seq<Row>) -> bool {
    match tail.limit {
        None => rows == all,
        Some(c) => {
            let l = (e.count)(c.limit->Ok_0.tree(), true);
            let o = match c.offset {
                Some(o) => (e.count)(o->Ok_0.tree(), true),
                None => 0,
            };
            rows == all || rows == retained(all, l, o)
        },
    }
}

/// The ordered projection emits the projected rows in the order of the terms.
proof fn sorted_rows(
    e: Engine,
    catalog: Catalog,
    sorted: PlanNode,
    projection: PlanNode,
    compiled: Compiled,
    tail: QueryTail,
    base_offset: usize,
)
    requires
        runs(e),
        e.outer == base_offset,
        serves_orders(e, catalog),
        is_projection(projection, compiled, tail),
        is_ordered(catalog, sorted, projection, compiled, tail, base_offset),
        output_error(tail) is None,
    ensures
        ({
            let keys = sort_keys(
                tail.order_by@,
                compiled.projections@.len(),
                compiled.collations@,
            );
            nearly(
                e,
                tail,
                rows_of(e, sorted),
                sorted_by(by_keys(e, keys), rows_of(e, projection)),
            )
        }),
{
    let keys = sort_keys(tail.order_by@, compiled.projections@.len(), compiled.collations@);
    let all = sorted_by(by_keys(e, keys), rows_of(e, projection));
    if keys.len() == 0 {
        lemma_sort_by_nothing(by_keys(e, keys), rows_of(e, projection));
    } else if scan_may_serve(compiled, tail, base_offset) && order_rewrite(catalog, projection, keys) is Some {
        let rw = order_rewrite(catalog, projection, keys)->Some_0;
        assert(rows_of(e, project_rewritten(projection, rw)) == all);
    } else {
        if let Some(c) = tail.limit {
            let (l, o) = limit_exprs(c)->Ok_0;
            the_bound_is_the_limit(e, sorted->Sort_limit, l, o);
        }
    }
}

/// The projected rows in the order of the keys, with the hidden columns dropped, are the outputs in
/// the order of the terms.
proof fn stripped_rows(
    e: Engine,
    projections: Seq<EvalExpr>,
    collations: Seq<Option<Collation>>,
    tail: QueryTail,
    exprs: Vec<EvalExpr>,
    columns: Seq<EvalExpr>,
    rows: Seq<Row>,
)
    requires
        runs(e),
        !tail.distinct,
        exprs@ == projections + hidden_exprs(tail.order_by@),
        collations.len() == projections.len(),
        terms_bound(tail.order_by@, projections.len()),
        hidden_exprs(tail.order_by@).len() > 0 ==> are_columns(columns, projections.len()),
    ensures
        ({
            let keys = sort_keys(tail.order_by@, projections.len(), collations);
            let all = sorted_by(
                by_keys(e, keys),
                rows.map_values(|r: Row| values_on(e, exprs@, r)),
            );
            let want = ordered_rows(e, projections, collations, tail, rows);
            &&& hidden_exprs(tail.order_by@).len() > 0 ==> all.map_values(
                |r: Row| values_on(e, columns, r),
            ) == want
            &&& hidden_exprs(tail.order_by@).len() == 0 ==> all == want
        }),
{
    let terms = tail.order_by@;
    let keys = sort_keys(terms, projections.len(), collations);
    let full = |r: Row| values_on(e, exprs@, r);
    let before = by_terms(e, projections, collations, terms);
    let mapped = by_keys(e, keys);
    assert forall|a: Row, b: Row| #[trigger] before(a, b) == mapped(full(a), full(b)) by {
        keys_order_as_terms(e, projections, collations, terms, exprs, a, b, 0);
    }
    lemma_sort_maps(full, before, mapped, rows);
    let inner = sorted_by(before, rows);
    let all = sorted_by(mapped, rows.map_values(full));
    assert(all == inner.map_values(full));
    let want = ordered_rows(e, projections, collations, tail, rows);
    assert(exprs@.len() == exprs.len());
    if hidden_exprs(terms).len() > 0 {
        let strip = |r: Row| values_on(e, columns, r);
        assert forall|i: int| 0 <= i < inner.len() implies #[trigger] all.map_values(strip)[i]
            == want[i] by {
            stripped_row(e, projections, hidden_exprs(terms), columns, inner[i]);
        }
        assert(all.map_values(strip) =~= want);
    } else {
        assert(exprs@ =~= projections);
        assert(all =~= want);
    }
}

/// Distinct outputs in the order of the keys are in the order of the terms.
proof fn distinct_rows(
    e: Engine,
    projections: Seq<EvalExpr>,
    collations: Seq<Option<Collation>>,
    tail: QueryTail,
    rows: Seq<Row>,
)
    requires
        runs(e),
        tail.distinct,
        hidden_exprs(tail.order_by@).len() == 0,
        collations.len() == projections.len(),
        terms_bound(tail.order_by@, projections.len()),
    ensures
        ({
            let keys = sort_keys(tail.order_by@, projections.len(), collations);
            sorted_by(
                by_keys(e, keys),
                without_repeats(
                    e,
                    distinct_collations(collations),
                    rows.map_values(|r: Row| values_on(e, projections, r)),
                ),
            ) == ordered_rows(e, projections, collations, tail, rows)
        }),
{
    let terms = tail.order_by@;
    let keys = sort_keys(terms, projections.len(), collations);
    let under = Seq::new(collations.len(), |k: int| output_collation(collations, k));
    assert(under =~= distinct_collations(collations));
    let outputs = rows.map_values(|r: Row| values_on(e, projections, r));
    let s = without_repeats(e, under, outputs);
    lemma_no_repeats_are_rows(e, under, outputs, projections.len());
    let before = by_keys(e, keys);
    let other = by_outputs(e, collations, terms);
    let ok = |r: Row| r.len() == projections.len();
    assert forall|a: Row, b: Row| ok(a) && ok(b) implies #[trigger] before(a, b) == other(a, b) by {
        keys_order_as_outputs(e, projections.len(), collations, terms, a, b, 0);
    }
    lemma_sort_agrees(ok, before, other, s);
}

/// An assembled query emits the outputs over the rows of its row source, windowed, in the order of
/// its terms and as many as its limit says.
pub proof fn an_assembled_query_emits_its_outputs(
    e: Engine,
    catalog: Catalog,
    out: PlanNode,
    compiled: Compiled,
    tail: QueryTail,
    base_offset: usize,
)
    requires
        runs(e),
        e.outer == base_offset,
        serves_orders(e, catalog),
        is_assembled(catalog, out, compiled, tail, base_offset),
        output_error(tail) is None,
        compiled.collations@.len() == compiled.projections@.len(),
        outputs_exist(tail.order_by@, compiled.collations@),
    ensures
        rows_of(e, out) == tail_rows(
            e,
            compiled.projections@,
            compiled.collations@,
            tail,
            windowed_rows(e, compiled.windows@, rows_of(e, compiled.input)),
        ),
{
    let terms = tail.order_by@;
    let rows = windowed_rows(e, compiled.windows@, rows_of(e, compiled.input));
    let hidden = hidden_exprs(terms);
    let unlimited = match tail.limit {
        Some(_) => *out->Limit_input,
        None => out,
    };
    let sorted = if hidden.len() > 0 {
        *unlimited->Project_input
    } else {
        unlimited
    };
    let projection = choose|projection: PlanNode|
        #![trigger is_projection(projection, compiled, tail)]
        is_projection(projection, compiled, tail) && is_ordered(
            catalog,
            sorted,
            projection,
            compiled,
            tail,
            base_offset,
        );
    a_query_that_compiles_has_bound_terms(terms);
    assert(terms_bound(terms, compiled.projections@.len()));
    projected_rows(e, projection, compiled, tail);
    sorted_rows(e, catalog, sorted, projection, compiled, tail, base_offset);
    let keys = sort_keys(terms, compiled.projections@.len(), compiled.collations@);
    let all = sorted_by(by_keys(e, keys), rows_of(e, projection));
    let want = ordered_rows(e, compiled.projections@, compiled.collations@, tail, rows);
    let columns = unlimited->Project_exprs@;
    if tail.distinct {
        assert(compiled.projections@ + hidden =~= compiled.projections@);
        distinct_rows(e, compiled.projections@, compiled.collations@, tail, rows);
        assert(all == want);
    } else {
        let exprs = projection->Project_exprs;
        stripped_rows(
            e,
            compiled.projections@,
            compiled.collations@,
            tail,
            exprs,
            columns,
            rows,
        );
    }
    let strip = |r: Row| values_on(e, columns, r);
    if hidden.len() > 0 {
        assert(rows_of(e, unlimited) == rows_of(e, sorted).map_values(strip));
        assert(all.map_values(strip) == want);
    } else {
        assert(all == want);
    }
    if let Some(c) = tail.limit {
        let (l, o) = limit_exprs(c)->Ok_0;
        let ln = (e.count)(l.tree(), true);
        let on = counted(e, o, true, 0);
        if hidden.len() > 0 {
            lemma_retained_maps(strip, all, ln, on);
        }
        a_bounded_sort_loses_nothing(want, ln, on);
        assert(rows_of(e, unlimited) == want || rows_of(e, unlimited) == retained(want, ln, on));
        assert(rows_of(e, out) == limited(rows_of(e, unlimited), ln, on));
    }
}

/// What the outputs of a query are computed from emits the rows of its groups that its `HAVING`
/// keeps, and the rows of its row source where it has no groups.
///
/// Every row that it emits is of a group for which the predicate of the statement holds, and every
/// such group is emitted; a query whose groups are all emitted has no such predicate.
pub proof fn the_groups_that_having_keeps_are_emitted(
    e: Engine,
    catalog: Catalog,
    list: ResultList,
    sources: Seq<Source<'_>>,
    source: PlanNode,
)
    requires
        serves_seeks(e, catalog, sources),
    ensures
        rows_of(e, output_source(list, sources, catalog.indexes@, source)) == group_rows(
            e,
            list,
            rows_of(e, source),
        ),
        list.grouping is Some && output_source(list, sources, catalog.indexes@, source) is MinMaxSeek
            ==> list.grouping->Some_0.having is None && list.windows@.len() == 0,
{
    if let Some(g) = list.grouping {
        let agg = grouped(g, source);
        reveal_with_fuel(rows_of, 3);
        assert(rows_of(e, PlanNode::Aggregate(agg)) == group_rows(e, list, rows_of(e, source)));
    }
}

/// A compiled query emits the rows that its text denotes, under the names of its outputs.
pub proof fn a_query_emits_the_rows_it_denotes(
    e: Engine,
    catalog: Catalog,
    out: CompiledCore,
    from: CoreFrom<'_>,
    list: ResultList,
    tail: QueryTail,
    base_offset: usize,
)
    requires
        runs(e),
        e.outer == base_offset,
        serves_orders(e, catalog),
        from.resolved matches Ok(sources) ==> serves_seeks(e, catalog, sources@),
        list.collations@.len() == list.projections@.len(),
        ({
            let core = SelectCore::Query { from, result: Ok(list), tail };
            &&& core_wf(core)
            &&& core_error(core) is None
            &&& is_core(catalog, out, core, base_offset)
        }),
    ensures
        rows_of(e, out.node) == query_rows(e, from, list, tail),
        out.names@ == list.names@,
        out.defined@ == list.defined@,
{
    let sources = from.resolved->Ok_0@;
    let (source, query) = choose|source: PlanNode, query: PlanNode|
        #![trigger is_core_source(source, from), is_query(catalog, query, list, sources, source, tail, base_offset)]
        is_core_source(source, from) && is_query(
            catalog,
            query,
            list,
            sources,
            source,
            tail,
            base_offset,
        ) && out.node == emitting(query, json_named(sources));
    emitting_keeps_the_rows(e, query, json_named(sources));
    let compiled = over(list, sources, catalog.indexes@, source);
    an_assembled_query_emits_its_outputs(e, catalog, query, compiled, tail, base_offset);
    the_groups_that_having_keeps_are_emitted(e, catalog, list, sources, source);
    assert(rows_of(e, source) =~= from_rows(e, from));
}

/// The hidden columns of the JSON tables of a query are all filled where a source says that its
/// hidden column is named, and none is filled where no source says so.
pub proof fn documents_are_copied_where_they_are_named(
    catalog: Catalog,
    out: CompiledCore,
    from: CoreFrom<'_>,
    result: Result<ResultList, Error>,
    tail: QueryTail,
    base_offset: usize,
    i: int,
)
    requires
        is_core(catalog, out, SelectCore::Query { from, result, tail }, base_offset),
        0 <= i < json_settings(out.node).len(),
    ensures
        json_settings(out.node)[i] <==> exists|k: int|
            #![trigger from.resolved->Ok_0@[k]]
            0 <= k < from.resolved->Ok_0@.len() && (from.resolved->Ok_0@[k] matches Source::Derived {
                json_referenced,
                ..
            } && json_referenced),
{
    let sources = from.resolved->Ok_0@;
    let list = result->Ok_0;
    let (source, query) = choose|source: PlanNode, query: PlanNode|
        #![trigger is_core_source(source, from), is_query(catalog, query, list, sources, source, tail, base_offset)]
        is_core_source(source, from) && is_query(
            catalog,
            query,
            list,
            sources,
            source,
            tail,
            base_offset,
        ) && out.node == emitting(query, json_named(sources));
    every_json_scan_is_set(query, json_named(sources), true);
    if json_named(sources) {
        let k = choose|k: int| 0 <= k < sources.len() && (#[trigger] sources[k]).reads_json();
        assert(from.resolved->Ok_0@[k] is Derived);
    }
    if exists|k: int|
        #![trigger from.resolved->Ok_0@[k]]
        0 <= k < from.resolved->Ok_0@.len() && (from.resolved->Ok_0@[k] matches Source::Derived {
            json_referenced,
            ..
        } && json_referenced) {
        let k = choose|k: int|
            #![trigger from.resolved->Ok_0@[k]]
            0 <= k < from.resolved->Ok_0@.len() && (from.resolved->Ok_0@[k] matches Source::Derived {
                json_referenced,
                ..
            } && json_referenced);
        assert(sources[k].reads_json());
    }
}

/// The row that a row of a `VALUES` list denotes.
pub open spec fn listed_row(e: Engine, row: Seq<Bound>) -> Row {
    Seq::new(row.len(), |i: int| (e.eval)(row[i]->Ok_0.tree(), seq![]))
}

/// Whether a term of a `VALUES` list of `width` columns names column `k`: by its position from 1
/// on, or by the first of the names `column1`, `column2` and so on.
pub open spec fn names_output(t: ValuesTarget, width: nat, k: int) -> bool {
    &&& 0 <= k < width
    &&& match t {
        ValuesTarget::Ordinal(n) => n == k + 1,
        ValuesTarget::Name(name) => {
            &&& fold("column"@ + decimal((k + 1) as nat)) == fold(name@)
            &&& forall|j: int|
                0 <= j < k ==> fold("column"@ + #[trigger] decimal((j + 1) as nat)) != fold(name@)
        },
        ValuesTarget::Other => false,
    }
}

/// What a term of a `VALUES` list on column `k` orders a row by. Its columns have no collation of
/// their own.
pub open spec fn listed_value(e: Engine, t: ValuesTerm, k: int, r: Row) -> Cell {
    let collation = match t.collation {
        Some(written) => written->Ok_0,
        None => Collation::Binary,
    };
    (e.collated)(collation, r[k])
}

/// Whether `a` comes strictly before `b` under the terms of a `VALUES` list from position `i` on,
/// which are on the given columns.
pub open spec fn listed_before(
    e: Engine,
    terms: Seq<ValuesTerm>,
    columns: Seq<int>,
    a: Row,
    b: Row,
    i: int,
) -> bool
    decreases terms.len() - i,
{
    if i >= terms.len() {
        false
    } else {
        let x = listed_value(e, terms[i], columns[i], a);
        let y = listed_value(e, terms[i], columns[i], b);
        if x == y {
            listed_before(e, terms, columns, a, b, i + 1)
        } else {
            term_before(terms[i].order, terms[i].nulls, x, y)
        }
    }
}

/// The rows that a `VALUES` list denotes: those listed, in the order of its terms, as many as its
/// limit says.
pub open spec fn listed_rows(
    e: Engine,
    rows: Seq<Vec<Bound>>,
    terms: Seq<ValuesTerm>,
    columns: Seq<int>,
    limit: Option<LimitClause>,
) -> Seq<Row> {
    let all = sorted_by(
        |a: Row, b: Row| listed_before(e, terms, columns, a, b, 0),
        rows.map_values(|row: Vec<Bound>| listed_row(e, row@)),
    );
    match limit {
        None => all,
        Some(c) => limited(
            all,
            (e.count)(c.limit->Ok_0.tree(), true),
            match c.offset {
                Some(o) => (e.count)(o->Ok_0.tree(), true),
                None => 0,
            },
        ),
    }
}

proof fn values_keys_one_by_one(terms: Seq<ValuesTerm>, names: Seq<Seq<char>>, keys: Seq<SortKey>)
    requires
        values_keys(terms, names) == Ok::<Seq<SortKey>, Seq<char>>(keys),
    ensures
        keys.len() == terms.len(),
        forall|i: int|
            0 <= i < terms.len() ==> values_key(#[trigger] terms[i], names) == Ok::<
                SortKey,
                Seq<char>,
            >(keys[i]),
    decreases terms.len(),
{
    if terms.len() > 0 {
        let init = values_keys(terms.drop_last(), names)->Ok_0;
        values_keys_one_by_one(terms.drop_last(), names, init);
        assert forall|i: int| 0 <= i < terms.len() implies values_key(#[trigger] terms[i], names)
            == Ok::<SortKey, Seq<char>>(keys[i]) by {
            if i < terms.len() - 1 {
                assert(terms.drop_last()[i] == terms[i]);
            }
        }
    }
}

proof fn named_output_is_found(t: ValuesTarget, names: Seq<Seq<char>>, width: nat, k: int)
    requires
        names == column_name_list(width),
        names_output(t, width, k),
        width <= usize::MAX,
    ensures
        values_column(t, names) == Ok::<usize, Seq<char>>(k as usize),
{
    if let ValuesTarget::Name(name) = t {
        let p = |i: int| same_name(names[i], name@);
        lemma_least_from(p, 0, names.len() as int);
        assert(names[k] == "column"@ + decimal((k + 1) as nat));
        assert(p(k));
        let found = least(p, names.len() as int)->Some_0;
        if found < k {
            assert(p(found));
            assert(names[found] == "column"@ + decimal((found + 1) as nat));
        } else if found > k {
            assert(!p(k));
        }
    }
}

proof fn values_keys_order_as_terms(
    e: Engine,
    terms: Seq<ValuesTerm>,
    columns: Seq<int>,
    names: Seq<Seq<char>>,
    keys: Seq<SortKey>,
    a: Row,
    b: Row,
    i: int,
)
    requires
        runs(e),
        values_keys(terms, names) == Ok::<Seq<SortKey>, Seq<char>>(keys),
        names == column_name_list(names.len()),
        names.len() <= usize::MAX,
        columns.len() == terms.len(),
        forall|i: int|
            0 <= i < terms.len() ==> names_output(
                (#[trigger] terms[i]).target,
                names.len(),
                columns[i],
            ),
        a.len() == names.len(),
        b.len() == names.len(),
        0 <= i <= terms.len(),
    ensures
        keys_before(e, keys, a, b, i) == listed_before(e, terms, columns, a, b, i),
    decreases terms.len() - i,
{
    values_keys_one_by_one(terms, names, keys);
    if i < terms.len() {
        named_output_is_found(terms[i].target, names, names.len(), columns[i]);
        assert(values_key(terms[i], names) == Ok::<SortKey, Seq<char>>(keys[i]));
        let column = columns[i] as usize;
        assert((e.eval)(EvalExpr::Column(column).tree(), a) == a[column as int]);
        assert((e.eval)(EvalExpr::Column(column).tree(), b) == b[column as int]);
        let x = listed_value(e, terms[i], columns[i], a);
        let y = listed_value(e, terms[i], columns[i], b);
        assert(key_value(e, keys[i], a) == x);
        assert(key_value(e, keys[i], b) == y);
        values_keys_order_as_terms(e, terms, columns, names, keys, a, b, i + 1);
    }
}

proof fn rows_fit(rows: Seq<Vec<Bound>>, width: nat)
    requires
        rows_error(rows, width) is None,
    ensures
        forall|i: int|
            0 <= i < rows.len() ==> (#[trigger] rows[i])@.len() == width && bound_exprs(
                rows[i]@,
            ) is Ok,
    decreases rows.len(),
{
    if rows.len() > 0 {
        rows_fit(rows.drop_last(), width);
        assert forall|i: int| 0 <= i < rows.len() implies (#[trigger] rows[i])@.len() == width
            && bound_exprs(rows[i]@) is Ok by {
            if i < rows.len() - 1 {
                assert(rows.drop_last()[i] == rows[i]);
            }
        }
    }
}

/// A compiled `VALUES` list emits the rows that it denotes, under the names `column1`, `column2`
/// and so on.
pub proof fn a_values_list_emits_its_rows(
    e: Engine,
    catalog: Catalog,
    out: CompiledCore,
    rows: Vec<Vec<Bound>>,
    order_by: Vec<ValuesTerm>,
    columns: Seq<int>,
    limit: Option<LimitClause>,
    base_offset: usize,
)
    requires
        runs(e),
        columns.len() == order_by@.len(),
        forall|i: int|
            0 <= i < order_by@.len() ==> names_output(
                (#[trigger] order_by@[i]).target,
                rows@[0]@.len(),
                columns[i],
            ),
        ({
            let core = SelectCore::Values { rows, order_by, limit };
            &&& core_error(core) is None
            &&& is_core(catalog, out, core, base_offset)
        }),
    ensures
        rows_of(e, out.node) == listed_rows(e, rows@, order_by@, columns, limit),
        out.names@.len() == rows@[0]@.len(),
        forall|i: int|
            0 <= i < out.names@.len() ==> (#[trigger] out.names@[i])@ == "column"@ + decimal(
                (i + 1) as nat,
            ),
        out.defined@.len() == out.names@.len(),
        forall|i: int| 0 <= i < out.defined@.len() ==> (#[trigger] out.defined@[i]) is None,
{
    let width = rows@[0]@.len();
    let names = column_name_list(width);
    assert(rows@[0]@.len() == rows@[0].len());
    let list = choose|list: PlanNode|
        #![trigger holds_rows(list, rows@)]
        holds_rows(list, rows@) && is_values_tail(out.node, list, order_by@, limit, names);
    rows_fit(rows@, width);
    let given = rows@.map_values(|row: Vec<Bound>| listed_row(e, row@));
    let held = list->Values_rows@;
    assert forall|i: int| 0 <= i < rows@.len() implies #[trigger] rows_of(e, list)[i] == given[i] by {
        bound_expressions_stay_in_order(rows@[i]@, held[i]@);
        assert(rows_of(e, list)[i] == values_on(e, held[i]@, seq![]));
        assert(values_on(e, held[i]@, seq![]) =~= listed_row(e, rows@[i]@)) by {
            assert forall|k: int| 0 <= k < held[i]@.len() implies #[trigger] held[i]@[k]
                == rows@[i]@[k]->Ok_0 by {
                assert(rows@[i]@[k] == Ok::<EvalExpr, Error>(held[i]@[k]));
            }
        }
    }
    assert(rows_of(e, list) =~= given);
    let sorted = match limit {
        Some(_) => *out.node->Limit_input,
        None => out.node,
    };
    let before = |a: Row, b: Row| listed_before(e, order_by@, columns, a, b, 0);
    if order_by@.len() == 0 {
        lemma_sort_by_nothing(before, given);
    } else {
        let keys = sorted->Sort_keys@;
        let ok = |r: Row| r.len() == width;
        let other = by_keys(e, keys);
        assert forall|a: Row, b: Row| ok(a) && ok(b) implies #[trigger] before(a, b) == other(a, b) by {
            values_keys_order_as_terms(e, order_by@, columns, names, keys, a, b, 0);
        }
        assert forall|i: int| 0 <= i < given.len() implies ok(#[trigger] given[i]) by {
            assert(rows@[i]@.len() == width);
        }
        lemma_sort_agrees(ok, before, other, given);
    }
    assert(rows_of(e, sorted) == sorted_by(before, given));
    assert forall|i: int| 0 <= i < out.names@.len() implies (#[trigger] out.names@[i])@
        == "column"@ + decimal((i + 1) as nat) by {
        assert(texts(out.names@)[i] == out.names@[i]@);
        assert(names[i] == "column"@ + decimal((i + 1) as nat));
    }
    assert(texts(out.names@).len() == names.len());
}

/// A select with a `WITH` clause is what compiling it through that clause gives, and a compound what
/// compiling it gives; else it is its core, placed where the select is.
pub proof fn a_select_is_what_it_is_compiled_through(
    catalog: Catalog,
    node: PlanNode,
    names: Vec<String>,
    sel: Select<'_>,
    base_offset: usize,
)
    requires
        is_select(catalog, Ok((node, names)), sel, base_offset),
    ensures
        sel.with matches Some(outcome) ==> outcome == Ok::<(PlanNode, Vec<String>), Error>(
            (node, names),
        ),
        sel.with is None ==> match sel.body {
            SelectBody::Compound(outcome) => outcome is Ok && outcome->Ok_0.node == node
                && outcome->Ok_0.names == names,
            SelectBody::Select(core) => core_error(core) is None && exists|
                defined: Vec<Option<Collation>>,
            | #[trigger] is_core(catalog, CompiledCore { node, names, defined }, core, base_offset),
        },
{
}

} // verus!
