//! Subqueries in expressions: whether one reads the outer row, where its own columns lie, and
//! whether its result may be kept.

use minisqlite_plan::access::SeqScan;
use minisqlite_plan::catalog::{Catalog, ColumnDef, TableDef};
use minisqlite_plan::compile::select::{
    core_windowing, window_input_width, CoreFrom, Grouping, QueryTail, ResultList, Select,
    SelectBody, SelectCore,
};
use minisqlite_plan::compile::subquery::{
    compile_columnlist_subquery, compile_row_subquery, compile_subquery, compile_value_subquery,
    BoundBody, SubplanStep, SubplanTrial,
};
use minisqlite_plan::compile::window::{
    bind_window_function, FunctionArgs, RegistryFacts, WindowCall, WindowClauses,
};
use minisqlite_plan::compile::window_chain::{OverClause, WindowSpec};
use minisqlite_plan::error::Error;
use minisqlite_plan::expr::{
    AggregateCall, CompareMeta, CompareOp, EvalExpr, NowKind, ScalarFunction,
};
use minisqlite_plan::plan::{
    Aggregate, CtePlan, Join, JoinStrategy, JoinType, PlanNode, SubPlan, WindowFunc,
};
use minisqlite_plan::plan_ctx::BindParam;
use minisqlite_plan::scope::Source;
use minisqlite_plan::types::{Affinity, Collation, DbIndex, Value};
use minisqlite_plan::PlanCtx;

// `t(id, b)`, `u(k, x, g)` and `w(m, n)`: rows of width 3, 4 and 3.

const T_WIDTH: usize = 3;
const U_WIDTH: usize = 4;

fn scan(table: &str, column_count: usize) -> PlanNode {
    PlanNode::SeqScan(SeqScan { table: table.to_string(), db: DbIndex::main(), column_count })
}

fn column(i: usize) -> EvalExpr {
    EvalExpr::Column(i)
}

fn integer(i: i64) -> EvalExpr {
    EvalExpr::Literal(Value::Integer(i))
}

fn binary(op: CompareOp, left: EvalExpr, right: EvalExpr) -> EvalExpr {
    EvalExpr::Compare {
        op,
        left: Box::new(left),
        right: Box::new(right),
        meta: CompareMeta { apply_left: None, apply_right: None, collation: Collation::Binary },
        null_safe: false,
    }
}

fn equals(left: EvalExpr, right: EvalExpr) -> EvalExpr {
    binary(CompareOp::Eq, left, right)
}

fn and(left: EvalExpr, right: EvalExpr) -> EvalExpr {
    EvalExpr::And(Box::new(left), Box::new(right))
}

fn function(name: &str, deterministic: bool) -> EvalExpr {
    EvalExpr::Func {
        func: ScalarFunction { name: name.to_string(), deterministic },
        args: vec![],
    }
}

fn project(input: PlanNode, exprs: Vec<EvalExpr>) -> PlanNode {
    PlanNode::Project { input: Box::new(input), exprs }
}

fn filtered(input: PlanNode, predicate: EvalExpr) -> PlanNode {
    PlanNode::Filter { input: Box::new(input), predicate }
}

fn aggregated(input: PlanNode, func: &str, arg: EvalExpr) -> PlanNode {
    PlanNode::Aggregate(Aggregate {
        input: Box::new(input),
        group_by: vec![],
        group_collations: vec![],
        aggregates: vec![AggregateCall {
            func: func.to_string(),
            args: vec![arg],
            arg_collations: vec![Collation::Binary],
            distinct: false,
            filter: None,
            order_by: vec![],
        }],
        having: None,
        minmax_bare: None,
        bare_arbitrary: None,
    })
}

fn no_tables() -> Catalog {
    Catalog { tables: vec![], indexes: vec![] }
}

/// A query of outputs `exprs` over a row source, filtered by what is left of its `WHERE`.
fn query(
    built: (PlanNode, Option<EvalExpr>),
    grouping: Option<Grouping>,
    exprs: Vec<EvalExpr>,
    windows: Vec<WindowFunc>,
) -> Select<'static> {
    let width = exprs.len();
    let core = SelectCore::Query {
        from: CoreFrom { resolved: Ok(vec![]), bound_where: Ok(()), built: Ok(built) },
        result: Ok(ResultList {
            grouping,
            projections: exprs,
            names: (0..width).map(|i| format!("c{i}")).collect(),
            collations: (0..width).map(|_| None).collect(),
            defined: (0..width).map(|_| None).collect(),
            windows,
        }),
        tail: QueryTail { distinct: false, order_by: vec![], limit: None },
    };
    Select { with: None, body: SelectBody::Select(core) }
}

/// The query whose plan is the given projection.
fn query_of(node: PlanNode) -> Select<'static> {
    match node {
        PlanNode::Project { input, exprs } => match *input {
            PlanNode::Filter { input, predicate } => {
                query((*input, Some(predicate)), None, exprs, vec![])
            }
            PlanNode::Aggregate(a) => {
                let built = match *a.input {
                    PlanNode::Filter { input, predicate } => (*input, Some(predicate)),
                    source => (source, None),
                };
                let grouping = Grouping {
                    group_by: a.group_by,
                    group_collations: a.group_collations,
                    aggregates: a.aggregates,
                    having: a.having,
                    minmax_bare: a.minmax_bare,
                    bare_arbitrary: a.bare_arbitrary,
                    is_max: Some(true),
                };
                query(built, Some(grouping), exprs, vec![])
            }
            source => query((source, None), None, exprs, vec![]),
        },
        other => panic!("expected Project, got {other:?}"),
    }
}

fn bound(select: Select<'static>, outer: &[usize], nondeterministic: bool) -> BoundBody<'static> {
    BoundBody {
        select,
        saw_correlated: !outer.is_empty(),
        correlated_cols: outer.to_vec(),
        nondeterministic,
    }
}

/// A body that reads the given outer registers.
fn body(node: PlanNode, outer: &[usize], nondeterministic: bool) -> BoundBody<'static> {
    bound(query_of(node), outer, nondeterministic)
}

/// Compile a subquery under an outer row, binding its body with `bind(ctx, base)`.
fn compile<F: FnMut(&mut PlanCtx, usize) -> BoundBody<'static>>(
    ctx: &mut PlanCtx,
    outer_width: usize,
    mut bind: F,
) -> (SubPlan, Vec<String>) {
    let catalog = no_tables();
    let trial = SubplanTrial::begin(ctx, outer_width);
    let first = bind(ctx, 0);
    match trial.after_trial(ctx, &catalog, first).unwrap() {
        SubplanStep::Done(sub, names) => (sub, names),
        SubplanStep::Rebind { base_offset } => {
            let second = bind(ctx, base_offset);
            trial.after_rebind(ctx, &catalog, second).unwrap()
        }
    }
}

/// Compile and register the only subquery of a statement on `t`.
fn only_sub<F: FnMut(&mut PlanCtx, usize) -> BoundBody<'static>>(outer_width: usize, bind: F) -> (PlanCtx, usize) {
    let mut ctx = PlanCtx::new();
    let compiled = compile(&mut ctx, outer_width, bind);
    let id = compile_value_subquery(&mut ctx, Ok(compiled)).unwrap();
    assert_eq!(ctx.subqueries().len(), 1, "expected exactly one registered subquery");
    (ctx, id)
}

fn project_exprs(n: &PlanNode) -> &[EvalExpr] {
    match n {
        PlanNode::Project { exprs, .. } => exprs,
        other => panic!("expected Project, got {other:?}"),
    }
}

fn project_input(n: &PlanNode) -> &PlanNode {
    match n {
        PlanNode::Project { input, .. } => input,
        other => panic!("expected Project, got {other:?}"),
    }
}

fn filter(n: &PlanNode) -> (&EvalExpr, &PlanNode) {
    match n {
        PlanNode::Filter { predicate, input } => (predicate, input),
        other => panic!("expected Filter, got {other:?}"),
    }
}

fn compare(e: &EvalExpr) -> (&EvalExpr, &EvalExpr) {
    match e {
        EvalExpr::Compare { left, right, .. } => (left, right),
        other => panic!("expected Compare, got {other:?}"),
    }
}

fn reg(e: &EvalExpr) -> usize {
    match e {
        EvalExpr::Column(i) => *i,
        other => panic!("expected Column, got {other:?}"),
    }
}

#[test]
fn non_correlated_scalar_binds_own_columns_at_base_zero() {
    // SELECT (SELECT x FROM u) FROM t
    let (ctx, _) = only_sub(T_WIDTH, |_, base| {
        body(project(scan("u", 3), vec![column(base + 1)]), &[], false)
    });
    let sub = &ctx.subqueries()[0];
    assert!(!sub.correlated, "no outer reference => not correlated");
    assert_eq!(reg(&project_exprs(&sub.plan)[0]), 1, "x at base 0 (schema index 1)");
}

#[test]
fn non_correlated_aggregate_scalar_is_not_correlated() {
    // SELECT (SELECT max(x) FROM u) FROM t
    let (ctx, _) = only_sub(T_WIDTH, |_, base| {
        body(project(aggregated(scan("u", 3), "max", column(base + 1)), vec![column(0)]), &[], false)
    });
    let sub = &ctx.subqueries()[0];
    assert!(!sub.correlated);
    let agg = match project_input(&sub.plan) {
        PlanNode::Aggregate(a) => a,
        other => panic!("expected Aggregate under the projection, got {other:?}"),
    };
    assert_eq!(agg.aggregates.len(), 1, "one aggregate call");
    assert_eq!(reg(&agg.aggregates[0].args[0]), 1, "max(x): x at base 0");
}

#[test]
fn non_correlated_in_select_is_not_correlated() {
    // SELECT * FROM t WHERE t.id IN (SELECT k FROM u)
    let (ctx, _) = only_sub(T_WIDTH, |_, base| {
        body(project(scan("u", 3), vec![column(base)]), &[], false)
    });
    let sub = &ctx.subqueries()[0];
    assert!(!sub.correlated);
    assert_eq!(reg(&project_exprs(&sub.plan)[0]), 0, "k at base 0 (schema index 0)");
}

fn u_join_w(on: EvalExpr) -> PlanNode {
    PlanNode::Join(Join {
        left: Box::new(scan("u", 3)),
        left_width: U_WIDTH,
        right: Box::new(scan("w", 2)),
        right_width: 3,
        join_type: JoinType::Inner,
        on: Some(on),
        strategy: JoinStrategy::NestedLoop,
    })
}

#[test]
fn non_correlated_subquery_over_a_join_still_compiles() {
    // SELECT (SELECT u.x FROM u, w WHERE u.k = w.m) FROM t
    let (ctx, _) = only_sub(T_WIDTH, |_, base| {
        let join = u_join_w(equals(column(base), column(base + U_WIDTH)));
        body(project(join, vec![column(base + 1)]), &[], false)
    });
    let sub = &ctx.subqueries()[0];
    assert!(!sub.correlated);
    assert_eq!(reg(&project_exprs(&sub.plan)[0]), 1, "u.x at base 0 (schema index 1)");
    let under = project_input(&sub.plan);
    assert!(
        matches!(under, PlanNode::Join(_)),
        "the join is preserved (the u.k = w.m equijoin folds into it), got {under:?}"
    );
}

/// `SELECT <output of u> FROM u WHERE <column of u> = <outer register>`
fn u_where(base: usize, output: usize, own: usize, outer: usize) -> PlanNode {
    project(
        filtered(scan("u", 3), equals(column(base + own), column(outer))),
        vec![column(base + output)],
    )
}

#[test]
fn correlated_scalar_places_own_after_outer_and_reads_outer_low() {
    // SELECT (SELECT u.x FROM u WHERE u.k = t.id) FROM t
    let (ctx, _) = only_sub(T_WIDTH, |_, base| body(u_where(base, 1, 0, 0), &[0], false));
    let sub = &ctx.subqueries()[0];
    assert!(sub.correlated, "references t.id => correlated");
    assert_eq!(reg(&project_exprs(&sub.plan)[0]), 4, "u.x own column at base 3 => reg 4");
    let (pred, _) = filter(project_input(&sub.plan));
    let (l, r) = compare(pred);
    assert_eq!(reg(l), 3, "u.k own => reg 3 (>= outer_width)");
    assert_eq!(reg(r), 0, "t.id outer => reg 0 (< outer_width)");
}

#[test]
fn correlated_exists_is_correlated() {
    // SELECT * FROM t WHERE EXISTS (SELECT 1 FROM u WHERE u.k = t.id)
    let mut ctx = PlanCtx::new();
    let compiled = compile(&mut ctx, T_WIDTH, |_, base| {
        let node = project(
            filtered(scan("u", 3), equals(column(base), column(0))),
            vec![integer(1)],
        );
        body(node, &[0], false)
    });
    compile_subquery(&mut ctx, Ok(compiled)).unwrap();
    let sub = &ctx.subqueries()[0];
    assert!(sub.correlated);
    let (pred, _) = filter(project_input(&sub.plan));
    let (l, r) = compare(pred);
    assert_eq!(reg(l), 3, "u.k own => reg 3");
    assert_eq!(reg(r), 0, "t.id outer => reg 0");
}

#[test]
fn correlated_in_select_is_correlated() {
    // SELECT * FROM t WHERE t.id IN (SELECT k FROM u WHERE u.g = t.b)
    let (ctx, _) = only_sub(T_WIDTH, |_, base| body(u_where(base, 0, 2, 1), &[1], false));
    let sub = &ctx.subqueries()[0];
    assert!(sub.correlated);
    assert_eq!(reg(&project_exprs(&sub.plan)[0]), 3, "u.k own => reg 3");
    let (pred, _) = filter(project_input(&sub.plan));
    let (l, r) = compare(pred);
    assert_eq!(reg(l), 5, "u.g own (schema index 2 at base 3) => reg 5");
    assert_eq!(reg(r), 1, "t.b outer => reg 1");
}

#[test]
fn param_numbering_unaffected_by_a_non_correlated_subquery() {
    // SELECT (SELECT x FROM u WHERE g = ?), ? FROM t
    let (mut ctx, id) = only_sub(T_WIDTH, |ctx, base| {
        let n = ctx.param_index(&BindParam::Anonymous).unwrap();
        let node = project(
            filtered(scan("u", 3), equals(column(base + 2), EvalExpr::Param(n))),
            vec![column(base + 1)],
        );
        body(node, &[], false)
    });
    let outer = [
        EvalExpr::ScalarSubquery(id),
        EvalExpr::Param(ctx.param_index(&BindParam::Anonymous).unwrap()),
    ];
    let sub = &ctx.subqueries()[0];
    assert!(!sub.correlated);
    let (pred, _) = filter(project_input(&sub.plan));
    let (_, rhs) = compare(pred);
    assert!(matches!(rhs, EvalExpr::Param(1)), "inner ? is param 1, got {rhs:?}");
    assert!(matches!(outer[0], EvalExpr::ScalarSubquery(0)), "first output is the subquery");
    assert!(matches!(outer[1], EvalExpr::Param(2)), "outer ? is param 2, got {:?}", outer[1]);
}

#[test]
fn param_numbering_preserved_across_a_correlated_rebind() {
    // SELECT (SELECT x FROM u WHERE u.k = t.id AND g = ?), ? FROM t
    let (mut ctx, _) = only_sub(T_WIDTH, |ctx, base| {
        let n = ctx.param_index(&BindParam::Anonymous).unwrap();
        let predicate = and(
            equals(column(base), column(0)),
            equals(column(base + 2), EvalExpr::Param(n)),
        );
        body(project(filtered(scan("u", 3), predicate), vec![column(base + 1)]), &[0], false)
    });
    let outer = EvalExpr::Param(ctx.param_index(&BindParam::Anonymous).unwrap());
    let sub = &ctx.subqueries()[0];
    assert!(sub.correlated, "references t.id => correlated (rebind path)");
    let (pred, _) = filter(project_input(&sub.plan));
    match pred {
        EvalExpr::And(_, right) => {
            let (_, rhs) = compare(right);
            assert!(matches!(rhs, EvalExpr::Param(1)), "inner ? stays param 1, got {rhs:?}");
        }
        other => panic!("expected an AND predicate, got {other:?}"),
    }
    assert!(matches!(outer, EvalExpr::Param(2)), "outer ? is param 2, got {outer:?}");
}

#[test]
fn correlated_subquery_over_a_flat_join_binds_sources_after_the_outer() {
    // SELECT (SELECT u.x FROM u, w WHERE u.k = t.id) FROM t
    let (ctx, _) = only_sub(T_WIDTH, |_, base| {
        let join = u_join_w(equals(column(base), column(0)));
        body(project(join, vec![column(base + 1)]), &[0], false)
    });
    let sub = &ctx.subqueries()[0];
    assert!(sub.correlated, "references t.id => correlated");
    assert_eq!(sub.correlated_cols, vec![0], "depends on outer t.id at reg 0");
    assert_eq!(reg(&project_exprs(&sub.plan)[0]), 4, "u.x at base 3 (schema index 1) => reg 4");
    match project_input(&sub.plan) {
        PlanNode::Join(j) => {
            let (l, r) = compare(j.on.as_ref().expect("correlated equijoin is the ON residual"));
            assert_eq!(reg(l), 3, "u.k own => reg 3 (>= outer_width)");
            assert_eq!(reg(r), 0, "t.id outer => reg 0 (< outer_width)");
            assert_eq!(j.left_width, 4, "u width 4 (k,x,g,rowid)");
            assert_eq!(j.right_width, 3, "w width 3 (m,n,rowid)");
        }
        other => panic!("expected a Join, got {other:?}"),
    }
}

#[test]
fn correlated_subquery_in_where_of_an_aggregate_query_still_works() {
    // SELECT t.b FROM t WHERE t.id IN (SELECT k FROM u WHERE u.g = t.b) GROUP BY t.b
    let (ctx, _) = only_sub(T_WIDTH, |_, base| body(u_where(base, 0, 2, 1), &[1], false));
    let sub = &ctx.subqueries()[0];
    assert!(sub.correlated, "WHERE subquery correlated on t.b (pre-aggregate)");
    let (pred, _) = filter(project_input(&sub.plan));
    let (l, r) = compare(pred);
    assert_eq!(reg(l), 5, "u.g own at base 3 => reg 5");
    assert_eq!(reg(r), 1, "t.b outer => reg 1");
}

#[test]
fn correlated_aggregate_subquery_under_a_nonaggregate_parent_is_correlated() {
    // SELECT (SELECT max(t.id) FROM u) FROM t
    let (ctx, _) = only_sub(T_WIDTH, |_, base| {
        body(project(aggregated(scan("u", 3), "max", column(0)), vec![column(base)]), &[0], false)
    });
    let sub = &ctx.subqueries()[0];
    assert!(sub.correlated, "max(t.id) references outer t.id => correlated");
    let agg = match project_input(&sub.plan) {
        PlanNode::Aggregate(a) => a,
        other => panic!("expected Aggregate under the projection, got {other:?}"),
    };
    assert_eq!(reg(&agg.aggregates[0].args[0]), 0, "max(t.id): t.id outer at reg 0");
}

#[test]
fn non_correlated_subquery_in_aggregate_projection_still_compiles() {
    // SELECT (SELECT max(x) FROM u), count(*) FROM t GROUP BY t.b
    let (ctx, _) = only_sub(2, |_, base| {
        body(project(aggregated(scan("u", 3), "max", column(base + 1)), vec![column(0)]), &[], false)
    });
    let sub = &ctx.subqueries()[0];
    assert!(!sub.correlated, "subquery names only u => not correlated, must compile");
}

fn w_table() -> TableDef {
    let col = |name: &str| ColumnDef {
        name: name.to_string(),
        affinity: Affinity::Integer,
        collation: Collation::Binary,
        generated: None,
    };
    TableDef {
        name: "w".to_string(),
        db: DbIndex::main(),
        columns: vec![col("m"), col("n")],
        without_rowid: false,
        rowid_alias: None,
    }
}

/// `SELECT count(*) OVER () FROM w`
fn count_over_w(w: &TableDef, base: usize) -> BoundBody<'static> {
    let sources =
        vec![Source::BaseTable { exposed_name: "w".to_string(), table: w, db: DbIndex::main(), base }];
    let mut windowing = core_windowing(&sources, base);
    let call = WindowCall {
        name: "count".to_string(),
        distinct: false,
        args: FunctionArgs::Star,
        arg_collations: vec![],
        filter: None,
        order_by: vec![],
        registry: RegistryFacts {
            is_aggregate: true,
            is_known: true,
            resolved: Ok("count".to_string()),
        },
    };
    let over = OverClause::Spec(WindowSpec {
        base: None,
        partition_by: vec![],
        order_by: vec![],
        frame: None,
    });
    let clauses = WindowClauses { partitions: vec![], orders: vec![], frames: vec![] };
    let result =
        bind_window_function(&mut windowing, true, call, &over, &vec![], clauses).unwrap();
    let select = query((scan("w", 2), None), None, vec![result], windowing.functions);
    bound(select, &[], false)
}

#[test]
fn non_correlated_windowed_subquery_in_a_multi_aggregate_group_by_binds_to_own_width() {
    // SELECT t.b, count(*), sum(t.id), max(t.id), (SELECT count(*) OVER () FROM w)
    // FROM t GROUP BY t.b
    let w = w_table();
    let (ctx, _) = only_sub(4, |_, base| count_over_w(&w, base));
    let sub = &ctx.subqueries()[0];
    assert!(!sub.correlated, "names only w => not correlated");
    assert_eq!(sub.outer_width, 0, "non-correlated => outer_width 0 (EMPTY exec outer)");
    assert_eq!(
        reg(&project_exprs(&sub.plan)[0]),
        3,
        "count(*) OVER () binds to w's own FROM width (3), not the post-agg width (4)"
    );
}

#[test]
fn non_correlated_windowed_subquery_under_a_wider_regular_parent_binds_to_own_width() {
    // SELECT (SELECT count(*) OVER () FROM w) FROM u
    let w = w_table();
    let (ctx, _) = only_sub(U_WIDTH, |_, base| count_over_w(&w, base));
    let sub = &ctx.subqueries()[0];
    assert!(!sub.correlated, "names only w => not correlated");
    assert_eq!(
        reg(&project_exprs(&sub.plan)[0]),
        3,
        "window col at w's own width 3, not the parent's 4"
    );
}

#[test]
fn window_results_follow_the_widest_source() {
    let w = w_table();
    assert_eq!(window_input_width(&vec![], 7), 7);
    let at = |base: usize| Source::BaseTable {
        exposed_name: "w".to_string(),
        table: &w,
        db: DbIndex::main(),
        base,
    };
    assert_eq!(window_input_width(&vec![at(3)], 3), 6);
    assert_eq!(window_input_width(&vec![at(6), at(3)], 3), 9);
    let mut plain = w_table();
    plain.without_rowid = true;
    let source = Source::BaseTable {
        exposed_name: "w".to_string(),
        table: &plain,
        db: DbIndex::main(),
        base: 0,
    };
    assert_eq!(window_input_width(&vec![source], 0), 2);
}

#[test]
fn correlated_no_from_subquery_reads_outer_at_reg_zero() {
    // SELECT (SELECT t.id) FROM t
    let (ctx, _) =
        only_sub(T_WIDTH, |_, _| body(project(PlanNode::SingleRow, vec![column(0)]), &[0], false));
    let sub = &ctx.subqueries()[0];
    assert!(sub.correlated, "references t.id => correlated");
    assert_eq!(reg(&project_exprs(&sub.plan)[0]), 0, "t.id outer at reg 0");
}

/// A subquery within a subquery without a `FROM`: `SELECT (SELECT (<inner>)) FROM t`.
fn nested<F: FnMut(usize) -> BoundBody<'static>>(mut inner: F) -> PlanCtx {
    let mut ctx = PlanCtx::new();
    let compiled = compile(&mut ctx, T_WIDTH, |ctx, _base| {
        let compiled = compile(ctx, T_WIDTH, |_, base| inner(base));
        let outer = compiled.0.correlated_cols.clone();
        let id = compile_value_subquery(ctx, Ok(compiled)).unwrap();
        body(project(PlanNode::SingleRow, vec![EvalExpr::ScalarSubquery(id)]), &outer, false)
    });
    compile_value_subquery(&mut ctx, Ok(compiled)).unwrap();
    ctx
}

#[test]
fn nested_correlation_through_a_no_from_intermediate_composes() {
    // SELECT (SELECT (SELECT u.x FROM u WHERE u.k = t.id)) FROM t
    let ctx = nested(|base| body(u_where(base, 1, 0, 0), &[0], false));
    let subs = ctx.subqueries();
    assert_eq!(subs.len(), 2, "inner + middle both registered exactly once");
    assert!(subs.iter().all(|s| s.correlated), "both nesting levels correlated");
    let inner = subs
        .iter()
        .find(|s| matches!(project_input(&s.plan), PlanNode::Filter { .. }))
        .expect("the inner subquery carries the WHERE filter");
    let (pred, _) = filter(project_input(&inner.plan));
    let (l, r) = compare(pred);
    assert_eq!(reg(l), 3, "u.k own at base 3 (no-FROM fallback outer_width, not 0)");
    assert_eq!(reg(r), 0, "t.id grandparent outer at reg 0");
}

#[test]
fn uncorrelated_subplan_has_empty_analysis() {
    // SELECT (SELECT max(x) FROM u) FROM t
    let (ctx, _) = only_sub(T_WIDTH, |_, base| {
        body(project(aggregated(scan("u", 3), "max", column(base + 1)), vec![column(0)]), &[], false)
    });
    let sub = &ctx.subqueries()[0];
    assert!(!sub.correlated);
    assert_eq!(sub.correlated_cols, Vec::<usize>::new(), "no outer registers");
    assert_eq!(sub.outer_width, 0, "uncorrelated => outer_width 0");
    assert!(sub.deterministic, "max(x) is deterministic");
}

#[test]
fn correlated_single_column_records_the_one_outer_register() {
    // SELECT (SELECT u.x FROM u WHERE u.k = t.id) FROM t
    let (ctx, _) = only_sub(T_WIDTH, |_, base| body(u_where(base, 1, 0, 0), &[0], false));
    let sub = &ctx.subqueries()[0];
    assert!(sub.correlated);
    assert_eq!(sub.correlated_cols, vec![0], "depends on outer t.id at reg 0");
    assert_eq!(sub.outer_width, 3, "outer t is width 3 (id,b,rowid)");
    assert!(sub.deterministic);
}

#[test]
fn correlated_multi_column_records_both_outer_registers_sorted_deduped() {
    // SELECT (SELECT u.x FROM u WHERE u.k = t.b AND u.g = t.id) FROM t
    let (ctx, _) = only_sub(T_WIDTH, |_, base| {
        let predicate =
            and(equals(column(base), column(1)), equals(column(base + 2), column(0)));
        body(project(filtered(scan("u", 3), predicate), vec![column(base + 1)]), &[1, 0], false)
    });
    let sub = &ctx.subqueries()[0];
    assert!(sub.correlated);
    assert_eq!(sub.correlated_cols, vec![0, 1], "both outer registers, sorted ascending");
    assert_eq!(sub.outer_width, 3);
    assert!(sub.deterministic);
}

#[test]
fn repeated_outer_reference_is_deduped_to_one_register() {
    // SELECT (SELECT u.g FROM u WHERE u.k = t.id AND u.x = t.id) FROM t
    let (ctx, _) = only_sub(T_WIDTH, |_, base| {
        let predicate =
            and(equals(column(base), column(0)), equals(column(base + 1), column(0)));
        body(project(filtered(scan("u", 3), predicate), vec![column(base + 2)]), &[0, 0], false)
    });
    let sub = &ctx.subqueries()[0];
    assert!(sub.correlated);
    assert_eq!(sub.correlated_cols, vec![0], "t.id referenced twice => one entry");
}

#[test]
fn low_cardinality_correlation_canonical_shape() {
    // SELECT count(*) FROM u a WHERE a.k = (SELECT max(x) FROM u b WHERE b.g = a.g)
    let (ctx, _) = only_sub(U_WIDTH, |_, base| {
        let input = filtered(scan("u", 3), equals(column(base + 2), column(2)));
        body(project(aggregated(input, "max", column(base + 1)), vec![column(0)]), &[2], false)
    });
    let sub = &ctx.subqueries()[0];
    assert!(sub.correlated, "correlates on a.g");
    assert_eq!(sub.correlated_cols, vec![2], "depends only on outer a.g (reg 2 of u)");
    assert_eq!(sub.outer_width, 4, "outer u is width 4 (k,x,g,rowid)");
    assert!(sub.deterministic, "max is deterministic => memoizable");
}

#[test]
fn correlated_subquery_with_random_is_not_deterministic() {
    // SELECT (SELECT random() FROM u WHERE u.k = t.id) FROM t
    let (ctx, _) = only_sub(T_WIDTH, |_, base| {
        let node = project(
            filtered(scan("u", 3), equals(column(base), column(0))),
            vec![function("random", false)],
        );
        body(node, &[0], true)
    });
    let sub = &ctx.subqueries()[0];
    assert!(sub.correlated, "still correlated on t.id");
    assert_eq!(sub.correlated_cols, vec![0]);
    assert!(!sub.deterministic, "random() => not deterministic");
}

#[test]
fn correlated_subquery_with_current_timestamp_is_not_deterministic() {
    // SELECT (SELECT u.x FROM u WHERE u.k = t.id AND u.g < CURRENT_TIMESTAMP) FROM t
    let (ctx, _) = only_sub(T_WIDTH, |_, base| {
        let predicate = and(
            equals(column(base), column(0)),
            binary(CompareOp::Lt, column(base + 2), EvalExpr::Now(NowKind::Timestamp)),
        );
        body(project(filtered(scan("u", 3), predicate), vec![column(base + 1)]), &[0], true)
    });
    let sub = &ctx.subqueries()[0];
    assert!(sub.correlated);
    assert!(!sub.deterministic, "CURRENT_TIMESTAMP => not deterministic");
}

/// `SELECT max(s.c) FROM (<derived>) s WHERE t.b > 0`
fn max_over_derived(derived: PlanNode) -> PlanCtx {
    let mut derived = Some(derived);
    let mut ctx = PlanCtx::new();
    let cte = ctx.register_cte(CtePlan::Materialized {
        name: "s".to_string(),
        column_count: 1,
        body: derived.take().unwrap(),
    });
    let compiled = compile(&mut ctx, T_WIDTH, |_, base| {
        let input = filtered(
            PlanNode::CteScan { id: cte, column_count: 1 },
            binary(CompareOp::Gt, column(1), integer(0)),
        );
        body(project(aggregated(input, "max", column(base)), vec![column(0)]), &[1], false)
    });
    compile_value_subquery(&mut ctx, Ok(compiled)).unwrap();
    ctx
}

#[test]
fn correlated_subquery_with_random_in_a_derived_table_is_not_deterministic() {
    // SELECT (SELECT max(s.r) FROM (SELECT random() AS r FROM u) s WHERE t.b > 0) FROM t
    let ctx = max_over_derived(project(scan("u", 3), vec![function("random", false)]));
    let sub = &ctx.subqueries()[0];
    assert!(sub.correlated, "correlated on t.b");
    assert_eq!(sub.correlated_cols, vec![1], "t.b at reg 1");
    assert!(!sub.deterministic, "random() in the derived table => NOT deterministic");
}

#[test]
fn correlated_subquery_over_a_derived_table_is_conservatively_not_deterministic() {
    // SELECT (SELECT max(s.k) FROM (SELECT k FROM u) s WHERE t.b > 0) FROM t
    let ctx = max_over_derived(project(scan("u", 3), vec![column(0)]));
    let sub = &ctx.subqueries()[0];
    assert!(sub.correlated, "correlated on t.b");
    assert!(
        !sub.deterministic,
        "a derived-table body is un-analyzed => conservatively non-deterministic"
    );
}

#[test]
fn nested_correlation_captures_the_grandparent_register_at_every_level() {
    // SELECT (SELECT (SELECT u.x FROM u WHERE u.k = t.id)) FROM t
    let ctx = nested(|base| body(u_where(base, 1, 0, 0), &[0], false));
    assert_eq!(ctx.subqueries().len(), 2, "inner + middle");
    for (i, s) in ctx.subqueries().iter().enumerate() {
        assert!(s.correlated, "subquery {i} correlated");
        assert_eq!(s.correlated_cols, vec![0], "subquery {i} depends on grandparent t.id (reg 0)");
        assert_eq!(s.outer_width, 3, "both compiled against the width-3 outer/grandparent row");
        assert!(s.deterministic, "subquery {i} deterministic");
    }
}

#[test]
fn nested_nondeterminism_propagates_to_the_enclosing_subplan() {
    // SELECT (SELECT (SELECT random() FROM u WHERE u.k = t.id)) FROM t
    let ctx = nested(|base| {
        let node = project(
            filtered(scan("u", 3), equals(column(base), column(0))),
            vec![function("random", false)],
        );
        body(node, &[0], true)
    });
    assert_eq!(ctx.subqueries().len(), 2, "inner + middle");
    assert!(
        ctx.subqueries().iter().all(|s| !s.deterministic),
        "the random() in the inner subquery makes both levels non-deterministic"
    );
}

#[test]
fn correlated_subquery_in_delete_where_is_correlated() {
    // DELETE FROM t WHERE id IN (SELECT k FROM u WHERE u.g = t.id)
    let (ctx, _) = only_sub(T_WIDTH, |_, base| body(u_where(base, 0, 2, 0), &[0], false));
    let sub = &ctx.subqueries()[0];
    assert!(sub.correlated, "DELETE WHERE subquery correlated on t.id");
    let (pred, _) = filter(project_input(&sub.plan));
    let (l, r) = compare(pred);
    assert_eq!(reg(l), 5, "u.g own at base 3 => reg 5");
    assert_eq!(reg(r), 0, "t.id outer => reg 0");
}

#[test]
fn correlated_join_subquery_in_delete_binds_sources_after_the_deleted_row() {
    // DELETE FROM t WHERE id IN (SELECT k FROM u, w WHERE u.k = w.m AND u.g = t.id)
    let (ctx, _) = only_sub(T_WIDTH, |_, base| {
        let join = u_join_w(equals(column(base + 2), column(0)));
        body(project(join, vec![column(base)]), &[0], false)
    });
    let sub = &ctx.subqueries()[0];
    assert!(sub.correlated, "DELETE WHERE subquery correlated on t.id");
    assert_eq!(sub.correlated_cols, vec![0], "depends on outer t.id at reg 0");
    assert_eq!(reg(&project_exprs(&sub.plan)[0]), 3, "u.k own at base 3 (schema index 0) => reg 3");
    match project_input(&sub.plan) {
        PlanNode::Join(j) => {
            assert_eq!(j.left_width, 4, "u width 4 (k,x,g,rowid)");
            assert_eq!(j.right_width, 3, "w width 3 (m,n,rowid)");
            let (l, r) = compare(j.on.as_ref().expect("correlated residual ON"));
            assert_eq!(reg(l), 5, "u.g own at base 3 => reg 5");
            assert_eq!(reg(r), 0, "t.id outer => reg 0");
        }
        other => panic!("expected a Join, got {other:?}"),
    }
}

#[test]
fn a_rebound_body_does_not_leave_its_trial_behind() {
    let mut ctx = PlanCtx::new();
    let mut bound = 0;
    let compiled = compile(&mut ctx, T_WIDTH, |ctx, base| {
        bound += 1;
        let inner = compile(ctx, U_WIDTH, |_, b| body(u_where(b, 0, 1, 2), &[2], false));
        let id = compile_value_subquery(ctx, Ok(inner)).unwrap();
        assert_eq!(id, 0, "the second binding registers over the first");
        let node = project(scan("u", 3), vec![EvalExpr::ScalarSubquery(id), column(base), column(0)]);
        body(node, &[0], false)
    });
    assert_eq!(bound, 2);
    assert_eq!(ctx.subqueries().len(), 1);
    assert_eq!(compiled.0.outer_width, T_WIDTH);
}

#[test]
fn a_row_of_columns_is_taken_by_its_width() {
    let mut ctx = PlanCtx::new();
    let two = || {
        compile(&mut PlanCtx::new(), T_WIDTH, |_, base| {
            body(project(scan("u", 3), vec![column(base), column(base + 1)]), &[], false)
        })
    };
    assert_eq!(compile_row_subquery(&mut ctx, Ok(two()), 2).unwrap(), 0);
    assert_eq!(compile_columnlist_subquery(&mut ctx, Ok(two())).unwrap(), (1, 2));
    let err = compile_row_subquery(&mut ctx, Ok(two()), 3).unwrap_err();
    assert_eq!(err.message(), "sub-select returns 2 columns - expected 3");
    let err = compile_columnlist_subquery(&mut ctx, Err(Error::sql("no such column: z"))).unwrap_err();
    assert_eq!(err.message(), "no such column: z");
    assert_eq!(ctx.subqueries().len(), 2);
}

#[test]
fn a_body_that_does_not_compile_keeps_the_state() {
    // SELECT (SELECT nope FROM u WHERE u.k = t.id) FROM t
    let failing = || BoundBody {
        select: Select {
            with: None,
            body: SelectBody::Select(SelectCore::Query {
                from: CoreFrom {
                    resolved: Ok(vec![]),
                    bound_where: Ok(()),
                    built: Ok((scan("u", 3), None)),
                },
                result: Err(Error::sql("no such column: nope")),
                tail: QueryTail { distinct: false, order_by: vec![], limit: None },
            }),
        },
        saw_correlated: true,
        correlated_cols: vec![0],
        nondeterministic: false,
    };
    let catalog = no_tables();
    let mut ctx = PlanCtx::new();
    let trial = SubplanTrial::begin(&ctx, T_WIDTH);
    let n = ctx.param_index(&BindParam::Anonymous).unwrap();
    let err = trial.after_trial(&mut ctx, &catalog, failing()).unwrap_err();
    assert_eq!(err.message(), "no such column: nope");
    assert_eq!(n, 1);
    assert_eq!(ctx.param_index(&BindParam::Anonymous).unwrap(), 2, "nothing is rolled back");
    let err = trial.after_rebind(&ctx, &catalog, failing()).unwrap_err();
    assert_eq!(err.message(), "no such column: nope");
}
