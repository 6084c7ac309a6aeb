//! Queries end to end: projection, ordering, limits, parameters, `VALUES`, and the route from a
//! statement to its plan.

use minisqlite_plan::access::{IndexOp, IndexScan, ScanDirection, SeqScan};
use minisqlite_plan::catalog::{Catalog, ColumnDef, TableDef};
use minisqlite_plan::compile::binding::QueryClause;
use minisqlite_plan::compile::emit_json::finalize_tvf_emit_json;
use minisqlite_plan::compile::limit::LimitClause;
use minisqlite_plan::compile::notes::PlanNotes;
use minisqlite_plan::compile::ordering::{NullsOrder, SortOrder};
use minisqlite_plan::compile::returning::{bind_returning, ReturningColumn};
use minisqlite_plan::compile::select::{
    CoreFrom, Grouping, OrderResolved, OrderingTerm, QueryTail, ResultList, Select, SelectBody,
    SelectCore, ValuesTarget, ValuesTerm,
};
use minisqlite_plan::compile::subquery::{
    compile_row_subquery, compile_subquery, compile_value_subquery,
};
use minisqlite_plan::compile::update::{
    RowUpkeep, TargetName, TargetedUpdate, UpdateClauses, UpdateRows, UpdateStatement,
};
use minisqlite_plan::compile::assignments::SetClause;
use minisqlite_plan::compile::instead_of::ViewScan;
use minisqlite_plan::compile::select::CompiledCore;
use minisqlite_plan::error::Error;
use minisqlite_plan::expr::{
    AggregateCall, ArithOp, CompareMeta, CompareOp, EvalExpr, NowKind, ScalarFunction, SortKey,
};
use minisqlite_plan::plan::{
    CtePlan, Delete, Insert, Join, JoinStrategy, JoinType, JsonTableKind, OnConflict, Plan,
    PlanNode, SubPlan, TableGenerated, TriggerProgram, TriggerTiming,
};
use minisqlite_plan::plan_ctx::BindParam;
use minisqlite_plan::query_planner::{
    stmt_kind, DeleteStatement, EngineStatement, InsertStatement, Statement,
};
use minisqlite_plan::scope::{Source, SynthCol};
use minisqlite_plan::types::{Affinity, Collation, DbIndex, Value};
use minisqlite_plan::{PlanCtx, Planner, QueryPlanner};

fn col(name: &str, affinity: Affinity, collation: Collation) -> ColumnDef {
    ColumnDef { name: name.to_string(), affinity, collation, generated: None }
}

/// `t(a INTEGER, b TEXT, c TEXT COLLATE NOCASE)`
fn cat_t() -> Catalog {
    Catalog {
        tables: vec![TableDef {
            name: "t".to_string(),
            db: DbIndex::main(),
            columns: vec![
                col("a", Affinity::Integer, Collation::Binary),
                col("b", Affinity::Text, Collation::Binary),
                col("c", Affinity::Text, Collation::NoCase),
            ],
            without_rowid: false,
            rowid_alias: None,
        }],
        indexes: vec![],
    }
}

fn empty() -> Catalog {
    Catalog { tables: vec![], indexes: vec![] }
}

fn scan_t() -> PlanNode {
    PlanNode::SeqScan(SeqScan { table: "t".to_string(), db: DbIndex::main(), column_count: 3 })
}

fn integer(i: i64) -> EvalExpr {
    EvalExpr::Literal(Value::Integer(i))
}

fn text(s: &str) -> EvalExpr {
    EvalExpr::Literal(Value::Text(s.to_string()))
}

fn column(i: usize) -> EvalExpr {
    EvalExpr::Column(i)
}

fn compare(op: CompareOp, left: EvalExpr, right: EvalExpr) -> EvalExpr {
    EvalExpr::Compare {
        op,
        left: Box::new(left),
        right: Box::new(right),
        meta: CompareMeta { apply_left: None, apply_right: None, collation: Collation::Binary },
        null_safe: false,
    }
}

fn random() -> EvalExpr {
    EvalExpr::Func {
        func: ScalarFunction { name: "random".to_string(), deterministic: false },
        args: vec![],
    }
}

/// An output column: its expression, its name and the collation of its source.
fn out(expr: EvalExpr, name: &str, collation: Option<Collation>) -> (EvalExpr, String, Option<Collation>) {
    (expr, name.to_string(), collation)
}

fn result_list(outs: Vec<(EvalExpr, String, Option<Collation>)>) -> ResultList {
    let mut list = ResultList {
        grouping: None,
        projections: vec![],
        names: vec![],
        collations: vec![],
        defined: vec![],
        windows: vec![],
    };
    for (expr, name, collation) in outs {
        list.projections.push(expr);
        list.names.push(name);
        list.collations.push(collation);
        list.defined.push(None);
    }
    list
}

fn no_tail() -> QueryTail {
    QueryTail { distinct: false, order_by: vec![], limit: None }
}

fn query_core<'a>(
    sources: Vec<Source<'a>>,
    source: PlanNode,
    residual: Option<EvalExpr>,
    list: ResultList,
    tail: QueryTail,
) -> SelectCore<'a> {
    SelectCore::Query {
        from: CoreFrom {
            resolved: Ok(sources),
            bound_where: Ok(()),
            built: Ok((source, residual)),
        },
        result: Ok(list),
        tail,
    }
}

fn select(body: SelectCore<'_>) -> Statement<'_> {
    Statement::Select(Select { with: None, body: SelectBody::Select(body) })
}

fn plan_in(ctx: PlanCtx, cat: &Catalog, statement: Statement<'_>) -> Result<Plan, Error> {
    QueryPlanner::new().plan(ctx, cat, statement, Ok(PlanNotes::none()))
}

fn plan_query(
    cat: &Catalog,
    source: PlanNode,
    outs: Vec<(EvalExpr, String, Option<Collation>)>,
    tail: QueryTail,
) -> Result<Plan, Error> {
    plan_in(PlanCtx::new(), cat, select(query_core(vec![], source, None, result_list(outs), tail)))
}

fn expect_project(n: &PlanNode) -> (&PlanNode, &[EvalExpr]) {
    match n {
        PlanNode::Project { input, exprs } => (input, exprs.as_slice()),
        other => panic!("expected Project, got {other:?}"),
    }
}

fn expect_seqscan(n: &PlanNode) -> &SeqScan {
    match n {
        PlanNode::SeqScan(s) => s,
        other => panic!("expected SeqScan, got {other:?}"),
    }
}

fn find_sort_keys(node: &PlanNode) -> &[SortKey] {
    match node {
        PlanNode::Sort { keys, .. } => keys.as_slice(),
        PlanNode::Project { input, .. }
        | PlanNode::Filter { input, .. }
        | PlanNode::Distinct { input, .. }
        | PlanNode::Limit { input, .. } => find_sort_keys(input),
        other => panic!("no Sort node found, reached {other:?}"),
    }
}

fn term(resolved: OrderResolved) -> OrderingTerm {
    OrderingTerm {
        resolved: Ok(resolved),
        order: None,
        nulls: None,
        collation: None,
        own_collation: Collation::Binary,
    }
}

fn ordered(order_by: Vec<OrderingTerm>) -> QueryTail {
    QueryTail { distinct: false, order_by, limit: None }
}

// Projection, scan and filter.

#[test]
fn select_literals_with_no_from_is_project_over_singlerow() {
    // SELECT 1, 'a'
    let plan = plan_query(
        &empty(),
        PlanNode::SingleRow,
        vec![out(integer(1), "1", None), out(text("a"), "'a'", None)],
        no_tail(),
    )
    .unwrap();
    let (input, exprs) = expect_project(&plan.root);
    assert!(matches!(input, PlanNode::SingleRow));
    assert_eq!(exprs.len(), 2);
    assert_eq!(plan.result_columns.len(), 2);
}

#[test]
fn project_columns_over_seqscan() {
    // SELECT a, b FROM t
    let plan = plan_query(
        &cat_t(),
        scan_t(),
        vec![out(column(0), "a", None), out(column(1), "b", None)],
        no_tail(),
    )
    .unwrap();
    let (input, exprs) = expect_project(&plan.root);
    assert!(matches!(exprs[0], EvalExpr::Column(0)));
    assert!(matches!(exprs[1], EvalExpr::Column(1)));
    assert_eq!(expect_seqscan(input).column_count, 3);
    assert_eq!(plan.result_columns, vec!["a".to_string(), "b".to_string()]);
}

#[test]
fn non_rowid_where_becomes_filter_over_seqscan() {
    // SELECT a FROM t WHERE b = 'x'
    let predicate = compare(CompareOp::Eq, column(1), text("x"));
    let q = query_core(
        vec![],
        scan_t(),
        Some(predicate),
        result_list(vec![out(column(0), "a", None)]),
        no_tail(),
    );
    let plan = plan_in(PlanCtx::new(), &cat_t(), select(q)).unwrap();
    let (input, _exprs) = expect_project(&plan.root);
    match input {
        PlanNode::Filter { input, predicate } => {
            assert!(
                matches!(
                    predicate,
                    EvalExpr::Compare { op: CompareOp::Eq, null_safe: false, .. }
                ),
                "plain `=` is a non-null-safe Eq compare"
            );
            expect_seqscan(input);
        }
        other => panic!("expected Filter over SeqScan, got {other:?}"),
    }
}

// Bind parameters.

fn param_indices(params: &[BindParam]) -> Vec<usize> {
    let mut ctx = PlanCtx::new();
    let mut outs = Vec::new();
    for p in params {
        let n = ctx.param_index(p).unwrap();
        outs.push(out(EvalExpr::Param(n), "p", None));
    }
    let q = query_core(vec![], PlanNode::SingleRow, None, result_list(outs), no_tail());
    let plan = plan_in(ctx, &empty(), select(q)).unwrap();
    let (_input, exprs) = expect_project(&plan.root);
    exprs
        .iter()
        .map(|e| match e {
            EvalExpr::Param(i) => *i,
            other => panic!("expected a Param, got {other:?}"),
        })
        .collect()
}

fn named(s: &str) -> BindParam {
    BindParam::Named(s.to_string())
}

#[test]
fn named_params_reuse_their_number() {
    // SELECT :x, :y, :x
    assert_eq!(param_indices(&[named(":x"), named(":y"), named(":x")]), vec![1, 2, 1]);
}

#[test]
fn mixed_anonymous_and_numbered_params() {
    // SELECT ?, ?5, ?
    assert_eq!(
        param_indices(&[BindParam::Anonymous, BindParam::Numbered(5), BindParam::Anonymous]),
        vec![1, 5, 6]
    );
}

#[test]
fn a_numbered_parameter_below_the_largest_leaves_it() {
    assert_eq!(
        param_indices(&[BindParam::Numbered(7), BindParam::Numbered(2), named("@n")]),
        vec![7, 2, 8]
    );
}

#[test]
fn names_differ_by_their_sigil() {
    assert_eq!(param_indices(&[named(":x"), named("@x"), named("$x")]), vec![1, 2, 3]);
}

#[test]
fn parameter_zero_is_refused() {
    let mut ctx = PlanCtx::new();
    let err = ctx.param_index(&BindParam::Numbered(0)).unwrap_err();
    assert_eq!(err.message(), "bind parameter ?0 is not allowed (parameters are 1-based)");
}

#[test]
fn parameter_numbers_run_out() {
    let mut ctx = PlanCtx::new();
    assert_eq!(ctx.param_index(&BindParam::Numbered(u32::MAX)).unwrap(), u32::MAX as usize);
    let err = ctx.param_index(&BindParam::Anonymous).unwrap_err();
    assert_eq!(err.message(), "too many SQL variables");
    let err = ctx.param_index(&named(":x")).unwrap_err();
    assert_eq!(err.message(), "too many SQL variables");
}

#[test]
fn a_rolled_back_trial_gives_its_numbers_again() {
    let mut ctx = PlanCtx::new();
    assert_eq!(ctx.param_index(&BindParam::Anonymous).unwrap(), 1);
    let start = ctx.savepoint();
    assert_eq!(ctx.param_index(&named(":x")).unwrap(), 2);
    assert_eq!(ctx.param_index(&BindParam::Anonymous).unwrap(), 3);
    ctx.restore(start);
    assert_eq!(ctx.param_index(&named(":x")).unwrap(), 2);
    assert_eq!(ctx.param_index(&BindParam::Anonymous).unwrap(), 3);
    assert_eq!(ctx.param_index(&named(":x")).unwrap(), 2);
}

// VALUES.

fn values(
    rows: Vec<Vec<i64>>,
    order_by: Vec<ValuesTerm>,
    limit: Option<LimitClause>,
) -> Result<Plan, Error> {
    let rows = rows
        .into_iter()
        .map(|row| row.into_iter().map(|i| Ok(integer(i))).collect())
        .collect();
    plan_in(PlanCtx::new(), &empty(), select(SelectCore::Values { rows, order_by, limit }))
}

fn values_term(target: ValuesTarget) -> ValuesTerm {
    ValuesTerm { target, order: None, nulls: None, collation: None }
}

#[test]
fn values_two_rows_makes_a_values_node() {
    // VALUES (1, 2), (3, 4)
    let plan = values(vec![vec![1, 2], vec![3, 4]], vec![], None).unwrap();
    match &plan.root {
        PlanNode::Values { rows } => {
            assert_eq!(rows.len(), 2);
            assert_eq!(rows[0].len(), 2);
        }
        other => panic!("expected Values, got {other:?}"),
    }
    assert_eq!(plan.result_columns, vec!["column1".to_string(), "column2".to_string()]);
    assert!(!plan.mutates);
}

#[test]
fn uneven_values_are_refused() {
    let err = values(vec![vec![1, 2], vec![3]], vec![], None).unwrap_err();
    assert_eq!(err.message(), "all VALUES rows must have the same number of terms (2)");
}

#[test]
fn values_without_rows_are_refused() {
    let err = values(vec![], vec![], None).unwrap_err();
    assert_eq!(err.message(), "VALUES must have at least one row");
}

#[test]
fn values_are_ordered_by_position_and_by_name() {
    let by_position = values_term(ValuesTarget::Ordinal(2));
    let by_name = ValuesTerm {
        order: Some(SortOrder::Desc),
        nulls: Some(NullsOrder::Last),
        collation: Some(Ok(Collation::Rtrim)),
        ..values_term(ValuesTarget::Name("COLUMN1".to_string()))
    };
    let plan = values(vec![vec![1, 2], vec![3, 4]], vec![by_position, by_name], None).unwrap();
    let keys = find_sort_keys(&plan.root);
    assert!(matches!(keys[0].expr, EvalExpr::Column(1)));
    assert_eq!((keys[0].desc, keys[0].nulls_first, keys[0].collation), (false, None, Collation::Binary));
    assert!(matches!(keys[1].expr, EvalExpr::Column(0)));
    assert_eq!(
        (keys[1].desc, keys[1].nulls_first, keys[1].collation),
        (true, Some(false), Collation::Rtrim)
    );
}

#[test]
fn a_values_term_outside_the_row_is_refused() {
    let other = "ORDER BY on VALUES must reference an output column by position or name";
    for (target, want) in [
        (ValuesTarget::Ordinal(3), "ORDER BY term out of range"),
        (ValuesTarget::Ordinal(0), "ORDER BY term out of range"),
        (ValuesTarget::Ordinal(-1), "ORDER BY term out of range"),
        (ValuesTarget::Name("x".to_string()), other),
        (ValuesTarget::Other, other),
    ] {
        let err = values(vec![vec![1, 2]], vec![values_term(target)], None).unwrap_err();
        assert_eq!(err.message(), want);
    }
}

#[test]
fn a_limit_stands_over_values() {
    let limit = Some(LimitClause { limit: Ok(integer(1)), offset: Some(Ok(integer(2))) });
    let plan = values(vec![vec![1], vec![2]], vec![values_term(ValuesTarget::Ordinal(1))], limit).unwrap();
    match &plan.root {
        PlanNode::Limit { input, limit, offset } => {
            assert!(matches!(limit, Some(EvalExpr::Literal(Value::Integer(1)))));
            assert!(matches!(offset, Some(EvalExpr::Literal(Value::Integer(2)))));
            assert!(matches!(**input, PlanNode::Sort { .. }));
        }
        other => panic!("expected Limit, got {other:?}"),
    }
}

// ORDER BY, LIMIT and DISTINCT.

#[test]
fn order_by_output_column_then_limit() {
    // SELECT a FROM t ORDER BY a LIMIT 5
    let tail = QueryTail {
        distinct: false,
        order_by: vec![term(OrderResolved::Output(0))],
        limit: Some(LimitClause { limit: Ok(integer(5)), offset: None }),
    };
    let plan = plan_query(
        &cat_t(),
        scan_t(),
        vec![out(column(0), "a", Some(Collation::Binary))],
        tail,
    )
    .unwrap();
    match &plan.root {
        PlanNode::Limit { input, limit, offset } => {
            assert!(limit.is_some());
            assert!(offset.is_none());
            match input.as_ref() {
                PlanNode::Sort { input, keys, limit } => {
                    assert_eq!(keys.len(), 1);
                    assert!(matches!(keys[0].expr, EvalExpr::Column(0)));
                    assert!(!keys[0].desc);
                    match limit {
                        Some(sl) => {
                            assert!(
                                matches!(sl.limit, EvalExpr::Literal(Value::Integer(5))),
                                "Sort retention limit binds 5, got {:?}",
                                sl.limit
                            );
                            assert!(sl.offset.is_none(), "no OFFSET, got {:?}", sl.offset);
                        }
                        None => panic!("expected the Sort to carry the LIMIT retention bound"),
                    }
                    expect_project(input);
                }
                other => panic!("expected Sort under Limit, got {other:?}"),
            }
        }
        other => panic!("expected Limit at the root, got {other:?}"),
    }
}

#[test]
fn order_by_nondeterministic_limit_leaves_the_sort_unbounded() {
    // SELECT a FROM t ORDER BY a LIMIT random()
    // SELECT a FROM t ORDER BY a LIMIT CURRENT_TIMESTAMP
    // SELECT a FROM t ORDER BY a LIMIT 5 OFFSET random()
    let limits = vec![
        LimitClause { limit: Ok(random()), offset: None },
        LimitClause { limit: Ok(EvalExpr::Now(NowKind::Timestamp)), offset: None },
        LimitClause { limit: Ok(integer(5)), offset: Some(Ok(random())) },
    ];
    for limit in limits {
        let tail = QueryTail {
            distinct: false,
            order_by: vec![term(OrderResolved::Output(0))],
            limit: Some(limit),
        };
        let plan = plan_query(
            &cat_t(),
            scan_t(),
            vec![out(column(0), "a", Some(Collation::Binary))],
            tail,
        )
        .unwrap();
        match &plan.root {
            PlanNode::Limit { input, limit, .. } => {
                assert!(limit.is_some(), "the Limit node itself always carries its bound");
                match input.as_ref() {
                    PlanNode::Sort { limit, .. } => assert!(
                        limit.is_none(),
                        "a non-deterministic LIMIT/OFFSET must leave the sort unbounded, got {limit:?}"
                    ),
                    other => panic!("expected a Sort directly under the Limit, got {other:?}"),
                }
            }
            other => panic!("expected Limit at the root, got {other:?}"),
        }
    }
}

#[test]
fn a_deterministic_bound_of_any_shape_reaches_the_sort() {
    let sum = EvalExpr::Arith {
        op: ArithOp::Add,
        left: Box::new(EvalExpr::Param(1)),
        right: Box::new(EvalExpr::Coalesce(vec![EvalExpr::Param(2), integer(1)])),
    };
    let tail = QueryTail {
        distinct: false,
        order_by: vec![term(OrderResolved::Output(0))],
        limit: Some(LimitClause { limit: Ok(sum), offset: Some(Ok(EvalExpr::Param(3))) }),
    };
    let plan = plan_query(&cat_t(), scan_t(), vec![out(column(1), "b", None)], tail).unwrap();
    match &plan.root {
        PlanNode::Limit { input, limit, offset } => match input.as_ref() {
            PlanNode::Sort { limit: Some(bound), .. } => {
                assert_eq!(format!("{:?}", Some(&bound.limit)), format!("{:?}", limit.as_ref()));
                assert_eq!(format!("{:?}", bound.offset), format!("{offset:?}"));
            }
            other => panic!("expected a bounded Sort, got {other:?}"),
        },
        other => panic!("expected Limit, got {other:?}"),
    }
}

#[test]
fn a_nondeterministic_operand_deep_in_the_limit_is_found() {
    let deep = EvalExpr::Coalesce(vec![integer(1), EvalExpr::Unary {
        op: minisqlite_plan::expr::UnaryOp::Negate,
        operand: Box::new(random()),
    }]);
    let tail = QueryTail {
        distinct: false,
        order_by: vec![term(OrderResolved::Output(0))],
        limit: Some(LimitClause { limit: Ok(deep), offset: None }),
    };
    let plan = plan_query(&cat_t(), scan_t(), vec![out(column(1), "b", None)], tail).unwrap();
    match &plan.root {
        PlanNode::Limit { input, .. } => {
            assert!(matches!(**input, PlanNode::Sort { limit: None, .. }))
        }
        other => panic!("expected Limit, got {other:?}"),
    }
}

#[test]
fn order_by_ordinal_inherits_the_referenced_columns_collation() {
    // SELECT c FROM t ORDER BY 1
    // SELECT c FROM t ORDER BY c
    for own_collation in [Collation::Binary, Collation::NoCase] {
        let t = OrderingTerm { own_collation, ..term(OrderResolved::Output(0)) };
        let plan = plan_query(
            &cat_t(),
            scan_t(),
            vec![out(column(2), "c", Some(Collation::NoCase))],
            ordered(vec![t]),
        )
        .unwrap();
        match &plan.root {
            PlanNode::Sort { keys, .. } => {
                assert_eq!(keys.len(), 1);
                assert_eq!(
                    keys[0].collation,
                    Collation::NoCase,
                    "ORDER BY 1 must inherit c's NOCASE"
                );
            }
            other => panic!("expected Sort, got {other:?}"),
        }
    }
}

#[test]
fn order_by_output_alias_inherits_the_referenced_columns_collation() {
    // SELECT c AS z FROM t ORDER BY z
    let plan = plan_query(
        &cat_t(),
        scan_t(),
        vec![out(column(2), "z", Some(Collation::NoCase))],
        ordered(vec![term(OrderResolved::Output(0))]),
    )
    .unwrap();
    match &plan.root {
        PlanNode::Sort { keys, .. } => assert_eq!(keys[0].collation, Collation::NoCase),
        other => panic!("expected Sort, got {other:?}"),
    }
}

#[test]
fn order_by_star_column_inherits_its_collation() {
    // SELECT * FROM t ORDER BY 3
    // SELECT * FROM t ORDER BY c
    let plan = plan_query(
        &cat_t(),
        scan_t(),
        vec![
            out(column(0), "a", Some(Collation::Binary)),
            out(column(1), "b", Some(Collation::Binary)),
            out(column(2), "c", Some(Collation::NoCase)),
        ],
        ordered(vec![term(OrderResolved::Output(2))]),
    )
    .unwrap();
    match &plan.root {
        PlanNode::Sort { keys, .. } => {
            assert_eq!(keys[0].collation, Collation::NoCase, "star column c is NOCASE");
        }
        other => panic!("expected Sort, got {other:?}"),
    }
}

#[test]
fn order_by_explicit_collate_overrides_the_referenced_column() {
    // SELECT c FROM t ORDER BY c COLLATE RTRIM
    let t = OrderingTerm { collation: Some(Ok(Collation::Rtrim)), ..term(OrderResolved::Output(0)) };
    let plan = plan_query(
        &cat_t(),
        scan_t(),
        vec![out(column(2), "c", Some(Collation::NoCase))],
        ordered(vec![t]),
    )
    .unwrap();
    assert_eq!(find_sort_keys(&plan.root)[0].collation, Collation::Rtrim);
}

#[test]
fn an_output_without_a_source_is_ordered_bytewise() {
    let t = OrderingTerm { own_collation: Collation::NoCase, ..term(OrderResolved::Output(0)) };
    let plan =
        plan_query(&cat_t(), scan_t(), vec![out(column(2), "c", None)], ordered(vec![t])).unwrap();
    assert_eq!(find_sort_keys(&plan.root)[0].collation, Collation::Binary);
}

#[test]
fn order_by_non_output_expr_appends_hidden_column_then_strips_it() {
    // SELECT a FROM t ORDER BY b DESC
    let t = OrderingTerm { order: Some(SortOrder::Desc), ..term(OrderResolved::Hidden(column(1))) };
    let plan = plan_query(
        &cat_t(),
        scan_t(),
        vec![out(column(0), "a", Some(Collation::Binary))],
        ordered(vec![t]),
    )
    .unwrap();
    let (strip_input, strip_exprs) = expect_project(&plan.root);
    assert_eq!(strip_exprs.len(), 1, "outer strip keeps only the SELECT output");
    assert!(matches!(strip_exprs[0], EvalExpr::Column(0)));
    match strip_input {
        PlanNode::Sort { input, keys, limit } => {
            assert_eq!(keys.len(), 1);
            assert!(keys[0].desc);
            assert!(limit.is_none(), "ORDER BY without LIMIT leaves the sort unbounded");
            assert!(matches!(keys[0].expr, EvalExpr::Column(1)));
            let (_scan, wide) = expect_project(input);
            assert_eq!(wide.len(), 2, "inner project carries the hidden column");
        }
        other => panic!("expected Sort under the strip Project, got {other:?}"),
    }
}

#[test]
fn hidden_columns_follow_the_outputs_in_order() {
    // SELECT a FROM t ORDER BY b, a, c
    let order = vec![
        term(OrderResolved::Hidden(column(1))),
        term(OrderResolved::Output(0)),
        OrderingTerm { own_collation: Collation::NoCase, ..term(OrderResolved::Hidden(column(2))) },
    ];
    let plan = plan_query(
        &cat_t(),
        scan_t(),
        vec![out(column(0), "a", Some(Collation::Binary))],
        ordered(order),
    )
    .unwrap();
    let keys = find_sort_keys(&plan.root);
    let registers: Vec<String> = keys.iter().map(|k| format!("{:?}", k.expr)).collect();
    assert_eq!(registers, vec!["Column(1)", "Column(0)", "Column(2)"]);
    assert_eq!(keys[2].collation, Collation::NoCase);
}

#[test]
fn distinct_wraps_the_projection() {
    // SELECT DISTINCT a FROM t
    let tail = QueryTail { distinct: true, order_by: vec![], limit: None };
    let plan = plan_query(
        &cat_t(),
        scan_t(),
        vec![out(column(2), "c", Some(Collation::NoCase)), out(integer(1), "1", None)],
        tail,
    )
    .unwrap();
    match &plan.root {
        PlanNode::Distinct { input, column_collations } => {
            expect_project(input);
            assert_eq!(*column_collations, vec![Collation::NoCase, Collation::Binary]);
        }
        other => panic!("expected Distinct, got {other:?}"),
    }
}

#[test]
fn distinct_with_order_by_hidden_column_is_an_error() {
    // SELECT DISTINCT a FROM t ORDER BY b
    let tail = QueryTail {
        distinct: true,
        order_by: vec![term(OrderResolved::Hidden(column(1)))],
        limit: None,
    };
    let err = plan_query(&cat_t(), scan_t(), vec![out(column(0), "a", None)], tail).unwrap_err();
    assert!(matches!(err, Error::Sql(_)), "expected a SQL error, got {err:?}");
    assert_eq!(err.message(), "ORDER BY term does not match any column in the result set");
}

#[test]
fn the_first_error_of_a_query_is_the_one_reported() {
    // FROM, WHERE, row source, result list, ORDER BY, LIMIT: each later one fails too.
    for broken in 0..6 {
        let fail = |step: usize| step >= broken;
        let bad = |s: &str| Error::sql(s);
        let statement = select(SelectCore::Query {
            from: CoreFrom {
                resolved: if fail(0) { Err(bad("from")) } else { Ok(vec![]) },
                bound_where: if fail(1) { Err(bad("where")) } else { Ok(()) },
                built: if fail(2) { Err(bad("rows")) } else { Ok((scan_t(), None)) },
            },
            result: if fail(3) {
                Err(bad("result"))
            } else {
                Ok(result_list(vec![out(column(0), "a", None)]))
            },
            tail: QueryTail {
                distinct: false,
                order_by: vec![OrderingTerm {
                    resolved: if fail(4) {
                        Err(bad("order"))
                    } else {
                        Ok(OrderResolved::Output(0))
                    },
                    ..term(OrderResolved::Output(0))
                }],
                limit: Some(LimitClause { limit: Err(bad("limit")), offset: None }),
            },
        });
        let err = plan_in(PlanCtx::new(), &cat_t(), statement).unwrap_err();
        let want = ["from", "where", "rows", "result", "order", "limit"][broken];
        assert_eq!(err.message(), want);
    }
}

// Output names.

#[test]
fn explicit_alias_names_the_column() {
    // SELECT a AS x FROM t
    let returned = vec![ReturningColumn::Expr {
        expr: Ok(column(0)),
        alias: Some("x".to_string()),
        source_text: "a".to_string(),
    }];
    let (exprs, names) = bind_returning(returned).unwrap();
    let outs = exprs.into_iter().zip(names).map(|(e, n)| (e, n, None)).collect();
    let plan = plan_query(&cat_t(), scan_t(), outs, no_tail()).unwrap();
    assert_eq!(plan.result_columns, vec!["x".to_string()]);
}

#[test]
fn aliased_expression_takes_the_alias() {
    // SELECT i + 1 AS s FROM m
    let sum = EvalExpr::Arith {
        op: ArithOp::Add,
        left: Box::new(column(0)),
        right: Box::new(integer(1)),
    };
    let returned = vec![ReturningColumn::Expr {
        expr: Ok(sum),
        alias: Some("s".to_string()),
        source_text: "i+1".to_string(),
    }];
    let (exprs, names) = bind_returning(returned).unwrap();
    let outs = exprs.into_iter().zip(names).map(|(e, n)| (e, n, None)).collect();
    let plan = plan_query(&cat_t(), scan_t(), outs, no_tail()).unwrap();
    assert_eq!(plan.result_columns, vec!["s".to_string()]);
}

// Subqueries as values.

fn sub_over_t(width: usize) -> (SubPlan, Vec<String>) {
    let plan = PlanNode::Project {
        input: Box::new(scan_t()),
        exprs: (0..width).map(EvalExpr::Column).collect(),
    };
    let names = (0..width).map(|i| ["a", "b", "c"][i].to_string()).collect();
    (
        SubPlan {
            plan,
            correlated: false,
            correlated_cols: vec![],
            deterministic: true,
            outer_width: 0,
        },
        names,
    )
}

#[test]
fn multi_column_in_subquery_is_a_loud_error() {
    // SELECT a FROM t WHERE a IN (SELECT a, b FROM t)
    let mut ctx = PlanCtx::new();
    let err = compile_value_subquery(&mut ctx, Ok(sub_over_t(2))).unwrap_err();
    assert!(err.message().contains("sub-select returns 2 columns"), "got {err:?}");
    assert_eq!(err.message(), "sub-select returns 2 columns - expected 1");
    assert_eq!(ctx.subqueries().len(), 0);
}

#[test]
fn multi_column_scalar_subquery_is_a_loud_error() {
    // SELECT (SELECT a, b FROM t) FROM t
    let mut ctx = PlanCtx::new();
    let err = compile_row_subquery(&mut ctx, Ok(sub_over_t(2)), 1).unwrap_err();
    assert!(err.message().contains("sub-select returns 2 columns"), "got {err:?}");
}

#[test]
fn single_column_in_subquery_is_accepted() {
    // SELECT a FROM t WHERE a IN (SELECT a FROM t)
    let mut ctx = PlanCtx::new();
    let id = compile_value_subquery(&mut ctx, Ok(sub_over_t(1))).unwrap();
    let predicate = EvalExpr::InSubquery {
        subject: Box::new(column(0)),
        subquery: id,
        meta: CompareMeta { apply_left: None, apply_right: None, collation: Collation::Binary },
        negated: false,
    };
    let q = query_core(
        vec![],
        scan_t(),
        Some(predicate),
        result_list(vec![out(column(0), "a", None)]),
        no_tail(),
    );
    let plan = plan_in(ctx, &cat_t(), select(q));
    assert!(plan.is_ok());
    assert_eq!(plan.unwrap().subqueries.len(), 1);
}

#[test]
fn exists_ignores_subquery_arity() {
    // SELECT a FROM t WHERE EXISTS (SELECT a, b FROM t)
    // SELECT a FROM t WHERE EXISTS (SELECT * FROM t)
    for width in [2, 3] {
        let mut ctx = PlanCtx::new();
        let subquery = compile_subquery(&mut ctx, Ok(sub_over_t(width))).unwrap();
        let q = query_core(
            vec![],
            scan_t(),
            Some(EvalExpr::Exists { subquery, negated: false }),
            result_list(vec![out(column(0), "a", None)]),
            no_tail(),
        );
        assert!(plan_in(ctx, &cat_t(), select(q)).is_ok());
    }
}

// Routing.

#[test]
fn insert_compiles_to_an_insert_node() {
    // INSERT INTO t VALUES (1, 'x', 'y')
    let node = PlanNode::Insert(Insert {
        table: "t".to_string(),
        db: DbIndex::main(),
        column_count: 3,
        columns: None,
        source: Box::new(PlanNode::Values { rows: vec![vec![integer(1), text("x"), text("y")]] }),
        source_width: 3,
        column_affinities: vec![Affinity::Integer, Affinity::Text, Affinity::Text],
        on_conflict: OnConflict::Abort,
        returning: vec![],
        triggers: vec![],
        checks: vec![],
        rowid_source: None,
        upsert: None,
        index_key_exprs: vec![],
        index_partial_predicates: vec![],
    });
    let statement = Statement::Insert(InsertStatement::Table(Ok((node, vec![]))));
    let plan = plan_in(PlanCtx::new(), &cat_t(), statement).expect("INSERT compiles");
    assert!(matches!(plan.root, PlanNode::Insert(_)), "expected an Insert root, got {:?}", plan.root);
    assert!(plan.mutates, "INSERT is a mutating statement");
}

#[test]
fn update_compiles_to_an_update_node() {
    // UPDATE t SET a = 1
    let stmt = UpdateStatement {
        or_conflict: None,
        alias: None,
        clauses: UpdateClauses {
            with: Ok(()),
            set: vec![SetClause::Column { name: "a".to_string(), value: Ok(integer(1)) }],
            rows: UpdateRows::Target { access: Ok((scan_t(), None)) },
            where_clause: None,
            returning: vec![],
        },
        triggers: vec![],
        upkeep: RowUpkeep {
            checks: Ok(vec![]),
            index_key_exprs: Ok(vec![]),
            index_partial_predicates: Ok(vec![]),
        },
        view_scan: ViewScan {
            entered: Ok(()),
            text: Ok(vec![]),
            body: Select { with: None, body: SelectBody::Compound(Err(Error::sql("no view"))) },
        },
    };
    let statement = Statement::Update(TargetedUpdate {
        name: TargetName { name: "t".to_string(), qualified: "t".to_string() },
        db: Ok(Some(DbIndex::main())),
        view: None,
        stmt,
    });
    let plan = plan_in(PlanCtx::new(), &cat_t(), statement).expect("UPDATE compiles");
    assert!(matches!(plan.root, PlanNode::Update(_)), "expected an Update root, got {:?}", plan.root);
    assert!(plan.mutates, "UPDATE is a mutating statement");
}

#[test]
fn delete_compiles_to_a_delete_node() {
    // DELETE FROM t
    let node = PlanNode::Delete(Delete {
        table: "t".to_string(),
        db: DbIndex::main(),
        column_count: 3,
        scan: Box::new(scan_t()),
        returning: vec![],
        triggers: vec![],
        index_key_exprs: vec![],
        index_partial_predicates: vec![],
    });
    let statement = Statement::Delete(DeleteStatement::Table(Ok((node, vec![]))));
    let plan = plan_in(PlanCtx::new(), &cat_t(), statement).expect("DELETE compiles");
    assert!(matches!(plan.root, PlanNode::Delete(_)), "expected a Delete root, got {:?}", plan.root);
    assert!(plan.mutates, "DELETE is a mutating statement");
}

#[test]
fn a_compound_select_passes_its_plan_on() {
    let compiled = CompiledCore {
        node: PlanNode::Values { rows: vec![] },
        names: vec!["x".to_string()],
        defined: vec![None],
    };
    let statement = Statement::Select(Select { with: None, body: SelectBody::Compound(Ok(compiled)) });
    let plan = plan_in(PlanCtx::new(), &empty(), statement).unwrap();
    assert!(matches!(plan.root, PlanNode::Values { .. }));
    assert_eq!(plan.result_columns, vec!["x".to_string()]);
    assert!(!plan.mutates);
}

#[test]
fn the_engine_executes_the_other_statements_itself() {
    let kinds = [
        (EngineStatement::CreateTable, "CREATE TABLE"),
        (EngineStatement::CreateIndex, "CREATE INDEX"),
        (EngineStatement::CreateView, "CREATE VIEW"),
        (EngineStatement::CreateTrigger, "CREATE TRIGGER"),
        (EngineStatement::Drop, "DROP"),
        (EngineStatement::AlterTable, "ALTER TABLE"),
        (EngineStatement::Begin, "BEGIN"),
        (EngineStatement::Commit, "COMMIT"),
        (EngineStatement::Rollback, "ROLLBACK"),
        (EngineStatement::Savepoint, "SAVEPOINT"),
        (EngineStatement::Release, "RELEASE"),
        (EngineStatement::Pragma, "PRAGMA"),
        (EngineStatement::Vacuum, "VACUUM"),
        (EngineStatement::Analyze, "ANALYZE"),
        (EngineStatement::Reindex, "REINDEX"),
        (EngineStatement::Attach, "ATTACH"),
        (EngineStatement::Detach, "DETACH"),
        (EngineStatement::Explain, "EXPLAIN"),
        (EngineStatement::ExplainQueryPlan, "EXPLAIN QUERY PLAN"),
    ];
    for (kind, name) in kinds {
        let statement = Statement::Engine(kind);
        assert_eq!(stmt_kind(&statement), name);
        let err = plan_in(PlanCtx::new(), &empty(), statement).unwrap_err();
        assert_eq!(
            err.message(),
            format!("{name} is executed by the engine, not the query planner")
        );
    }
}

#[test]
fn the_side_tables_of_the_context_reach_the_plan() {
    let mut ctx = PlanCtx::new();
    assert_eq!(ctx.register_subquery(sub_over_t(1).0), 0);
    assert_eq!(ctx.register_subquery(sub_over_t(2).0), 1);
    let q = query_core(
        vec![],
        scan_t(),
        None,
        result_list(vec![out(EvalExpr::ScalarSubquery(0), "s", None)]),
        no_tail(),
    );
    let plan = plan_in(ctx, &cat_t(), select(q)).unwrap();
    assert_eq!(plan.subqueries.len(), 2);
    assert_eq!(expect_project(&plan.subqueries[1].plan).1.len(), 2);
    assert!(plan.ctes.is_empty());
}

// JSON table functions.

fn json_each() -> PlanNode {
    PlanNode::TableFunctionScan {
        kind: JsonTableKind::Each,
        arg: text("[1,2,3]"),
        path: None,
        column_count: 10,
        emit_json: true,
    }
}

fn json_source<'a>(json_referenced: bool) -> Source<'a> {
    let names = [
        "key", "value", "type", "atom", "id", "parent", "fullkey", "path", "json", "root",
    ];
    Source::Derived {
        exposed_name: "json_each".to_string(),
        columns: names
            .iter()
            .map(|n| SynthCol {
                name: n.to_string(),
                affinity: Affinity::Blob,
                collation: Collation::Binary,
                hidden: *n == "json" || *n == "root",
            })
            .collect(),
        base: 0,
        json_referenced,
    }
}

fn tvf_emit_json(node: &PlanNode) -> Option<bool> {
    match node {
        PlanNode::TableFunctionScan { emit_json, .. } => Some(*emit_json),
        PlanNode::Filter { input, .. }
        | PlanNode::Project { input, .. }
        | PlanNode::Sort { input, .. }
        | PlanNode::Limit { input, .. }
        | PlanNode::Distinct { input, .. } => tvf_emit_json(input),
        PlanNode::Aggregate(a) => tvf_emit_json(&a.input),
        PlanNode::Window(w) => tvf_emit_json(&w.input),
        PlanNode::Join(j) => tvf_emit_json(&j.left).or_else(|| tvf_emit_json(&j.right)),
        PlanNode::SetOp(s) => tvf_emit_json(&s.left).or_else(|| tvf_emit_json(&s.right)),
        _ => None,
    }
}

fn emit_json_of(
    json_referenced: bool,
    outs: Vec<(EvalExpr, String, Option<Collation>)>,
    residual: Option<EvalExpr>,
) -> bool {
    let q = query_core(vec![json_source(json_referenced)], json_each(), residual, result_list(outs), no_tail());
    let plan = plan_in(PlanCtx::new(), &empty(), select(q)).expect("the json_each query compiles");
    tvf_emit_json(&plan.root).expect("the plan has a TableFunctionScan leaf")
}

#[test]
fn json_each_visible_column_query_does_not_materialize_the_document() {
    // SELECT value FROM json_each('[1,2,3]')
    assert!(!emit_json_of(false, vec![out(column(1), "value", None)], None));
}

#[test]
fn json_each_star_query_does_not_materialize_the_document() {
    // SELECT * FROM json_each('[1,2,3]')
    let outs = (0..8).map(|i| out(column(i), "c", None)).collect();
    assert!(!emit_json_of(false, outs, None));
}

#[test]
fn json_each_count_star_does_not_materialize_the_document() {
    // SELECT count(*) FROM json_each('[1,2,3]')
    let mut list = result_list(vec![out(column(0), "count(*)", None)]);
    list.grouping = Some(Grouping {
        group_by: vec![],
        group_collations: vec![],
        aggregates: vec![AggregateCall {
            func: "count".to_string(),
            args: vec![],
            arg_collations: vec![],
            distinct: false,
            filter: None,
            order_by: vec![],
        }],
        having: None,
        minmax_bare: None,
        bare_arbitrary: None,
        is_max: None,
    });
    let q = query_core(vec![json_source(false)], json_each(), None, list, no_tail());
    let plan = plan_in(PlanCtx::new(), &empty(), select(q)).unwrap();
    assert!(!tvf_emit_json(&plan.root).expect("the plan has a TableFunctionScan leaf"));
}

#[test]
fn json_each_selecting_json_materializes_the_document() {
    // SELECT json FROM json_each('[1,2,3]')
    assert!(emit_json_of(true, vec![out(column(8), "json", None)], None));
}

#[test]
fn json_each_referencing_json_in_where_materializes_the_document() {
    // SELECT value FROM json_each('[1,2,3]') WHERE json IS NOT NULL
    let predicate = EvalExpr::NotNull(Box::new(column(8)));
    assert!(emit_json_of(true, vec![out(column(1), "value", None)], Some(predicate)));
}

#[test]
fn json_each_qualified_json_reference_materializes_the_document() {
    // SELECT je.json FROM json_each('[1,2,3]') AS je
    assert!(emit_json_of(true, vec![out(column(8), "json", None)], None));
}

#[test]
fn every_json_scan_of_a_join_is_set() {
    let mut node = PlanNode::Join(Join {
        left: Box::new(json_each()),
        left_width: 10,
        right: Box::new(PlanNode::Filter {
            input: Box::new(json_each()),
            predicate: EvalExpr::NotNull(Box::new(column(11))),
        }),
        right_width: 10,
        join_type: JoinType::Inner,
        on: None,
        strategy: JoinStrategy::NestedLoop,
    });
    let sources = vec![json_source(false), json_source(false)];
    finalize_tvf_emit_json(&mut node, &sources);
    match &node {
        PlanNode::Join(j) => {
            assert_eq!(tvf_emit_json(&j.left), Some(false));
            assert_eq!(tvf_emit_json(&j.right), Some(false));
        }
        other => panic!("expected the join, got {other:?}"),
    }
    let sources = vec![json_source(false), json_source(true)];
    finalize_tvf_emit_json(&mut node, &sources);
    match &node {
        PlanNode::Join(j) => {
            assert_eq!(tvf_emit_json(&j.left), Some(true));
            assert_eq!(tvf_emit_json(&j.right), Some(true));
        }
        other => panic!("expected the join, got {other:?}"),
    }
}

/// How many values a row of the operator holds.
fn width(node: &PlanNode) -> usize {
    match node {
        PlanNode::Filter { input, .. }
        | PlanNode::Sort { input, .. }
        | PlanNode::Limit { input, .. }
        | PlanNode::Distinct { input, .. } => width(input),
        PlanNode::Project { exprs, .. } => exprs.len(),
        PlanNode::Values { rows } => rows[0].len(),
        other => panic!("the width of {other:?} is not known"),
    }
}

#[test]
fn the_rows_of_a_plan_have_a_value_per_result_column() {
    let outs = || vec![out(column(0), "a", None), out(column(1), "b", None)];
    let hidden = || vec![term(OrderResolved::Hidden(column(2))), term(OrderResolved::Output(1))];
    let limit = || Some(LimitClause { limit: Ok(integer(3)), offset: None });
    let tails = vec![
        no_tail(),
        ordered(hidden()),
        QueryTail { distinct: false, order_by: hidden(), limit: limit() },
        QueryTail { distinct: true, order_by: vec![term(OrderResolved::Output(0))], limit: limit() },
    ];
    for tail in tails {
        let plan = plan_query(&cat_t(), scan_t(), outs(), tail).unwrap();
        assert_eq!(plan.result_columns.len(), 2);
        assert_eq!(width(&plan.root), 2, "{:?}", plan.root);
    }
    let values = SelectCore::Values {
        rows: vec![
            vec![Ok(integer(1)), Ok(integer(2)), Ok(integer(3))],
            vec![Ok(integer(4)), Ok(integer(5)), Ok(integer(6))],
        ],
        order_by: vec![],
        limit: limit(),
    };
    let plan = plan_in(PlanCtx::new(), &empty(), select(values)).unwrap();
    assert_eq!((plan.result_columns.len(), width(&plan.root)), (3, 3));
}

#[test]
fn two_names_have_two_numbers() {
    let mut ctx = PlanCtx::new();
    let mut number = |name: &str| ctx.param_index(&BindParam::Named(name.to_string())).unwrap();
    assert_eq!((number(":a"), number(":b"), number("@a")), (1, 2, 3));
    assert_eq!((number("@a"), number(":b"), number(":a")), (3, 2, 1));
}

#[test]
fn the_limit_is_bound_after_the_order_by() {
    let mut order = vec![];
    let mut clause = Some(QueryClause::first());
    while let Some(c) = clause {
        order.push(c);
        clause = c.next();
    }
    assert_eq!(
        order,
        vec![
            QueryClause::Filter,
            QueryClause::Joins,
            QueryClause::Outputs,
            QueryClause::OrderBy,
            QueryClause::Limit,
        ]
    );
}

fn index_scan(index: &str) -> PlanNode {
    PlanNode::IndexScan(IndexScan {
        table: "t".to_string(),
        db: DbIndex::main(),
        column_count: 3,
        index: index.to_string(),
        op: IndexOp::FullScan,
        direction: ScanDirection::Forward,
        covering: false,
    })
}

fn covered(node: &PlanNode) -> Vec<bool> {
    match node {
        PlanNode::IndexScan(s) => vec![s.covering],
        PlanNode::Project { input, .. } | PlanNode::Filter { input, .. } => covered(input),
        PlanNode::Join(j) => {
            let mut all = covered(&j.left);
            all.extend(covered(&j.right));
            all
        }
        PlanNode::Insert(i) => covered(&i.source),
        _ => vec![],
    }
}

fn generated_of(table: &str) -> TableGenerated {
    TableGenerated { db: DbIndex::main(), table: table.to_string(), programs: vec![] }
}

#[test]
fn covered_index_scans_are_marked_in_the_order_of_the_plan() {
    let join = PlanNode::Join(Join {
        left: Box::new(index_scan("i1")),
        left_width: 4,
        right: Box::new(index_scan("i2")),
        right_width: 4,
        join_type: JoinType::Inner,
        on: None,
        strategy: JoinStrategy::NestedLoop,
    });
    let mut ctx = PlanCtx::new();
    ctx.register_cte(CtePlan::Materialized {
        name: "c".to_string(),
        column_count: 4,
        body: index_scan("i3"),
    });
    let mut sub = sub_over_t(1).0;
    sub.plan = index_scan("i4");
    ctx.register_subquery(sub);
    let list = result_list(vec![out(column(0), "a", None)]);
    let statement = select(query_core(vec![], join, None, list, no_tail()));
    let notes = PlanNotes {
        generated: vec![generated_of("t")],
        covering: vec![false, true, false, true],
        actions: vec![],
    };
    let plan = QueryPlanner::new().plan(ctx, &cat_t(), statement, Ok(notes)).unwrap();
    assert_eq!(covered(&plan.root), vec![false, true]);
    match &plan.ctes[0] {
        CtePlan::Materialized { body, .. } => assert_eq!(covered(body), vec![false]),
        other => panic!("expected the body, got {other:?}"),
    }
    assert_eq!(covered(&plan.subqueries[0].plan), vec![true]);
    assert_eq!(plan.generated.len(), 1);
}

#[test]
fn the_actions_of_triggers_get_notes_of_their_own() {
    let action = |index: &str| Plan {
        root: index_scan(index),
        result_columns: vec![],
        ctes: vec![],
        subqueries: vec![],
        mutates: false,
        generated: vec![],
    };
    let node = PlanNode::Insert(Insert {
        table: "t".to_string(),
        db: DbIndex::main(),
        column_count: 3,
        columns: None,
        source: Box::new(index_scan("i0")),
        source_width: 3,
        column_affinities: vec![],
        on_conflict: OnConflict::Abort,
        returning: vec![],
        triggers: vec![TriggerProgram {
            name: "trg".to_string(),
            timing: TriggerTiming::After,
            when: None,
            actions: vec![action("i1"), action("i2")],
        }],
        checks: vec![],
        rowid_source: None,
        upsert: None,
        index_key_exprs: vec![],
        index_partial_predicates: vec![],
    });
    let of_action = PlanNotes {
        generated: vec![generated_of("u"), generated_of("v")],
        covering: vec![true],
        actions: vec![],
    };
    let notes = PlanNotes {
        generated: vec![generated_of("t")],
        covering: vec![],
        actions: vec![vec![of_action]],
    };
    let statement = Statement::Insert(InsertStatement::Table(Ok((node, vec![]))));
    let plan = QueryPlanner::new().plan(PlanCtx::new(), &cat_t(), statement, Ok(notes)).unwrap();
    assert_eq!(plan.generated.len(), 1);
    assert_eq!(covered(&plan.root), vec![false]);
    let actions = match &plan.root {
        PlanNode::Insert(i) => &i.triggers[0].actions,
        other => panic!("expected Insert, got {other:?}"),
    };
    assert_eq!(actions.len(), 2);
    assert_eq!((actions[0].generated.len(), covered(&actions[0].root)), (2, vec![true]));
    assert_eq!((actions[1].generated.len(), covered(&actions[1].root)), (0, vec![false]));
}

#[test]
fn a_generated_column_that_does_not_bind_fails_the_plan() {
    let statement = || {
        let list = result_list(vec![out(column(0), "a", None)]);
        select(query_core(vec![], scan_t(), None, list, no_tail()))
    };
    let notes = Err(Error::sql("no such column: g"));
    let err =
        QueryPlanner::new().plan(PlanCtx::new(), &cat_t(), statement(), notes).unwrap_err();
    assert_eq!(err.message(), "no such column: g");
}
