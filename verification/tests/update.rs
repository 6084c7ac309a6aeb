//! `UPDATE`: assignments, the scan of the target, `FROM`, `RETURNING`, conflicts and checks.

use minisqlite_plan::access::{RowidOp, RowidScan, ScanDirection, SeqScan};
use minisqlite_plan::catalog::{Catalog, ColumnDef, GeneratedKind, TableDef};
use minisqlite_plan::compile::assignments::{SetClause, SetValue};
use minisqlite_plan::compile::binding::UpdateClause;
use minisqlite_plan::compile::instead_of::ViewScan;
use minisqlite_plan::compile::notes::PlanNotes;
use minisqlite_plan::compile::returning::ReturningColumn;
use minisqlite_plan::compile::select::{Select, SelectBody};
use minisqlite_plan::compile::stored::{CreateTrigger, ParsedStatement, TriggerEvent};
use minisqlite_plan::compile::trigger::TriggerDef;
use minisqlite_plan::compile::update::{
    build_scan, combined_from, compile_update_with_parent, returning_sources, target_source,
    ConflictClause, FromOperand, JoinKind, JoinOperator, JoinTree, RowUpkeep, TargetName,
    TargetedUpdate, UpdateClauses, UpdateRows, UpdateStatement,
};
use minisqlite_plan::error::Error;
use minisqlite_plan::expr::{ArithOp, CompareMeta, CompareOp, EvalExpr};
use minisqlite_plan::plan::{
    CheckConstraint, CtePlan, Join, JoinStrategy, JoinType, JsonTableKind, Plan, PlanNode, SubPlan,
    TriggerTiming, Update,
};
use minisqlite_plan::plan_ctx::BindParam;
use minisqlite_plan::query_planner::Statement;
use minisqlite_plan::scope::Source;
use minisqlite_plan::types::{Affinity, Collation, DbIndex, Value};
use minisqlite_plan::{PlanCtx, Planner, QueryPlanner};

fn col(name: &str, affinity: Affinity) -> ColumnDef {
    ColumnDef { name: name.to_string(), affinity, collation: Collation::Binary, generated: None }
}

fn tdef(name: &str, columns: Vec<ColumnDef>, rowid_alias: Option<usize>) -> TableDef {
    TableDef {
        name: name.to_string(),
        db: DbIndex::main(),
        columns,
        without_rowid: false,
        rowid_alias,
    }
}

/// `t(a INTEGER, b TEXT, c TEXT)`
fn cat_t() -> Catalog {
    Catalog {
        tables: vec![tdef(
            "t",
            vec![
                col("a", Affinity::Integer),
                col("b", Affinity::Text),
                col("c", Affinity::Text),
            ],
            None,
        )],
        indexes: vec![],
    }
}

/// `k(id INTEGER PRIMARY KEY, v TEXT)`, and `r(rowid INTEGER, v TEXT)` with a column of that
/// name.
fn cat_k() -> Catalog {
    Catalog {
        tables: vec![
            tdef("k", vec![col("id", Affinity::Integer), col("v", Affinity::Text)], Some(0)),
            tdef("r", vec![col("rowid", Affinity::Integer), col("v", Affinity::Text)], None),
        ],
        indexes: vec![],
    }
}

fn integer(i: i64) -> EvalExpr {
    EvalExpr::Literal(Value::Integer(i))
}

fn column(i: usize) -> EvalExpr {
    EvalExpr::Column(i)
}

fn compare(op: CompareOp, left: EvalExpr, right: EvalExpr) -> EvalExpr {
    EvalExpr::Compare {
        op,
        left: Box::new(left),
        right: Box::new(right),
        meta: CompareMeta { apply_left: None, apply_right: None, collation: Collation::Binary },
        null_safe: false,
    }
}

fn scan(table: &str, column_count: usize) -> PlanNode {
    PlanNode::SeqScan(SeqScan { table: table.to_string(), db: DbIndex::main(), column_count })
}

fn set(name: &str, value: EvalExpr) -> SetClause {
    SetClause::Column { name: name.to_string(), value: Ok(value) }
}

fn set_list(names: &[&str], value: SetValue) -> SetClause {
    SetClause::Columns { names: names.iter().map(|n| n.to_string()).collect(), value }
}

/// `UPDATE <table> SET <clauses>`, with nothing else.
fn statement<'a>(clauses: Vec<SetClause>, access: PlanNode) -> UpdateStatement<'a> {
    UpdateStatement {
        or_conflict: None,
        alias: None,
        clauses: UpdateClauses {
            with: Ok(()),
            set: clauses,
            rows: UpdateRows::Target { access: Ok((access, None)) },
            where_clause: None,
            returning: vec![],
        },
        triggers: vec![],
        upkeep: RowUpkeep {
            checks: Ok(vec![]),
            index_key_exprs: Ok(vec![]),
            index_partial_predicates: Ok(vec![]),
        },
        view_scan: ViewScan {
            entered: Ok(()),
            text: Ok(vec![]),
            body: Select {
                with: None,
                body: SelectBody::Compound(Err(Error::sql("not a view"))),
            },
        },
    }
}

fn on<'a>(table: &str, stmt: UpdateStatement<'a>) -> TargetedUpdate<'a> {
    TargetedUpdate {
        name: TargetName { name: table.to_string(), qualified: table.to_string() },
        db: Ok(Some(DbIndex::main())),
        view: None,
        stmt,
    }
}

fn plan_in(ctx: PlanCtx, cat: &Catalog, table: &str, stmt: UpdateStatement<'_>) -> Result<Plan, Error> {
    QueryPlanner::new().plan(ctx, cat, Statement::Update(on(table, stmt)), Ok(PlanNotes::none()))
}

fn plan_t(stmt: UpdateStatement<'_>) -> Result<Plan, Error> {
    plan_in(PlanCtx::new(), &cat_t(), "t", stmt)
}

fn update_t<'a>(clauses: Vec<SetClause>) -> UpdateStatement<'a> {
    statement(clauses, scan("t", 3))
}

fn expect_update(plan: &Plan) -> &Update {
    match &plan.root {
        PlanNode::Update(u) => u,
        other => panic!("expected Update at the root, got {other:?}"),
    }
}

fn returned(expr: EvalExpr, alias: Option<&str>, source_text: &str) -> ReturningColumn {
    ReturningColumn::Expr {
        expr: Ok(expr),
        alias: alias.map(str::to_string),
        source_text: source_text.to_string(),
    }
}

fn star_of_t() -> Vec<(usize, String)> {
    vec![(0, "a".to_string()), (1, "b".to_string()), (2, "c".to_string())]
}

#[test]
fn an_update_scans_by_the_access_path_of_its_target() {
    // UPDATE t SET a = 1 WHERE rowid = 5
    let seek = PlanNode::RowidScan(RowidScan {
        table: "t".to_string(),
        db: DbIndex::main(),
        column_count: 3,
        op: RowidOp::Eq(integer(5)),
        direction: ScanDirection::Forward,
    });
    let mut stmt = statement(vec![set("a", integer(1))], seek);
    stmt.clauses.where_clause = Some(Ok(compare(CompareOp::Eq, column(3), integer(5))));
    let plan = plan_t(stmt).unwrap();
    assert!(plan.mutates, "UPDATE mutates");
    let u = expect_update(&plan);
    assert_eq!(u.table, "t");
    assert_eq!(u.column_count, 3);
    assert_eq!(u.column_affinities.len(), 3, "one affinity per table column");
    assert_eq!(u.assignments.len(), 1);
    assert_eq!(u.assignments[0].0, 0, "column `a` is schema index 0");
    assert!(matches!(u.assignments[0].1, EvalExpr::Literal(Value::Integer(1))));
    match u.scan.as_ref() {
        PlanNode::RowidScan(s) => {
            assert!(matches!(s.op, RowidOp::Eq(_)), "rowid = 5 is an Eq seek");
            assert_eq!(s.column_count, 3);
        }
        other => panic!("expected a RowidScan seek, got {other:?}"),
    }
    assert!(u.returning.is_empty());
    assert!(plan.result_columns.is_empty(), "no RETURNING => no result columns");
}

#[test]
fn no_where_update_scans_the_whole_table() {
    // UPDATE t SET b = 'x'
    let plan =
        plan_t(update_t(vec![set("b", EvalExpr::Literal(Value::Text("x".to_string())))])).unwrap();
    let u = expect_update(&plan);
    assert_eq!(u.assignments.len(), 1);
    assert_eq!(u.assignments[0].0, 1, "column `b` is schema index 1");
    assert!(matches!(u.scan.as_ref(), PlanNode::SeqScan(_)), "no WHERE => full SeqScan");
}

#[test]
fn unknown_set_column_is_a_loud_error() {
    // UPDATE t SET nope = 1
    let err = plan_t(update_t(vec![set("nope", integer(1))])).unwrap_err();
    assert!(err.message().contains("no such column"), "got {err:?}");
    assert_eq!(err.message(), "no such column: nope");
}

#[test]
fn update_unknown_table_is_a_loud_error() {
    // UPDATE missing SET a = 1
    let stmt = || update_t(vec![set("a", integer(1))]);
    let err = plan_in(PlanCtx::new(), &cat_t(), "missing", stmt()).unwrap_err();
    assert!(err.message().contains("no such table"), "got {err:?}");
    // UPDATE nowhere.t SET a = 1
    let targeted = TargetedUpdate {
        name: TargetName { name: "t".to_string(), qualified: "nowhere.t".to_string() },
        db: Ok(None),
        view: None,
        stmt: stmt(),
    };
    let err = QueryPlanner::new()
        .plan(PlanCtx::new(), &cat_t(), Statement::Update(targeted), Ok(PlanNotes::none()))
        .unwrap_err();
    assert_eq!(err.message(), "no such table: nowhere.t");
}

#[test]
fn a_table_of_another_namespace_is_not_the_target() {
    let temp = DbIndex { index: 1 };
    let targeted = TargetedUpdate {
        name: TargetName { name: "t".to_string(), qualified: "temp.t".to_string() },
        db: Ok(Some(temp)),
        view: None,
        stmt: update_t(vec![set("a", integer(1))]),
    };
    let err = QueryPlanner::new()
        .plan(PlanCtx::new(), &cat_t(), Statement::Update(targeted), Ok(PlanNotes::none()))
        .unwrap_err();
    assert_eq!(err.message(), "no such table: temp.t");
}

#[test]
fn set_rowid_maps_to_the_integer_primary_key_alias() {
    // UPDATE k SET rowid = 10
    let stmt = statement(vec![set("rowid", integer(10))], scan("k", 2));
    let plan = plan_in(PlanCtx::new(), &cat_k(), "k", stmt).unwrap();
    let u = expect_update(&plan);
    assert_eq!(u.assignments.len(), 1);
    assert_eq!(u.assignments[0].0, 0, "rowid -> alias column index 0");
    assert!(matches!(u.assignments[0].1, EvalExpr::Literal(Value::Integer(10))));
}

#[test]
fn set_rowid_keyword_variants_all_map_to_the_alias() {
    for kw in ["rowid", "_rowid_", "oid", "RoWiD", "OID"] {
        let stmt = statement(vec![set(kw, integer(7))], scan("k", 2));
        let plan = plan_in(PlanCtx::new(), &cat_k(), "k", stmt).unwrap();
        assert_eq!(expect_update(&plan).assignments[0].0, 0, "{kw} -> alias index 0");
    }
}

#[test]
fn set_real_column_named_rowid_shadows_the_keyword() {
    // UPDATE r SET rowid = 5
    let stmt = statement(vec![set("rowid", integer(5))], scan("r", 2));
    let plan = plan_in(PlanCtx::new(), &cat_k(), "r", stmt).unwrap();
    let u = expect_update(&plan);
    assert_eq!(u.assignments[0].0, 0, "the real `rowid` column is index 0");
    assert!(matches!(u.assignments[0].1, EvalExpr::Literal(Value::Integer(5))));
}

#[test]
fn set_rowid_on_a_plain_rowid_table_is_a_loud_gap() {
    // UPDATE t SET rowid = 5
    let err = plan_t(update_t(vec![set("rowid", integer(5))])).unwrap_err();
    assert!(err.message().contains("not yet supported"), "got {err:?}");
}

#[test]
fn a_generated_column_cannot_be_assigned() {
    let mut cat = cat_t();
    cat.tables[0].columns[1].generated = Some(GeneratedKind::Stored);
    for clause in [
        set("B", integer(1)),
        set_list(&["a", "b"], SetValue::Row(vec![Ok(integer(1)), Ok(integer(2))])),
    ] {
        let err = plan_in(PlanCtx::new(), &cat, "t", update_t(vec![clause])).unwrap_err();
        assert_eq!(err.message(), "cannot UPDATE generated column \"b\"");
    }
}

#[test]
fn returning_binds_against_the_scanned_row() {
    // UPDATE t SET a = 1 RETURNING a
    let mut stmt = update_t(vec![set("a", integer(1))]);
    stmt.clauses.returning = vec![returned(column(0), None, "a")];
    let plan = plan_t(stmt).unwrap();
    let u = expect_update(&plan);
    assert_eq!(u.returning.len(), 1);
    assert!(matches!(u.returning[0], EvalExpr::Column(0)), "`a` reads register 0");
    assert_eq!(plan.result_columns, vec!["a".to_string()]);
}

#[test]
fn returning_rowid_reads_the_trailing_register() {
    // UPDATE t SET a = 1 RETURNING rowid
    let mut stmt = update_t(vec![set("a", integer(1))]);
    stmt.clauses.returning = vec![returned(column(3), None, "rowid")];
    let plan = plan_t(stmt).unwrap();
    let u = expect_update(&plan);
    assert_eq!(u.returning.len(), 1);
    assert!(matches!(u.returning[0], EvalExpr::Column(3)), "rowid is the trailing register N=3");
    assert_eq!(plan.result_columns, vec!["rowid".to_string()]);
}

#[test]
fn column_list_row_value_assigns_each_target() {
    // UPDATE t SET (a, b) = (1, 2)
    let row = SetValue::Row(vec![Ok(integer(1)), Ok(integer(2))]);
    let plan = plan_t(update_t(vec![set_list(&["a", "b"], row)])).unwrap();
    let u = expect_update(&plan);
    assert_eq!(u.assignments.len(), 2);
    assert_eq!(u.assignments[0].0, 0);
    assert_eq!(u.assignments[1].0, 1);
    assert!(matches!(u.assignments[0].1, EvalExpr::Literal(Value::Integer(1))));
    assert!(matches!(u.assignments[1].1, EvalExpr::Literal(Value::Integer(2))));
}

#[test]
fn column_list_arity_mismatch_is_a_size_error() {
    // UPDATE t SET (a, b) = (1, 2, 3)
    let row = SetValue::Row(vec![Ok(integer(1)), Ok(integer(2)), Ok(integer(3))]);
    let err = plan_t(update_t(vec![set_list(&["a", "b"], row)])).unwrap_err();
    assert!(err.message().contains("2 columns assigned 3 values"), "got {err:?}");
}

#[test]
fn single_name_column_list_is_a_plain_assignment() {
    // UPDATE t SET (a) = (1)
    let plan = plan_t(update_t(vec![set_list(&["a"], SetValue::Scalar(Ok(integer(1))))])).unwrap();
    let u = expect_update(&plan);
    assert_eq!(u.assignments.len(), 1);
    assert_eq!(u.assignments[0].0, 0, "single-name list `(a)` targets column a");
    assert!(matches!(u.assignments[0].1, EvalExpr::Literal(Value::Integer(1))));
}

/// `(SELECT 1, 2, ..)` of the given width.
fn literals(width: usize) -> (SubPlan, Vec<String>) {
    (
        SubPlan {
            plan: PlanNode::Project {
                input: Box::new(PlanNode::SingleRow),
                exprs: (1..=width).map(|i| integer(i as i64)).collect(),
            },
            correlated: false,
            correlated_cols: vec![],
            deterministic: true,
            outer_width: 0,
        },
        (1..=width).map(|i| i.to_string()).collect(),
    )
}

#[test]
fn column_list_from_subquery_source_binds_scalar_subquery_columns() {
    // UPDATE t SET (a, b) = (SELECT 1, 2)
    let source = SetValue::Subquery(Ok(literals(2)));
    let plan = plan_t(update_t(vec![set_list(&["a", "b"], source)])).unwrap();
    assert_eq!(plan.subqueries.len(), 1, "one subplan registered for the source");
    let u = expect_update(&plan);
    assert_eq!(u.assignments.len(), 2, "one assignment per name");
    assert_eq!(u.assignments[0].0, 0, "first name -> column a (index 0)");
    assert_eq!(u.assignments[1].0, 1, "second name -> column b (index 1)");
    let id0 = match u.assignments[0].1 {
        EvalExpr::ScalarSubqueryColumn { subquery, column } => {
            assert_eq!(column, 0, "column a reads subquery column 0");
            subquery
        }
        ref other => panic!("expected ScalarSubqueryColumn, got {other:?}"),
    };
    match u.assignments[1].1 {
        EvalExpr::ScalarSubqueryColumn { subquery, column } => {
            assert_eq!(column, 1, "column b reads subquery column 1");
            assert_eq!(subquery, id0, "both assignments share ONE subplan id");
        }
        ref other => panic!("expected ScalarSubqueryColumn, got {other:?}"),
    }
}

#[test]
fn a_one_name_list_takes_a_subquery_as_a_value() {
    // UPDATE t SET (a) = (SELECT 1)
    let source = SetValue::Subquery(Ok(literals(1)));
    let plan = plan_t(update_t(vec![set_list(&["a"], source)])).unwrap();
    assert!(matches!(expect_update(&plan).assignments[0].1, EvalExpr::ScalarSubquery(0)));
    // UPDATE t SET (a) = (SELECT 1, 2)
    let source = SetValue::Subquery(Ok(literals(2)));
    let err = plan_t(update_t(vec![set_list(&["a"], source)])).unwrap_err();
    assert_eq!(err.message(), "sub-select returns 2 columns - expected 1");
}

#[test]
fn column_list_subquery_source_width_mismatch_is_a_size_error() {
    // UPDATE t SET (a, b) = (SELECT 1, 2, 3)
    let source = SetValue::Subquery(Ok(literals(3)));
    let wider = plan_t(update_t(vec![set_list(&["a", "b"], source)])).unwrap_err();
    assert!(wider.message().contains("2 columns assigned 3 values"), "got {wider:?}");
    // UPDATE t SET (a, b) = (SELECT 1)
    let source = SetValue::Subquery(Ok(literals(1)));
    let narrower = plan_t(update_t(vec![set_list(&["a", "b"], source)])).unwrap_err();
    assert!(narrower.message().contains("2 columns assigned 1 values"), "got {narrower:?}");
}

#[test]
fn column_list_scalar_source_to_multi_name_list_is_a_size_error() {
    // UPDATE t SET (a, b) = 1
    let err = plan_t(update_t(vec![set_list(&["a", "b"], SetValue::Scalar(Ok(integer(1))))]))
        .unwrap_err();
    assert!(err.message().contains("2 columns assigned 1 values"), "got {err:?}");
}

#[test]
fn duplicate_set_target_keeps_both_assignments_in_order() {
    // UPDATE t SET a = 1, a = 2
    let plan = plan_t(update_t(vec![set("a", integer(1)), set("a", integer(2))])).unwrap();
    let u = expect_update(&plan);
    assert_eq!(u.assignments.len(), 2, "both assignments to `a` are kept");
    assert_eq!(u.assignments[0].0, 0);
    assert_eq!(u.assignments[1].0, 0);
    assert!(matches!(u.assignments[0].1, EvalExpr::Literal(Value::Integer(1))));
    assert!(matches!(u.assignments[1].1, EvalExpr::Literal(Value::Integer(2))), "rightmost wins");
}

#[test]
fn set_then_where_number_params_in_textual_order() {
    // UPDATE t SET a = ? WHERE b = ?
    let mut ctx = PlanCtx::new();
    let mut stmt = update_t(vec![]);
    let mut clause = Some(UpdateClause::first());
    while let Some(c) = clause {
        let param = |ctx: &mut PlanCtx| {
            EvalExpr::Param(ctx.param_index(&BindParam::Anonymous).unwrap())
        };
        match c {
            UpdateClause::Filter => {
                let predicate = compare(CompareOp::Eq, column(1), param(&mut ctx));
                stmt.clauses.where_clause = Some(Ok(predicate.clone()));
                stmt.clauses.rows =
                    UpdateRows::Target { access: Ok((scan("t", 3), Some(predicate))) };
            }
            UpdateClause::Assignments => stmt.clauses.set.push(set("a", param(&mut ctx))),
            UpdateClause::Returning => {}
        }
        clause = c.next();
    }
    let plan = plan_in(ctx, &cat_t(), "t", stmt).unwrap();
    let u = expect_update(&plan);
    assert!(matches!(u.assignments[0].1, EvalExpr::Param(1)), "the SET `?` is param 1");
    match u.scan.as_ref() {
        PlanNode::Filter { predicate, .. } => match predicate {
            EvalExpr::Compare { op: CompareOp::Eq, left, right, .. } => {
                assert!(matches!(left.as_ref(), EvalExpr::Column(1)), "left is column `b`");
                assert!(matches!(right.as_ref(), EvalExpr::Param(2)), "the WHERE `?` is param 2");
            }
            other => panic!("expected an Eq compare, got {other:?}"),
        },
        other => panic!("expected a Filter over the scan, got {other:?}"),
    }
}

/// `UPDATE t SET a = o.a FROM t AS o WHERE o.b = t.b`
fn update_from(cat: &Catalog) -> UpdateStatement<'_> {
    let target = |name: &str, base: usize| Source::BaseTable {
        exposed_name: name.to_string(),
        table: &cat.tables[0],
        db: DbIndex::main(),
        base,
    };
    let join = PlanNode::Join(Join {
        left: Box::new(scan("t", 3)),
        left_width: 4,
        right: Box::new(scan("t", 3)),
        right_width: 4,
        join_type: JoinType::Inner,
        on: Some(compare(CompareOp::Eq, column(5), column(1))),
        strategy: JoinStrategy::NestedLoop,
    });
    let mut stmt = update_t(vec![set("a", column(4))]);
    stmt.clauses.where_clause = Some(Ok(compare(CompareOp::Eq, column(5), column(1))));
    stmt.clauses.rows = UpdateRows::From {
        resolved: Ok(vec![target("t", 0), target("o", 4)]),
        built: Ok((join, None)),
    };
    stmt
}

#[test]
fn update_from_builds_a_join_scan() {
    let cat = cat_t();
    let plan = plan_in(PlanCtx::new(), &cat, "t", update_from(&cat)).unwrap();
    let u = expect_update(&plan);
    assert_eq!(u.table, "t");
    assert_eq!(u.column_count, 3, "column_count is the TARGET's column count, not the join width");
    assert_eq!(u.assignments.len(), 1);
    assert_eq!(u.assignments[0].0, 0, "SET targets column a (index 0)");
    assert!(
        matches!(u.assignments[0].1, EvalExpr::Column(4)),
        "o.a is register 4 (FROM source at base 4), got {:?}",
        u.assignments[0].1
    );
    assert!(
        matches!(u.scan.as_ref(), PlanNode::Join(_)),
        "the scan is the target×FROM join, got {:?}",
        u.scan
    );
}

/// The sources of `UPDATE t .. FROM t AS o`.
fn sources_of(cat: &Catalog) -> Vec<Source<'_>> {
    match update_from(cat).clauses.rows {
        UpdateRows::From { resolved, .. } => resolved.unwrap(),
        other => panic!("expected a FROM, got {other:?}"),
    }
}

/// The columns of the tables among `sources`, each with the name of its table.
fn columns_in(sources: &[Source<'_>]) -> Vec<(String, usize, String)> {
    let mut out = vec![];
    for s in sources {
        match s {
            Source::BaseTable { exposed_name, table, base, .. } => {
                for (i, c) in table.columns.iter().enumerate() {
                    out.push((exposed_name.clone(), base + i, c.name.clone()));
                }
            }
            other => panic!("expected a table, got {other:?}"),
        }
    }
    out
}

/// Resolve `<table>.<column>` among `sources`.
fn resolve(sources: &[Source<'_>], table: &str, name: &str) -> Result<EvalExpr, Error> {
    columns_in(sources)
        .into_iter()
        .find(|(t, _, c)| t == table && c == name)
        .map(|(_, register, _)| column(register))
        .ok_or_else(|| Error::sql(&format!("no such table: {table}")))
}

#[test]
fn update_from_returning_sees_only_the_target() {
    let cat = cat_t();
    let sources = sources_of(&cat);
    let visible = returning_sources(&sources);
    // .. RETURNING *
    let star = columns_in(visible).into_iter().map(|(_, register, c)| (register, c)).collect();
    let mut stmt = update_from(&cat);
    stmt.clauses.returning = vec![ReturningColumn::Star(Ok(star))];
    let plan = plan_in(PlanCtx::new(), &cat, "t", stmt).unwrap();
    let u = expect_update(&plan);
    assert_eq!(u.returning.len(), 3, "RETURNING * is the 3 TARGET columns, not the join width");
    assert!(matches!(u.returning[0], EvalExpr::Column(0)));
    assert!(matches!(u.returning[1], EvalExpr::Column(1)));
    assert!(matches!(u.returning[2], EvalExpr::Column(2)));
    assert_eq!(plan.result_columns, vec!["a".to_string(), "b".to_string(), "c".to_string()]);

    // .. RETURNING o.a
    assert!(resolve(&sources, "o", "a").is_ok(), "the other clauses see the FROM table");
    let mut stmt = update_from(&cat);
    stmt.clauses.returning = vec![ReturningColumn::Expr {
        expr: resolve(visible, "o", "a"),
        alias: None,
        source_text: "a".to_string(),
    }];
    let err = plan_in(PlanCtx::new(), &cat, "t", stmt).unwrap_err();
    assert!(
        err.message().contains("no such table: o"),
        "expected the FROM table unresolved, got {err:?}"
    );
}

#[test]
fn an_update_without_a_from_sees_its_target() {
    let cat = cat_t();
    let shown = |s: Source<'_>| match s {
        Source::BaseTable { exposed_name, table, db, base } => {
            (exposed_name, table.name.clone(), db, base)
        }
        other => panic!("expected the table, got {other:?}"),
    };
    let main = DbIndex::main();
    let t = || "t".to_string();
    let plain = target_source(&cat.tables[0], main, &None, None);
    assert_eq!(shown(plain), (t(), t(), main, 0));
    let aliased = target_source(&cat.tables[0], main, &Some("x".to_string()), Some(8));
    assert_eq!(shown(aliased), ("x".to_string(), t(), main, 8));
}

#[test]
fn update_from_keeps_what_the_join_leaves_of_the_where() {
    let cat = cat_t();
    let mut stmt = update_from(&cat);
    stmt.clauses.rows = UpdateRows::From {
        resolved: Ok(vec![]),
        built: Ok((scan("t", 3), Some(compare(CompareOp::Gt, column(0), integer(1))))),
    };
    let plan = plan_in(PlanCtx::new(), &cat, "t", stmt).unwrap();
    assert!(matches!(*expect_update(&plan).scan, PlanNode::Filter { .. }));
}

#[test]
fn update_from_fills_the_json_column_only_where_it_is_named() {
    let cat = cat_t();
    for named in [false, true] {
        let mut stmt = update_from(&cat);
        stmt.clauses.rows = UpdateRows::From {
            resolved: Ok(vec![Source::Derived {
                exposed_name: "json_each".to_string(),
                columns: vec![],
                base: 4,
                json_referenced: named,
            }]),
            built: Ok((
                PlanNode::TableFunctionScan {
                    kind: JsonTableKind::Each,
                    arg: integer(1),
                    path: None,
                    column_count: 10,
                    emit_json: true,
                },
                None,
            )),
        };
        let plan = plan_in(PlanCtx::new(), &cat, "t", stmt).unwrap();
        match expect_update(&plan).scan.as_ref() {
            PlanNode::TableFunctionScan { emit_json, .. } => assert_eq!(*emit_json, named),
            other => panic!("expected the table function, got {other:?}"),
        }
    }
}

#[test]
fn the_target_stands_before_the_from() {
    let table = |l: &'static str| JoinTree::<&str, u8>::Table(FromOperand::Leaf(l));
    // UPDATE t .. FROM o
    match combined_from("t", table("o")) {
        JoinTree::Join { left, op, right, constraint } => {
            assert!(matches!(*left, JoinTree::Table(FromOperand::Leaf("t"))));
            assert_eq!(op, JoinOperator { natural: false, kind: JoinKind::Comma });
            assert!(matches!(right, FromOperand::Leaf("o")));
            assert!(constraint.is_none());
        }
        other => panic!("expected a join, got {other:?}"),
    }
    // UPDATE t .. FROM o JOIN p ON ..
    let joined = JoinTree::Join {
        left: Box::new(table("o")),
        op: JoinOperator { natural: false, kind: JoinKind::Inner },
        right: FromOperand::Leaf("p"),
        constraint: Some(7u8),
    };
    match combined_from("t", joined) {
        JoinTree::Join { right: FromOperand::Join(inner), constraint: None, .. } => match *inner {
            JoinTree::Join { right, constraint, .. } => {
                assert!(matches!(right, FromOperand::Leaf("p")));
                assert_eq!(constraint, Some(7));
            }
            other => panic!("expected the join as it was, got {other:?}"),
        },
        other => panic!("expected a join in parentheses, got {other:?}"),
    }
}

#[test]
fn with_on_update_registers_cte_and_compiles() {
    // WITH x AS (SELECT 1 AS n) UPDATE t SET a = (SELECT n FROM x)
    let mut ctx = PlanCtx::new();
    let cte = ctx.register_cte(CtePlan::Materialized {
        name: "x".to_string(),
        column_count: 1,
        body: PlanNode::Project { input: Box::new(PlanNode::SingleRow), exprs: vec![integer(1)] },
    });
    let id = ctx.register_subquery(SubPlan {
        plan: PlanNode::Project {
            input: Box::new(PlanNode::CteScan { id: cte, column_count: 1 }),
            exprs: vec![column(0)],
        },
        correlated: false,
        correlated_cols: vec![],
        deterministic: false,
        outer_width: 0,
    });
    let stmt = update_t(vec![set("a", EvalExpr::ScalarSubquery(id))]);
    let plan = plan_in(ctx, &cat_t(), "t", stmt).unwrap();
    assert_eq!(plan.ctes.len(), 1, "the CTE `x` is registered, got {:?}", plan.ctes);
    assert!(
        matches!(&plan.ctes[0], CtePlan::Materialized { name, .. } if name == "x"),
        "ctes[0] is the materialized CTE `x`, got {:?}",
        plan.ctes[0]
    );
    let u = expect_update(&plan);
    assert_eq!(u.assignments.len(), 1);
    assert_eq!(u.assignments[0].0, 0, "SET targets column a");
    assert!(
        matches!(u.assignments[0].1, EvalExpr::ScalarSubquery(_)),
        "the SET value is the scalar subquery over CTE x, got {:?}",
        u.assignments[0].1
    );
}

#[test]
fn or_conflict_algorithm_flows_into_the_plan() {
    let cases = [
        (None, "Abort"),
        (Some(ConflictClause::Abort), "Abort"),
        (Some(ConflictClause::Rollback), "Rollback"),
        (Some(ConflictClause::Fail), "Fail"),
        (Some(ConflictClause::Ignore), "Ignore"),
        (Some(ConflictClause::Replace), "Replace"),
    ];
    for (clause, expected) in cases {
        let mut stmt = update_t(vec![set("a", integer(1))]);
        stmt.or_conflict = clause;
        let plan = plan_t(stmt).unwrap();
        let got = format!("{:?}", expect_update(&plan).on_conflict);
        assert_eq!(got, expected, "on_conflict for {clause:?}");
    }
}

#[test]
fn column_affinities_are_those_of_the_columns_in_order() {
    // UPDATE t SET a = 1
    let plan = plan_t(update_t(vec![set("a", integer(1))])).unwrap();
    let u = expect_update(&plan);
    assert_eq!(
        u.column_affinities,
        vec![Affinity::Integer, Affinity::Text, Affinity::Text],
        "one affinity per column, in schema order"
    );
}

#[test]
fn returning_alias_and_computed_expr_take_their_names() {
    // UPDATE t SET a = 1 RETURNING a AS x, a + 1
    let sum = EvalExpr::Arith {
        op: ArithOp::Add,
        left: Box::new(column(0)),
        right: Box::new(integer(1)),
    };
    let mut stmt = update_t(vec![set("a", integer(1))]);
    stmt.clauses.returning = vec![returned(column(0), Some("x"), "a"), returned(sum, None, "a+1")];
    let plan = plan_t(stmt).unwrap();
    let u = expect_update(&plan);
    assert_eq!(u.returning.len(), 2);
    assert_eq!(plan.result_columns[0], "x", "explicit alias wins");
    assert_eq!(plan.result_columns.len(), 2);
    assert!(!plan.result_columns[1].is_empty(), "computed column still gets a name");
    assert_eq!(plan.result_columns[1], "a+1");
}

#[test]
fn returning_table_star_through_alias_expands_all_columns() {
    // UPDATE t AS x SET a = 1 RETURNING x.*
    let mut stmt = update_t(vec![set("a", integer(1))]);
    stmt.alias = Some("x".to_string());
    stmt.clauses.returning = vec![ReturningColumn::TableStar(Ok(star_of_t()))];
    let plan = plan_t(stmt).unwrap();
    let u = expect_update(&plan);
    assert_eq!(u.returning.len(), 3);
    assert!(matches!(u.returning[0], EvalExpr::Column(0)));
    assert!(matches!(u.returning[1], EvalExpr::Column(1)));
    assert!(matches!(u.returning[2], EvalExpr::Column(2)));
    assert_eq!(plan.result_columns, vec!["a".to_string(), "b".to_string(), "c".to_string()]);
}

#[test]
fn update_compiles_check_constraint_onto_the_node() {
    // UPDATE tc SET x = 5, where `tc` has CHECK (x > 0)
    let cat = Catalog {
        tables: vec![tdef("tc", vec![col("x", Affinity::Integer)], None)],
        indexes: vec![],
    };
    let mut stmt = statement(vec![set("x", integer(5))], scan("tc", 1));
    stmt.upkeep.checks = Ok(vec![CheckConstraint {
        expr: compare(CompareOp::Gt, column(0), integer(0)),
        detail: "tc".to_string(),
    }]);
    let plan = plan_in(PlanCtx::new(), &cat, "tc", stmt).unwrap();
    let u = expect_update(&plan);
    assert_eq!(u.checks.len(), 1, "the one CHECK is compiled onto the node");
    assert_eq!(u.checks[0].detail, "tc", "detail is the table name");
    match &u.checks[0].expr {
        EvalExpr::Compare { left, .. } => {
            assert!(matches!(left.as_ref(), EvalExpr::Column(0)), "x -> reg 0, got {left:?}");
        }
        other => panic!("expected a Compare node for `x > 0`, got {other:?}"),
    }
}

#[test]
fn update_without_checks_carries_no_checks() {
    // UPDATE t SET a = 1
    let plan = plan_t(update_t(vec![set("a", integer(1))])).unwrap();
    assert!(expect_update(&plan).checks.is_empty());
}

#[test]
fn update_check_referencing_unknown_column_is_a_bind_error() {
    // UPDATE tc SET x = 5, where `tc` has CHECK (y > 0)
    let mut stmt = update_t(vec![set("a", integer(5))]);
    stmt.upkeep.checks = Err(Error::sql("no such column: y"));
    let err = plan_t(stmt).unwrap_err();
    assert!(err.message().contains("no such column: y"), "got {err:?}");
}

/// A trigger on `t` for updates of `column`.
fn trigger_of(column: &str) -> TriggerDef<'static> {
    TriggerDef {
        name: format!("on_{column}"),
        db: DbIndex::main(),
        table: "t".to_string(),
        text: Ok(vec![ParsedStatement::CreateTrigger(CreateTrigger {
            name: format!("on_{column}"),
            timing: Some(TriggerTiming::After),
            event: TriggerEvent::Update { columns: vec![column.to_string()] },
            when: None,
            body: vec![],
        })]),
    }
}

#[test]
fn an_update_fires_the_triggers_of_the_columns_it_assigns() {
    let mut stmt = update_t(vec![set("b", integer(1))]);
    stmt.triggers = vec![trigger_of("a"), trigger_of("b"), trigger_of("c")];
    let plan = plan_t(stmt).unwrap();
    let names: Vec<&str> =
        expect_update(&plan).triggers.iter().map(|t| t.name.as_str()).collect();
    assert_eq!(names, vec!["on_b"]);
}

#[test]
fn an_update_that_is_a_trigger_action_scans_the_table_and_fires_nothing() {
    let mut stmt = update_t(vec![set("b", integer(1))]);
    stmt.triggers = vec![trigger_of("b")];
    stmt.clauses.where_clause = Some(Ok(compare(CompareOp::Eq, column(8), column(0))));
    stmt.clauses.rows = UpdateRows::Target { access: Err(Error::sql("not asked for")) };
    let mut ctx = PlanCtx::new();
    let (node, names) =
        compile_update_with_parent(&mut ctx, &cat_t(), on("t", stmt), Some(8)).unwrap();
    assert!(names.is_empty());
    match node {
        PlanNode::Update(u) => {
            assert!(u.triggers.is_empty());
            match *u.scan {
                PlanNode::Filter { input, .. } => assert!(matches!(*input, PlanNode::SeqScan(_))),
                other => panic!("expected the whole predicate over the scan, got {other:?}"),
            }
        }
        other => panic!("expected Update, got {other:?}"),
    }
}

#[test]
fn a_trigger_action_has_no_from() {
    let cat = cat_t();
    let update = on("t", update_from(&cat));
    let err = compile_update_with_parent(&mut PlanCtx::new(), &cat, update, Some(8)).unwrap_err();
    assert_eq!(err.message(), "UPDATE ... FROM inside a trigger action is not yet supported");
}

#[test]
fn an_access_path_is_taken_only_without_an_outer_row() {
    let cat = cat_t();
    let td = &cat.tables[0];
    let seek = || {
        PlanNode::RowidScan(RowidScan {
            table: "t".to_string(),
            db: DbIndex::main(),
            column_count: 3,
            op: RowidOp::Eq(integer(5)),
            direction: ScanDirection::Forward,
        })
    };
    let node = build_scan(td, DbIndex::main(), 0, Some(column(0)), Ok((seek(), None))).unwrap();
    assert!(matches!(node, PlanNode::RowidScan(_)));
    let node = build_scan(td, DbIndex::main(), 8, None, Ok((seek(), None))).unwrap();
    assert!(matches!(node, PlanNode::SeqScan(_)));
}

#[test]
fn the_first_error_of_an_update_is_the_one_reported() {
    // WITH, FROM, SET, WHERE, row source, RETURNING, triggers, checks, keys, predicates: each
    // later one fails too.
    let cat = cat_t();
    let wants = [
        "with", "from", "no such column: z", "where", "rows", "returning", "trigger", "checks",
        "keys", "predicates",
    ];
    for (broken, want) in wants.iter().enumerate() {
        let fail = |step: usize| step >= broken;
        let mut stmt = update_from(&cat);
        if fail(0) {
            stmt.clauses.with = Err(Error::sql("with"));
        }
        let resolved = if fail(1) { Err(Error::sql("from")) } else { Ok(vec![]) };
        let built = if fail(4) { Err(Error::sql("rows")) } else { Ok((scan("t", 3), None)) };
        stmt.clauses.rows = UpdateRows::From { resolved, built };
        if fail(2) {
            stmt.clauses.set.push(set("z", integer(1)));
        }
        if fail(3) {
            stmt.clauses.where_clause = Some(Err(Error::sql("where")));
        }
        if fail(5) {
            stmt.clauses.returning = vec![ReturningColumn::Star(Err(Error::sql("returning")))];
        }
        if fail(6) {
            let mut t = trigger_of("a");
            t.text = Err(Error::sql("trigger"));
            stmt.triggers = vec![t];
        }
        if fail(7) {
            stmt.upkeep.checks = Err(Error::sql("checks"));
        }
        if fail(8) {
            stmt.upkeep.index_key_exprs = Err(Error::sql("keys"));
        }
        stmt.upkeep.index_partial_predicates = Err(Error::sql("predicates"));
        let err = plan_in(PlanCtx::new(), &cat, "t", stmt).unwrap_err();
        assert_eq!(err.message(), *want);
    }
}

#[test]
fn a_set_list_registers_its_subqueries_after_those_of_the_statement() {
    // UPDATE t SET a = (SELECT 1), (b, c) = (SELECT 1, 2)
    let mut ctx = PlanCtx::new();
    let first = ctx.register_subquery(literals(1).0);
    let stmt = update_t(vec![
        set("a", EvalExpr::ScalarSubquery(first)),
        set_list(&["b", "c"], SetValue::Subquery(Ok(literals(2)))),
    ]);
    let plan = plan_in(ctx, &cat_t(), "t", stmt).unwrap();
    let widths: Vec<usize> = plan
        .subqueries
        .iter()
        .map(|s| match &s.plan {
            PlanNode::Project { exprs, .. } => exprs.len(),
            other => panic!("expected Project, got {other:?}"),
        })
        .collect();
    assert_eq!(widths, vec![1, 2], "the registered one keeps its position");
    let u = expect_update(&plan);
    assert!(matches!(u.assignments[0].1, EvalExpr::ScalarSubquery(0)));
    assert!(matches!(
        u.assignments[2].1,
        EvalExpr::ScalarSubqueryColumn { subquery: 1, column: 1 }
    ));
}

#[test]
fn an_action_that_fails_keeps_what_its_set_list_registered() {
    // UPDATE t SET (a, b) = (SELECT 1, 2) WHERE nope, as the action of a trigger
    let mut stmt =
        update_t(vec![set_list(&["a", "b"], SetValue::Subquery(Ok(literals(2))))]);
    stmt.clauses.where_clause = Some(Err(Error::sql("no such column: nope")));
    let mut ctx = PlanCtx::new();
    let err = compile_update_with_parent(&mut ctx, &cat_t(), on("t", stmt), Some(8)).unwrap_err();
    assert_eq!(err.message(), "no such column: nope");
    assert_eq!(ctx.subqueries().len(), 1);
}
