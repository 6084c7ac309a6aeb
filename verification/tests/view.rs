//! Views in a `FROM`, and statements on views.

use minisqlite_plan::access::SeqScan;
use minisqlite_plan::catalog::{Catalog, ColumnDef, TableDef};
use minisqlite_plan::compile::assignments::{SetClause, SetValue};
use minisqlite_plan::compile::instead_of::{
    check_insert_arity, compile_view_delete, matches_positional, scan_synth_cols, view_star,
    InsertSource, ViewCol, ViewDelete, ViewInsert, ViewScan, ViewTarget,
};
use minisqlite_plan::compile::notes::PlanNotes;
use minisqlite_plan::compile::returning::ReturningColumn;
use minisqlite_plan::compile::select::{
    CoreFrom, QueryTail, ResultList, Select, SelectBody, SelectCore,
};
use minisqlite_plan::compile::stored::{
    ActionPlan, ActionStatement, CreateTrigger, CreateView, ParsedStatement, ParsedText,
    TriggerEvent,
};
use minisqlite_plan::compile::trigger::TriggerDef;
use minisqlite_plan::compile::update::{
    RowUpkeep, TargetName, TargetedUpdate, UpdateClauses, UpdateRows, UpdateStatement,
};
use minisqlite_plan::compile::view::{compile_view, view_schema, ViewStack, MAX_VIEW_DEPTH};
use minisqlite_plan::error::Error;
use minisqlite_plan::expr::{CompareMeta, CompareOp, EvalExpr};
use minisqlite_plan::plan::{
    CtePlan, InsteadOf, InsteadOfEvent, Plan, PlanNode, SubPlan, TriggerTiming,
};
use minisqlite_plan::query_planner::{DeleteStatement, InsertStatement, Statement};
use minisqlite_plan::scope::{Source, SynthCol};
use minisqlite_plan::types::{Affinity, Collation, DbIndex, Value};
use minisqlite_plan::{PlanCtx, Planner, QueryPlanner};

fn column(i: usize) -> EvalExpr {
    EvalExpr::Column(i)
}

fn integer(i: i64) -> EvalExpr {
    EvalExpr::Literal(Value::Integer(i))
}

fn text(s: &str) -> EvalExpr {
    EvalExpr::Literal(Value::Text(s.to_string()))
}

fn equals(left: EvalExpr, right: EvalExpr) -> EvalExpr {
    EvalExpr::Compare {
        op: CompareOp::Eq,
        left: Box::new(left),
        right: Box::new(right),
        meta: CompareMeta { apply_left: None, apply_right: None, collation: Collation::Binary },
        null_safe: false,
    }
}

fn scan(table: &str) -> PlanNode {
    PlanNode::SeqScan(SeqScan { table: table.to_string(), db: DbIndex::main(), column_count: 2 })
}

fn project(input: PlanNode, registers: &[usize]) -> PlanNode {
    PlanNode::Project {
        input: Box::new(input),
        exprs: registers.iter().map(|r| column(*r)).collect(),
    }
}

/// What parsing `CREATE VIEW v[(<columns>)] AS ..` gives.
fn stored_view(columns: Option<&[&str]>) -> ParsedText<'static> {
    let columns = columns.map(|c| c.iter().map(|n| n.to_string()).collect());
    Ok(vec![ParsedStatement::CreateView(CreateView { columns })])
}

fn synth(names: &[&str]) -> Vec<SynthCol> {
    names
        .iter()
        .map(|n| SynthCol {
            name: n.to_string(),
            affinity: Affinity::Integer,
            collation: Collation::Binary,
            hidden: false,
        })
        .collect()
}

fn no_catalog() -> Catalog {
    Catalog { tables: vec![], indexes: vec![] }
}

/// `SELECT <registers> AS <names> FROM <source>`
fn query<'a>(
    resolved: Vec<Source<'a>>,
    source: PlanNode,
    registers: &[usize],
    names: &[&str],
) -> Select<'a> {
    let n = names.len();
    let core = SelectCore::Query {
        from: CoreFrom { resolved: Ok(resolved), bound_where: Ok(()), built: Ok((source, None)) },
        result: Ok(ResultList {
            grouping: None,
            projections: registers.iter().map(|r| column(*r)).collect(),
            names: names.iter().map(|c| c.to_string()).collect(),
            collations: (0..n).map(|_| None).collect(),
            defined: (0..n).map(|_| None).collect(),
            windows: vec![],
        }),
        tail: QueryTail { distinct: false, order_by: vec![], limit: None },
    };
    Select { with: None, body: SelectBody::Select(core) }
}

/// The body of a view: `SELECT <registers> AS <names> FROM <source>`.
fn body_over(source: PlanNode, registers: &[usize], names: &[&str]) -> Select<'static> {
    query(vec![], source, registers, names)
}

/// Plan `SELECT * FROM <view>` over the columns and the row source of the view.
fn select_star(ctx: PlanCtx, schema: Vec<SynthCol>, source: PlanNode) -> Result<Plan, Error> {
    let registers: Vec<usize> = (0..schema.len()).collect();
    let names: Vec<String> = schema.iter().map(|c| c.name.clone()).collect();
    let names: Vec<&str> = names.iter().map(|n| n.as_str()).collect();
    let view = Source::Derived {
        exposed_name: "v".to_string(),
        columns: schema,
        base: 0,
        json_referenced: false,
    };
    let statement = Statement::Select(query(vec![view], source, &registers, &names));
    QueryPlanner::new().plan(ctx, &no_catalog(), statement, Ok(PlanNotes::none()))
}

/// Plan `SELECT * FROM v`, where `v` is `CREATE VIEW v[(<columns>)] AS SELECT a, b FROM t`.
fn plan_v(columns: Option<&[&str]>) -> Result<Plan, Error> {
    let mut stack = ViewStack::new();
    let entered = stack.enter("v");
    let schema = view_schema(entered, stored_view(columns), Ok(synth(&["a", "b"])), "v")?;
    stack.leave();
    let mut ctx = PlanCtx::new();
    let entered = stack.enter("v");
    let body = body_over(scan("t"), &[0, 1], &["a", "b"]);
    let source = compile_view(
        &mut ctx,
        &no_catalog(),
        entered,
        stored_view(columns),
        body,
        "v",
        "v".to_string(),
        schema.len(),
    )?;
    stack.leave();
    select_star(ctx, schema, source)
}

fn under_project(root: &PlanNode) -> &PlanNode {
    match root {
        PlanNode::Project { input, .. } => input,
        other => panic!("expected a Project at the root, got {other:?}"),
    }
}

#[test]
fn view_lowers_to_a_ctescan_over_a_materialized_body() {
    // CREATE VIEW v AS SELECT a, b FROM t
    // SELECT * FROM v
    let plan = plan_v(None).expect("plan ok");
    match under_project(&plan.root) {
        PlanNode::CteScan { id, column_count } => {
            assert_eq!(*id, 0, "the sole view materializes as ctes[0]");
            assert_eq!(*column_count, 2, "view v exposes 2 columns");
        }
        other => panic!("expected the FROM leaf to be a CteScan, got {other:?}"),
    }
    assert_eq!(plan.ctes.len(), 1, "exactly one materialized body registered");
    match &plan.ctes[0] {
        CtePlan::Materialized { name, column_count, body } => {
            assert_eq!(name, "v", "the CTE takes the view's exposed name");
            assert_eq!(*column_count, 2);
            assert!(
                matches!(under_project(body), PlanNode::SeqScan(s) if s.table == "t"),
                "the view body scans base table t, got {body:?}"
            );
        }
        other => panic!("expected a Materialized view body, got {other:?}"),
    }
    assert_eq!(plan.result_columns, vec!["a".to_string(), "b".to_string()]);
}

#[test]
fn view_output_names_come_from_the_select() {
    let plan = plan_v(None).expect("plan ok");
    assert_eq!(plan.result_columns, vec!["a".to_string(), "b".to_string()]);
}

#[test]
fn explicit_column_list_renames_the_view_output() {
    // CREATE VIEW v(x, y) AS SELECT a, b FROM t
    let plan = plan_v(Some(&["x", "y"])).expect("plan ok");
    assert_eq!(plan.result_columns, vec!["x".to_string(), "y".to_string()]);
}

#[test]
fn column_list_arity_mismatch_is_an_error() {
    // CREATE VIEW v(x, y, z) AS SELECT a, b FROM t
    let err = plan_v(Some(&["x", "y", "z"])).expect_err("an arity mismatch must be rejected");
    let msg = err.message();
    assert!(
        msg.contains("expected 3 columns") && msg.contains("but got 2"),
        "expected an arity-mismatch message, got: {msg}"
    );
}

#[test]
fn directly_self_referential_view_errors_and_does_not_hang() {
    // CREATE VIEW v AS SELECT * FROM v
    let mut stack = ViewStack::new();
    let outer = stack.enter("v");
    assert!(outer.is_ok());
    let inner = stack.enter("V");
    let base = view_schema(inner, stored_view(None), Ok(synth(&["a"])), "v");
    stack.leave();
    let err = view_schema(outer, stored_view(None), base, "v")
        .expect_err("a self-referential view must be rejected");
    assert!(
        err.message().contains("circularly defined"),
        "expected a circular-view error, got: {err:?}"
    );
}

#[test]
fn mutually_recursive_views_error_circular() {
    // CREATE VIEW a AS SELECT * FROM b
    // CREATE VIEW b AS SELECT * FROM a
    let mut stack = ViewStack::new();
    let a = stack.enter("a");
    let b = stack.enter("b");
    let again = stack.enter("a");
    let innermost = view_schema(again, stored_view(None), Ok(synth(&["x"])), "a");
    let of_b = view_schema(b, stored_view(None), innermost, "b");
    stack.leave();
    let err = view_schema(a, stored_view(None), of_b, "a")
        .expect_err("a transitive cycle must be rejected");
    stack.leave();
    assert!(
        err.message().contains("circularly defined"),
        "expected a circular-view error, got: {err:?}"
    );
    assert!(stack.enter("a").is_ok());
}

#[test]
fn view_over_a_view_registers_both_bodies() {
    // CREATE VIEW v1 AS SELECT a FROM t
    // CREATE VIEW v2 AS SELECT a FROM v1
    // SELECT * FROM v2
    let mut stack = ViewStack::new();
    let mut ctx = PlanCtx::new();
    let outer = stack.enter("v2");
    let inner = stack.enter("v1");
    let v1 = compile_view(
        &mut ctx,
        &no_catalog(),
        inner,
        stored_view(None),
        body_over(scan("t"), &[0], &["a"]),
        "v1",
        "v1".to_string(),
        1,
    )
    .unwrap();
    stack.leave();
    let v2 = compile_view(
        &mut ctx,
        &no_catalog(),
        outer,
        stored_view(None),
        body_over(v1, &[0], &["a"]),
        "v2",
        "v2".to_string(),
        1,
    )
    .unwrap();
    stack.leave();
    let plan = select_star(ctx, synth(&["a"]), v2).expect("plan ok");
    assert_eq!(plan.ctes.len(), 2, "v1's body and v2's body are both materialized");
    match under_project(&plan.root) {
        PlanNode::CteScan { id, column_count } => {
            assert_eq!(*id, 1, "outer FROM scans v2 = ctes[1]");
            assert_eq!(*column_count, 1);
        }
        other => panic!("expected a CteScan for the outer view, got {other:?}"),
    }
    assert_eq!(plan.result_columns, vec!["a".to_string()]);
}

#[test]
fn a_body_of_another_width_than_its_schema_is_refused() {
    let mut ctx = PlanCtx::new();
    let err = compile_view(
        &mut ctx,
        &no_catalog(),
        Ok(()),
        stored_view(None),
        body_over(scan("t"), &[0], &["a"]),
        "v",
        "v".to_string(),
        2,
    )
    .unwrap_err();
    assert_eq!(
        err.message(),
        "internal error: view v Phase-1 schema width (2) != compiled body width (1)"
    );
    assert!(ctx.ctes().is_empty());
}

#[test]
fn stored_text_that_is_no_view_is_refused() {
    let err = view_schema(Ok(()), Ok(vec![]), Ok(synth(&["a"])), "v").unwrap_err();
    assert_eq!(
        err.message(),
        "internal error: view v does not store a single CREATE VIEW statement"
    );
    let other = Ok(vec![ParsedStatement::Other]);
    let err = view_schema(Ok(()), other, Ok(synth(&["a"])), "v").unwrap_err();
    assert_eq!(err.message(), "internal error: view v stored SQL is not a CREATE VIEW statement");
}

#[test]
fn views_are_nested_only_so_deep() {
    let mut stack = ViewStack::new();
    for i in 0..MAX_VIEW_DEPTH {
        assert!(stack.enter(&format!("v{i}")).is_ok());
    }
    let err = stack.enter("one_more").unwrap_err();
    assert_eq!(err.message(), "view one_more is circularly defined");
    stack.leave();
    assert!(stack.enter("one_more").is_ok());
}

// Statements on views. `v` is `CREATE VIEW v AS SELECT id, val FROM base`.

fn view_v() -> ViewTarget<'static> {
    ViewTarget {
        name: "v".to_string(),
        db: DbIndex::main(),
        text: stored_view(None),
        select_columns: Ok(vec![
            ViewCol { name: "id".to_string(), affinity: Affinity::Integer },
            ViewCol { name: "val".to_string(), affinity: Affinity::Text },
        ]),
    }
}

fn view_scan() -> ViewScan<'static> {
    ViewScan {
        entered: Ok(()),
        text: stored_view(None),
        body: body_over(scan("base"), &[0, 1], &["id", "val"]),
    }
}

/// `CREATE TRIGGER tr INSTEAD OF <event> ON v BEGIN ..; END`
fn trig(event: TriggerEvent) -> TriggerDef<'static> {
    let body = ActionStatement::Insert(Ok(ActionPlan {
        root: PlanNode::SingleRow,
        result_columns: vec![],
        ctes: vec![],
        subqueries: vec![],
    }));
    TriggerDef {
        name: "tr".to_string(),
        db: DbIndex::main(),
        table: "v".to_string(),
        text: Ok(vec![ParsedStatement::CreateTrigger(CreateTrigger {
            name: "tr".to_string(),
            timing: Some(TriggerTiming::InsteadOf),
            event,
            when: None,
            body: vec![body],
        })]),
    }
}

fn insert_trigger() -> TriggerDef<'static> {
    trig(TriggerEvent::Insert)
}

fn base_catalog() -> Catalog {
    let col = |name: &str| ColumnDef {
        name: name.to_string(),
        affinity: Affinity::Integer,
        collation: Collation::Binary,
        generated: None,
    };
    Catalog {
        tables: vec![TableDef {
            name: "base".to_string(),
            db: DbIndex::main(),
            columns: vec![col("id"), col("val")],
            without_rowid: false,
            rowid_alias: None,
        }],
        indexes: vec![],
    }
}

fn plan(ctx: PlanCtx, statement: Statement<'_>) -> Result<Plan, Error> {
    QueryPlanner::new().plan(ctx, &base_catalog(), statement, Ok(PlanNotes::none()))
}

/// `INSERT INTO v(id, val) VALUES(1, 'x')`
fn insert_values() -> ViewInsert<'static> {
    ViewInsert {
        upsert: false,
        with: Ok(()),
        columns: Some(vec!["id".to_string(), "val".to_string()]),
        source: InsertSource::Values(vec![vec![Ok(integer(1)), Ok(text("x"))]]),
        returning: vec![],
    }
}

fn insert(triggers: Vec<TriggerDef<'static>>, stmt: ViewInsert<'static>) -> Statement<'static> {
    Statement::Insert(InsertStatement::View { triggers, view: view_v(), stmt })
}

/// `DELETE FROM v WHERE id = 1`
fn delete_one() -> ViewDelete<'static> {
    ViewDelete {
        with: Ok(()),
        exposed_name: "v".to_string(),
        where_clause: Some(Ok(equals(column(0), integer(1)))),
        scan: view_scan(),
        returning: vec![],
    }
}

fn delete(triggers: Vec<TriggerDef<'static>>, stmt: ViewDelete<'static>) -> Statement<'static> {
    Statement::Delete(DeleteStatement::View { triggers, view: view_v(), stmt })
}

/// `UPDATE v SET <name> = <value> WHERE id = 1`
fn update_one(
    triggers: Vec<TriggerDef<'static>>,
    name: &str,
    value: EvalExpr,
) -> UpdateStatement<'static> {
    UpdateStatement {
        or_conflict: None,
        alias: None,
        clauses: UpdateClauses {
            with: Ok(()),
            set: vec![SetClause::Column { name: name.to_string(), value: Ok(value) }],
            rows: UpdateRows::Target { access: Err(Error::sql("not a table")) },
            where_clause: Some(Ok(equals(column(0), integer(1)))),
            returning: vec![],
        },
        triggers,
        upkeep: RowUpkeep {
            checks: Ok(vec![]),
            index_key_exprs: Ok(vec![]),
            index_partial_predicates: Ok(vec![]),
        },
        view_scan: view_scan(),
    }
}

fn update(stmt: UpdateStatement<'_>) -> Statement<'_> {
    Statement::Update(TargetedUpdate {
        name: TargetName { name: "v".to_string(), qualified: "v".to_string() },
        db: Ok(Some(DbIndex::main())),
        view: Some(view_v()),
        stmt,
    })
}

fn instead_of(plan: &Plan) -> &InsteadOf {
    match &plan.root {
        PlanNode::InsteadOf(io) => io,
        other => panic!("expected an InsteadOf root, got {other:?}"),
    }
}

fn frame(io: &InsteadOf) -> (&PlanNode, Vec<String>) {
    match io.frame_source.as_ref() {
        PlanNode::Project { input, exprs } => {
            (input, exprs.iter().map(|e| format!("{e:?}")).collect())
        }
        other => panic!("expected the projection of the frame, got {other:?}"),
    }
}

const NULL: &str = "Literal(Null)";

#[test]
fn view_insert_with_matching_trigger_is_an_instead_of_node() {
    // INSERT INTO v(id, val) VALUES(1, 'x')
    let plan = plan(PlanCtx::new(), insert(vec![insert_trigger()], insert_values()))
        .expect("a view with an INSTEAD OF INSERT trigger is updatable");
    assert!(plan.mutates, "a view INSERT is still a mutating statement");
    let io = instead_of(&plan);
    assert_eq!(io.view, "v");
    assert_eq!(io.event, InsteadOfEvent::Insert);
    assert_eq!(io.column_count, 2, "view v exposes 2 columns");
    assert_eq!(io.programs.len(), 1, "one matching INSTEAD OF INSERT program");
    let (input, exprs) = frame(io);
    assert!(matches!(input, PlanNode::Values { .. }));
    assert_eq!(exprs, vec![NULL, NULL, NULL, "Column(0)", "Column(1)", NULL]);
}

#[test]
fn view_dml_without_matching_trigger_is_not_updatable() {
    // INSERT INTO v(id, val) VALUES(1, 'x')
    let e = plan(PlanCtx::new(), insert(vec![], insert_values()))
        .expect_err("no INSTEAD OF INSERT trigger → not updatable");
    assert!(e.message().contains("cannot modify v because it is a view"), "got {e:?}");

    // DELETE FROM v WHERE id = 1
    let e = plan(PlanCtx::new(), delete(vec![insert_trigger()], delete_one()))
        .expect_err("only an INSERT trigger exists");
    assert!(e.message().contains("cannot modify v because it is a view"), "got {e:?}");
}

#[test]
fn view_delete_with_matching_trigger_is_an_instead_of_node() {
    // DELETE FROM v WHERE id = 1
    let plan = plan(PlanCtx::new(), delete(vec![trig(TriggerEvent::Delete)], delete_one()))
        .expect("updatable for DELETE");
    let io = instead_of(&plan);
    assert_eq!(io.event, InsteadOfEvent::Delete);
    let (input, exprs) = frame(io);
    assert_eq!(exprs, vec!["Column(0)", "Column(1)", NULL, NULL, NULL, NULL]);
    match input {
        PlanNode::Filter { input, .. } => {
            assert!(matches!(**input, PlanNode::CteScan { id: 0, column_count: 2 }))
        }
        other => panic!("expected the kept rows of the view, got {other:?}"),
    }
}

#[test]
fn update_of_column_gates_view_updatability() {
    // CREATE TRIGGER tr INSTEAD OF UPDATE OF val ON v ..
    let of_val = || vec![trig(TriggerEvent::Update { columns: vec!["val".to_string()] })];
    // UPDATE v SET val = 'y' WHERE id = 1
    let covered = plan(PlanCtx::new(), update(update_one(of_val(), "val", text("y"))))
        .expect("SET val is covered by UPDATE OF val");
    let io = instead_of(&covered);
    assert_eq!(io.event, InsteadOfEvent::Update);
    let (_, exprs) = frame(io);
    assert_eq!(
        exprs,
        vec!["Column(0)", "Column(1)", NULL, "Column(0)", "Literal(Text(\"y\"))", NULL]
    );
    // UPDATE v SET id = 9 WHERE id = 1
    let e = plan(PlanCtx::new(), update(update_one(of_val(), "id", integer(9))))
        .expect_err("SET id is not covered by UPDATE OF val");
    assert!(e.message().contains("cannot modify v because it is a view"), "got {e:?}");
}

fn named_cte(plan: &Plan, name: &str) -> bool {
    plan.ctes.iter().any(|c| match c {
        CtePlan::Materialized { name: n, .. } | CtePlan::Recursive { name: n, .. } => {
            n.eq_ignore_ascii_case(name)
        }
    })
}

fn with_cte(name: &str, column_count: usize, row: Vec<EvalExpr>) -> (PlanCtx, usize) {
    let mut ctx = PlanCtx::new();
    let id = ctx.register_cte(CtePlan::Materialized {
        name: name.to_string(),
        column_count,
        body: PlanNode::Values { rows: vec![row] },
    });
    (ctx, id)
}

fn sub_over(id: usize) -> SubPlan {
    SubPlan {
        plan: project(PlanNode::CteScan { id, column_count: 1 }, &[0]),
        correlated: false,
        correlated_cols: vec![],
        deterministic: false,
        outer_width: 0,
    }
}

#[test]
fn with_on_view_insert_registers_cte_and_compiles() {
    // WITH c(id, val) AS (VALUES (1, 'x')) INSERT INTO v(id, val) SELECT id, val FROM c
    let (ctx, id) = with_cte("c", 2, vec![integer(1), text("x")]);
    let mut stmt = insert_values();
    stmt.source = InsertSource::Select(body_over(
        PlanNode::CteScan { id, column_count: 2 },
        &[0, 1],
        &["id", "val"],
    ));
    let plan = plan(ctx, insert(vec![insert_trigger()], stmt))
        .expect("WITH on a view INSERT with a matching INSTEAD OF INSERT trigger compiles");
    assert_eq!(plan.ctes.len(), 1, "the CTE c is registered on the plan, got {:?}", plan.ctes);
    assert!(named_cte(&plan, "c"), "the WITH CTE `c` is on the plan");
    let io = instead_of(&plan);
    assert_eq!(io.event, InsteadOfEvent::Insert);
    assert_eq!(io.programs.len(), 1, "one matching INSTEAD OF INSERT program");
}

#[test]
fn with_on_view_delete_registers_cte_and_compiles() {
    // WITH ids(x) AS (VALUES (1)) DELETE FROM v WHERE id IN (SELECT x FROM ids)
    let (mut ctx, id) = with_cte("ids", 1, vec![integer(1)]);
    let subquery = ctx.register_subquery(sub_over(id));
    let mut stmt = delete_one();
    stmt.where_clause = Some(Ok(EvalExpr::InSubquery {
        subject: Box::new(column(0)),
        subquery,
        meta: CompareMeta { apply_left: None, apply_right: None, collation: Collation::Binary },
        negated: false,
    }));
    let plan = plan(ctx, delete(vec![trig(TriggerEvent::Delete)], stmt))
        .expect("WITH on a view DELETE compiles");
    assert!(named_cte(&plan, "ids"), "the WITH CTE `ids` is on the plan, got {:?}", plan.ctes);
    assert!(matches!(&plan.root, PlanNode::InsteadOf(io) if io.event == InsteadOfEvent::Delete));
    assert_eq!(plan.ctes.len(), 2);
}

#[test]
fn with_on_view_update_registers_cte_and_compiles() {
    // WITH names(n) AS (VALUES ('y')) UPDATE v SET val = (SELECT n FROM names) WHERE id = 1
    let (mut ctx, id) = with_cte("names", 1, vec![text("y")]);
    let value = EvalExpr::ScalarSubquery(ctx.register_subquery(sub_over(id)));
    let triggers = vec![trig(TriggerEvent::Update { columns: vec![] })];
    let plan = plan(ctx, update(update_one(triggers, "val", value)))
        .expect("WITH on a view UPDATE compiles");
    assert!(named_cte(&plan, "names"), "the WITH CTE `names` is on the plan, got {:?}", plan.ctes);
    assert!(matches!(&plan.root, PlanNode::InsteadOf(io) if io.event == InsteadOfEvent::Update));
}

#[test]
fn a_column_list_places_the_inserted_values() {
    // INSERT INTO v(val) VALUES ('x')
    let mut stmt = insert_values();
    stmt.columns = Some(vec!["VAL".to_string()]);
    stmt.source = InsertSource::Values(vec![vec![Ok(text("x"))]]);
    let p = plan(PlanCtx::new(), insert(vec![insert_trigger()], stmt)).unwrap();
    let (_, exprs) = frame(instead_of(&p));
    assert_eq!(exprs, vec![NULL, NULL, NULL, NULL, "Column(0)", NULL]);
    // INSERT INTO v DEFAULT VALUES
    let mut stmt = insert_values();
    stmt.columns = None;
    stmt.source = InsertSource::DefaultValues;
    let p = plan(PlanCtx::new(), insert(vec![insert_trigger()], stmt)).unwrap();
    let (_, exprs) = frame(instead_of(&p));
    assert_eq!(exprs, vec![NULL; 6]);
    // INSERT INTO v(nope) VALUES ('x')
    let mut stmt = insert_values();
    stmt.columns = Some(vec!["nope".to_string()]);
    let e = plan(PlanCtx::new(), insert(vec![insert_trigger()], stmt)).unwrap_err();
    assert_eq!(e.message(), "table v has no column named nope");
}

#[test]
fn a_row_of_another_width_than_its_columns_is_refused() {
    let of = |columns: Option<Vec<String>>, rows: Vec<Vec<i64>>| {
        let mut stmt = insert_values();
        stmt.columns = columns;
        stmt.source = InsertSource::Values(
            rows.into_iter().map(|r| r.into_iter().map(|i| Ok(integer(i))).collect()).collect(),
        );
        plan(PlanCtx::new(), insert(vec![insert_trigger()], stmt)).unwrap_err().message().to_string()
    };
    assert_eq!(of(None, vec![vec![1]]), "table v has 2 columns but 1 values were supplied");
    assert_eq!(of(Some(vec!["val".to_string()]), vec![vec![1, 2]]), "2 values for 1 columns");
    // INSERT INTO v(id, val) VALUES (1): every column in order, but listed.
    let listed = Some(vec!["id".to_string(), "val".to_string()]);
    assert_eq!(of(listed, vec![vec![1]]), "1 values for 2 columns");
    assert_eq!(
        of(None, vec![vec![1, 2], vec![3]]),
        "all VALUES must have the same number of terms"
    );
    assert!(matches_positional(&[0, 1, 2]));
    assert!(!matches_positional(&[1, 0]));
    assert!(matches_positional(&[]));
    assert!(check_insert_arity(&vec![1, 0], 2, 2, "v").is_ok());
}

#[test]
fn the_columns_of_a_select_are_held_against_the_column_list() {
    // INSERT INTO v(id, val) SELECT a FROM base
    let mut stmt = insert_values();
    stmt.source = InsertSource::Select(body_over(scan("base"), &[0], &["a"]));
    let e = plan(PlanCtx::new(), insert(vec![insert_trigger()], stmt)).unwrap_err();
    assert_eq!(e.message(), "1 values for 2 columns");
    // INSERT INTO v SELECT a FROM base
    let mut stmt = insert_values();
    stmt.columns = None;
    stmt.source = InsertSource::Select(body_over(scan("base"), &[0], &["a"]));
    let e = plan(PlanCtx::new(), insert(vec![insert_trigger()], stmt)).unwrap_err();
    assert_eq!(e.message(), "table v has 2 columns but 1 values were supplied");
}

#[test]
fn a_star_returns_every_column_of_the_view() {
    // DELETE FROM v WHERE id = 1 RETURNING *
    let mut stmt = delete_one();
    stmt.returning = vec![ReturningColumn::Star(Ok(vec![]))];
    let p = plan(PlanCtx::new(), delete(vec![trig(TriggerEvent::Delete)], stmt)).unwrap();
    assert_eq!(p.result_columns, vec!["id".to_string(), "val".to_string()]);
    let shown: Vec<String> =
        instead_of(&p).returning.iter().map(|e| format!("{e:?}")).collect();
    assert_eq!(shown, vec!["Column(0)", "Column(1)"]);
    // INSERT INTO v(id, val) VALUES(1, 'x') RETURNING *, with the columns of v renamed
    let mut view = view_v();
    view.text = stored_view(Some(&["k", "w"]));
    let mut stmt = insert_values();
    stmt.columns = None;
    stmt.returning = vec![ReturningColumn::Star(Ok(vec![]))];
    let statement =
        Statement::Insert(InsertStatement::View { triggers: vec![insert_trigger()], view, stmt });
    let p = plan(PlanCtx::new(), statement).unwrap();
    assert_eq!(p.result_columns, vec!["k".to_string(), "w".to_string()]);
    // UPDATE v SET val = 'y' WHERE id = 1 RETURNING *
    let every = vec![trig(TriggerEvent::Update { columns: vec![] })];
    let mut stmt = update_one(every, "val", text("y"));
    stmt.clauses.returning = vec![ReturningColumn::Star(Ok(vec![]))];
    let p = plan(PlanCtx::new(), update(stmt)).unwrap();
    assert_eq!(p.result_columns, vec!["id".to_string(), "val".to_string()]);
    let cols = view_v().select_columns.unwrap();
    assert_eq!(view_star(&cols), vec![(0, "id".to_string()), (1, "val".to_string())]);
}

#[test]
fn a_statement_on_a_view_registers_its_scan_before_its_returning() {
    // DELETE FROM v WHERE id = 1 RETURNING nope
    let mut stmt = delete_one();
    stmt.returning = vec![ReturningColumn::Expr {
        expr: Err(Error::sql("no such column: nope")),
        alias: None,
        source_text: "nope".to_string(),
    }];
    let mut ctx = PlanCtx::new();
    let triggers = || vec![trig(TriggerEvent::Delete)];
    let cat = base_catalog();
    let e = compile_view_delete(&mut ctx, &cat, triggers(), view_v(), stmt, false).unwrap_err();
    assert_eq!(e.message(), "no such column: nope");
    assert_eq!(ctx.ctes().len(), 1);
    // DELETE FROM v WHERE nope
    let mut stmt = delete_one();
    stmt.where_clause = Some(Err(Error::sql("no such column: nope")));
    let mut ctx = PlanCtx::new();
    let e = compile_view_delete(&mut ctx, &cat, triggers(), view_v(), stmt, false).unwrap_err();
    assert_eq!(e.message(), "no such column: nope");
    assert!(ctx.ctes().is_empty());
}

#[test]
fn clauses_that_a_view_cannot_carry_are_refused() {
    // INSERT INTO v .. ON CONFLICT ..
    let mut stmt = insert_values();
    stmt.upsert = true;
    let e = plan(PlanCtx::new(), insert(vec![insert_trigger()], stmt)).unwrap_err();
    assert_eq!(
        e.message(),
        "ON CONFLICT (upsert) on a view (v) INSTEAD OF trigger is not yet supported"
    );
    let every = || vec![trig(TriggerEvent::Update { columns: vec![] })];
    // UPDATE v SET .. FROM ..
    let mut stmt = update_one(every(), "val", text("y"));
    stmt.clauses.rows = UpdateRows::From { resolved: Ok(vec![]), built: Ok((scan("base"), None)) };
    let e = plan(PlanCtx::new(), update(stmt)).unwrap_err();
    assert_eq!(e.message(), "FROM on a view (v) INSTEAD OF trigger is not yet supported");
    // UPDATE v SET (id, val) = (1, 2)
    let mut stmt = update_one(every(), "val", text("y"));
    stmt.clauses.set = vec![SetClause::Columns {
        names: vec!["id".to_string(), "val".to_string()],
        value: SetValue::Row(vec![Ok(integer(1)), Ok(integer(2))]),
    }];
    let e = plan(PlanCtx::new(), update(stmt)).unwrap_err();
    assert_eq!(e.message(), "column-list SET on view v is not yet supported");
    // UPDATE v SET nope = 1
    let e = plan(PlanCtx::new(), update(update_one(every(), "nope", integer(1)))).unwrap_err();
    assert_eq!(e.message(), "table v has no column named nope");
}

#[test]
fn a_statement_on_a_view_returns_its_columns() {
    let star = || vec![(0, "id".to_string()), (1, "val".to_string())];
    let mut stmt = delete_one();
    stmt.returning = vec![
        ReturningColumn::Star(Ok(star())),
        ReturningColumn::Expr {
            expr: Ok(column(1)),
            alias: Some("w".to_string()),
            source_text: "val".to_string(),
        },
    ];
    let p = plan(PlanCtx::new(), delete(vec![trig(TriggerEvent::Delete)], stmt)).unwrap();
    assert_eq!(p.result_columns, vec!["id".to_string(), "val".to_string(), "w".to_string()]);
    assert_eq!(instead_of(&p).returning.len(), 3);
}

#[test]
fn the_alias_of_an_updated_view_names_its_body() {
    let mut stmt = update_one(vec![trig(TriggerEvent::Update { columns: vec![] })], "val", text("y"));
    stmt.alias = Some("w".to_string());
    let p = plan(PlanCtx::new(), update(stmt)).unwrap();
    assert!(named_cte(&p, "w"));
    assert!(!named_cte(&p, "v"));
}

#[test]
fn a_view_with_a_column_list_is_changed_under_its_names() {
    let mut view = view_v();
    view.text = stored_view(Some(&["k", "w"]));
    let stmt = ViewInsert {
        columns: Some(vec!["w".to_string(), "k".to_string()]),
        ..insert_values()
    };
    let statement =
        Statement::Insert(InsertStatement::View { triggers: vec![insert_trigger()], view, stmt });
    let p = plan(PlanCtx::new(), statement).unwrap();
    let (_, exprs) = frame(instead_of(&p));
    assert_eq!(exprs, vec![NULL, NULL, NULL, "Column(1)", "Column(0)", NULL]);
}

#[test]
fn a_left_view_can_be_entered_again() {
    let mut stack = ViewStack::new();
    assert!(stack.enter("a").is_ok());
    assert!(stack.enter("b").is_ok());
    assert!(stack.enter("A").is_err());
    stack.leave();
    assert!(stack.enter("B").is_ok(), "b was left");
    assert!(stack.enter("a").is_err(), "a was not");
}

#[test]
fn the_columns_of_a_scanned_view_compare_bytewise() {
    let cols = scan_synth_cols(&view_v().select_columns.unwrap());
    let shown: Vec<(&str, Affinity)> =
        cols.iter().map(|c| (c.name.as_str(), c.affinity)).collect();
    assert_eq!(shown, vec![("id", Affinity::Integer), ("val", Affinity::Text)]);
    assert!(cols.iter().all(|c| c.collation == Collation::Binary && !c.hidden));
}
