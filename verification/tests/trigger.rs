//! Triggers: which of them a statement fires, and the programs they compile to.

use minisqlite_plan::access::SeqScan;
use minisqlite_plan::catalog::{Catalog, ColumnDef, TableDef};
use minisqlite_plan::compile::assignments::SetClause;
use minisqlite_plan::compile::instead_of::ViewScan;
use minisqlite_plan::compile::select::{
    CoreFrom, QueryTail, ResultList, Select, SelectBody, SelectCore,
};
use minisqlite_plan::compile::stored::{
    ActionPlan, ActionStatement, CreateTrigger, CreateView, ParsedStatement, SelectAction,
    TriggerEvent, UpdateAction,
};
use minisqlite_plan::compile::trigger::{
    compile_action, compile_triggers, new_old_sources, TriggerDef, TriggerDmlEvent,
};
use minisqlite_plan::compile::update::{
    RowUpkeep, TargetName, TargetedUpdate, UpdateClauses, UpdateRows, UpdateStatement,
};
use minisqlite_plan::compile::values::compile_values;
use minisqlite_plan::error::Error;
use minisqlite_plan::expr::{CompareMeta, CompareOp, EvalExpr};
use minisqlite_plan::plan::{
    CheckConstraint, Delete, Insert, Join, JoinStrategy, JoinType, OnConflict, PlanNode,
    TriggerProgram, TriggerTiming, Update,
};
use minisqlite_plan::scope::Source;
use minisqlite_plan::types::{Affinity, Collation, DbIndex, Value};
use minisqlite_plan::PlanCtx;

fn col(name: &str) -> ColumnDef {
    ColumnDef {
        name: name.to_string(),
        affinity: Affinity::Integer,
        collation: Collation::Binary,
        generated: None,
    }
}

fn tdef(name: &str, columns: &[&str]) -> TableDef {
    TableDef {
        name: name.to_string(),
        db: DbIndex::main(),
        columns: columns.iter().map(|c| col(c)).collect(),
        without_rowid: false,
        rowid_alias: None,
    }
}

/// `t(a, b)`, `log(x, y)` and `audit(z)`. A row of `t` is of width 3: the old row is in
/// registers 0 to 2, the new row in 3 to 5, and an action's own columns begin at 6.
fn cat() -> Catalog {
    Catalog {
        tables: vec![tdef("t", &["a", "b"]), tdef("log", &["x", "y"]), tdef("audit", &["z"])],
        indexes: vec![],
    }
}

fn column(i: usize) -> EvalExpr {
    EvalExpr::Column(i)
}

fn integer(i: i64) -> EvalExpr {
    EvalExpr::Literal(Value::Integer(i))
}

fn compare(op: CompareOp, left: EvalExpr, right: EvalExpr) -> EvalExpr {
    EvalExpr::Compare {
        op,
        left: Box::new(left),
        right: Box::new(right),
        meta: CompareMeta { apply_left: None, apply_right: None, collation: Collation::Binary },
        null_safe: false,
    }
}

fn scan(table: &str) -> PlanNode {
    PlanNode::SeqScan(SeqScan {
        table: table.to_string(),
        db: DbIndex::main(),
        column_count: 2,
    })
}

fn create(
    name: &str,
    timing: Option<TriggerTiming>,
    event: TriggerEvent,
    body: Vec<ActionStatement<'static>>,
) -> CreateTrigger<'static> {
    CreateTrigger { name: name.to_string(), timing, event, when: None, body }
}

fn trig(table: &str, ct: CreateTrigger<'static>) -> TriggerDef<'static> {
    TriggerDef {
        name: ct.name.clone(),
        db: DbIndex::main(),
        table: table.to_string(),
        text: Ok(vec![ParsedStatement::CreateTrigger(ct)]),
    }
}

fn action(root: PlanNode) -> Result<ActionPlan, Error> {
    Ok(ActionPlan { root, result_columns: vec![], ctes: vec![], subqueries: vec![] })
}

/// `INSERT INTO <table> VALUES (<registers>)`
fn insert_columns(
    table: &str,
    registers: &[usize],
    checks: Vec<CheckConstraint>,
) -> ActionStatement<'static> {
    let (source, names) =
        compile_values(vec![registers.iter().map(|r| Ok(column(*r))).collect()]).unwrap();
    ActionStatement::Insert(action(PlanNode::Insert(Insert {
        table: table.to_string(),
        db: DbIndex::main(),
        column_count: names.len(),
        columns: None,
        source: Box::new(source),
        source_width: names.len(),
        column_affinities: names.iter().map(|_| Affinity::Integer).collect(),
        on_conflict: OnConflict::Abort,
        returning: vec![],
        triggers: vec![],
        checks,
        rowid_source: None,
        upsert: None,
        index_key_exprs: vec![],
        index_partial_predicates: vec![],
    })))
}

/// `INSERT INTO log VALUES (NEW.a, NEW.b)`
fn log_new() -> ActionStatement<'static> {
    insert_columns("log", &[3, 4], vec![])
}

fn after_insert(name: &str, body: Vec<ActionStatement<'static>>) -> CreateTrigger<'static> {
    create(name, Some(TriggerTiming::After), TriggerEvent::Insert, body)
}

fn programs(
    triggers: Vec<TriggerDef<'static>>,
    event: TriggerDmlEvent<'_>,
) -> Result<Vec<TriggerProgram>, Error> {
    let cat = cat();
    let target = cat.table_in(DbIndex::main(), "t").expect("t exists");
    compile_triggers(&cat, triggers, DbIndex::main(), target, event)
}

fn on_insert(triggers: Vec<TriggerDef<'static>>) -> Vec<TriggerProgram> {
    programs(triggers, TriggerDmlEvent::Insert).unwrap()
}

fn on_update(triggers: Vec<TriggerDef<'static>>, changed_cols: &[usize]) -> Vec<TriggerProgram> {
    programs(triggers, TriggerDmlEvent::Update { changed_cols }).unwrap()
}

fn on_delete(triggers: Vec<TriggerDef<'static>>) -> Vec<TriggerProgram> {
    programs(triggers, TriggerDmlEvent::Delete).unwrap()
}

fn as_insert(node: &PlanNode) -> &Insert {
    match node {
        PlanNode::Insert(i) => i,
        other => panic!("expected Insert, got {other:?}"),
    }
}

fn as_update(node: &PlanNode) -> &Update {
    match node {
        PlanNode::Update(u) => u,
        other => panic!("expected Update, got {other:?}"),
    }
}

fn as_delete(node: &PlanNode) -> &Delete {
    match node {
        PlanNode::Delete(d) => d,
        other => panic!("expected Delete, got {other:?}"),
    }
}

fn values_rows(node: &PlanNode) -> &[Vec<EvalExpr>] {
    match node {
        PlanNode::Values { rows } => rows,
        other => panic!("expected Values, got {other:?}"),
    }
}

fn col_reg(e: &EvalExpr) -> usize {
    match e {
        EvalExpr::Column(r) => *r,
        other => panic!("expected Column, got {other:?}"),
    }
}

#[test]
fn after_insert_trigger_action_reads_new_columns() {
    // CREATE TRIGGER trg AFTER INSERT ON t BEGIN INSERT INTO log VALUES (NEW.a, NEW.b); END
    // CREATE TRIGGER log_ins AFTER INSERT ON log BEGIN INSERT INTO audit VALUES (NEW.x); END
    let triggers = on_insert(vec![
        trig("t", after_insert("trg", vec![log_new()])),
        trig("log", after_insert("log_ins", vec![insert_columns("audit", &[3], vec![])])),
    ]);
    assert_eq!(triggers.len(), 1, "only t's trigger attaches (log's is not t's)");
    let tp = &triggers[0];
    assert_eq!(tp.name, "trg");
    assert!(matches!(tp.timing, TriggerTiming::After), "AFTER preserved");
    assert!(tp.when.is_none(), "no WHEN");
    assert_eq!(tp.actions.len(), 1);
    assert!(tp.actions[0].mutates);

    let action = as_insert(&tp.actions[0].root);
    assert_eq!(action.table, "log");
    assert!(
        action.triggers.is_empty(),
        "one-level bound: the INSERT-INTO-log action does NOT compile log's own triggers"
    );
    let rows = values_rows(&action.source);
    assert_eq!(rows.len(), 1);
    assert_eq!(col_reg(&rows[0][0]), 3, "NEW.a -> Column(W+0)=3");
    assert_eq!(col_reg(&rows[0][1]), 4, "NEW.b -> Column(W+1)=4");
}

#[test]
fn trigger_action_dml_on_a_checked_table_still_carries_checks() {
    // CREATE TRIGGER trg AFTER INSERT ON t BEGIN INSERT INTO ck VALUES (NEW.a); END
    let check = CheckConstraint {
        expr: compare(CompareOp::Gt, column(0), integer(0)),
        detail: "ck".to_string(),
    };
    let triggers =
        on_insert(vec![trig("t", after_insert("trg", vec![insert_columns("ck", &[3], vec![check])]))]);
    let tp = &triggers[0];
    assert_eq!(tp.actions.len(), 1);
    let action = as_insert(&tp.actions[0].root);
    assert_eq!(action.table, "ck");
    assert_eq!(
        action.checks.len(),
        1,
        "trigger-action INSERT into `ck` still carries ck's CHECK (attach is not parent-gated)"
    );
}

#[test]
fn omitted_timing_defaults_to_before() {
    // CREATE TRIGGER trg INSERT ON t BEGIN INSERT INTO log VALUES (NEW.a, NEW.b); END
    let triggers =
        on_insert(vec![trig("t", create("trg", None, TriggerEvent::Insert, vec![log_new()]))]);
    assert!(matches!(triggers[0].timing, TriggerTiming::Before), "omitted timing => BEFORE");
}

#[test]
fn when_binds_against_the_old_new_scope() {
    // CREATE TRIGGER trg AFTER INSERT ON t WHEN NEW.a > 0 BEGIN ..; END
    let mut ct = after_insert("trg", vec![log_new()]);
    ct.when = Some(Ok(compare(CompareOp::Gt, column(3), integer(0))));
    let triggers = on_insert(vec![trig("t", ct)]);
    match triggers[0].when.as_ref().expect("WHEN bound") {
        EvalExpr::Compare { op: CompareOp::Gt, left, right, .. } => {
            assert_eq!(col_reg(left), 3, "NEW.a is Column(W+0)=3");
            assert!(matches!(right.as_ref(), EvalExpr::Literal(Value::Integer(0))));
        }
        other => panic!("expected Compare(Gt, ..), got {other:?}"),
    }
}

#[test]
fn insert_trigger_does_not_fire_on_delete_or_update() {
    // CREATE TRIGGER trg AFTER INSERT ON t BEGIN INSERT INTO log VALUES (NEW.a, NEW.b); END
    let trigger = || vec![trig("t", after_insert("trg", vec![log_new()]))];
    assert!(on_delete(trigger()).is_empty());
    assert!(on_update(trigger(), &[0]).is_empty());
    assert_eq!(on_insert(trigger()).len(), 1);
}

#[test]
fn delete_trigger_reads_old_columns() {
    // CREATE TRIGGER trg AFTER DELETE ON t BEGIN INSERT INTO log VALUES (OLD.a, OLD.b); END
    let ct = create(
        "trg",
        Some(TriggerTiming::After),
        TriggerEvent::Delete,
        vec![insert_columns("log", &[0, 1], vec![])],
    );
    let triggers = on_delete(vec![trig("t", ct)]);
    let action = as_insert(&triggers[0].actions[0].root);
    let rows = values_rows(&action.source);
    assert_eq!(col_reg(&rows[0][0]), 0, "OLD.a -> Column(0)");
    assert_eq!(col_reg(&rows[0][1]), 1, "OLD.b -> Column(1)");
}

fn update_of(columns: &[&str], timing: TriggerTiming) -> CreateTrigger<'static> {
    let columns = columns.iter().map(|c| c.to_string()).collect();
    create("trg", Some(timing), TriggerEvent::Update { columns }, vec![log_new()])
}

#[test]
fn update_of_fires_only_when_a_named_column_is_assigned() {
    // CREATE TRIGGER trg BEFORE UPDATE OF a ON t BEGIN ..; END
    let trigger = || vec![trig("t", update_of(&["a"], TriggerTiming::Before))];
    assert_eq!(on_update(trigger(), &[0]).len(), 1);
    assert!(on_update(trigger(), &[1]).is_empty());
    assert_eq!(on_update(trigger(), &[0, 1]).len(), 1);
}

#[test]
fn bare_update_trigger_fires_on_any_assigned_column() {
    // CREATE TRIGGER trg AFTER UPDATE ON t BEGIN ..; END
    let trigger = || vec![trig("t", update_of(&[], TriggerTiming::After))];
    assert_eq!(on_update(trigger(), &[0]).len(), 1);
    assert_eq!(on_update(trigger(), &[1]).len(), 1);
}

/// `UPDATE log SET y = NEW.a WHERE x = OLD.a`, as an action.
fn update_log() -> ActionStatement<'static> {
    let log_upd = trig(
        "log",
        create(
            "log_upd",
            Some(TriggerTiming::After),
            TriggerEvent::Update { columns: vec![] },
            vec![insert_columns("audit", &[3], vec![])],
        ),
    );
    let stmt = UpdateStatement {
        or_conflict: None,
        alias: None,
        clauses: UpdateClauses {
            with: Ok(()),
            set: vec![SetClause::Column { name: "y".to_string(), value: Ok(column(3)) }],
            rows: UpdateRows::Target { access: Ok((scan("log"), None)) },
            where_clause: Some(Ok(compare(CompareOp::Eq, column(6), column(0)))),
            returning: vec![],
        },
        triggers: vec![log_upd],
        upkeep: RowUpkeep {
            checks: Ok(vec![]),
            index_key_exprs: Ok(vec![]),
            index_partial_predicates: Ok(vec![]),
        },
        view_scan: ViewScan {
            entered: Ok(()),
            text: Ok(vec![]),
            body: Select {
                with: None,
                body: SelectBody::Compound(Err(Error::sql("not a view"))),
            },
        },
    };
    ActionStatement::Update(UpdateAction {
        ctx: PlanCtx::new(),
        update: TargetedUpdate {
            name: TargetName { name: "log".to_string(), qualified: "log".to_string() },
            db: Ok(Some(DbIndex::main())),
            view: None,
            stmt,
        },
    })
}

#[test]
fn update_action_places_own_columns_after_the_old_new_row() {
    // CREATE TRIGGER trg AFTER UPDATE ON t BEGIN UPDATE log SET y = NEW.a WHERE x = OLD.a; END
    let ct = create(
        "trg",
        Some(TriggerTiming::After),
        TriggerEvent::Update { columns: vec![] },
        vec![update_log()],
    );
    let triggers = on_update(vec![trig("t", ct)], &[0]);
    let upd = as_update(&triggers[0].actions[0].root);
    assert_eq!(upd.table, "log");
    assert!(
        upd.triggers.is_empty(),
        "one-level bound: the UPDATE-log action does NOT compile log's own triggers"
    );
    assert_eq!(upd.assignments.len(), 1);
    assert_eq!(upd.assignments[0].0, 1, "SET y -> log column index 1");
    assert_eq!(col_reg(&upd.assignments[0].1), 3, "NEW.a -> Column(3)");
    match upd.scan.as_ref() {
        PlanNode::Filter { input, predicate } => {
            match predicate {
                EvalExpr::Compare { op: CompareOp::Eq, left, right, .. } => {
                    assert_eq!(col_reg(left), 6, "log.x sits at base 2W = 6");
                    assert_eq!(col_reg(right), 0, "OLD.a -> Column(0)");
                }
                other => panic!("expected Eq compare, got {other:?}"),
            }
            assert!(matches!(input.as_ref(), PlanNode::SeqScan(_)), "trigger action full-scans");
        }
        other => panic!("expected Filter over SeqScan, got {other:?}"),
    }
}

#[test]
fn delete_action_places_own_columns_after_the_old_new_row() {
    // CREATE TRIGGER trg AFTER INSERT ON t BEGIN DELETE FROM log WHERE x = NEW.a; END
    let delete = ActionStatement::Delete(action(PlanNode::Delete(Delete {
        table: "log".to_string(),
        db: DbIndex::main(),
        column_count: 2,
        scan: Box::new(PlanNode::Filter {
            input: Box::new(scan("log")),
            predicate: compare(CompareOp::Eq, column(6), column(3)),
        }),
        returning: vec![],
        triggers: vec![],
        index_key_exprs: vec![],
        index_partial_predicates: vec![],
    })));
    let triggers = on_insert(vec![trig("t", after_insert("trg", vec![delete]))]);
    assert!(triggers[0].actions[0].mutates);
    let del = as_delete(&triggers[0].actions[0].root);
    assert_eq!(del.table, "log");
    assert!(
        del.triggers.is_empty(),
        "one-level bound: the DELETE-log action does NOT compile log's own triggers"
    );
    match del.scan.as_ref() {
        PlanNode::Filter { input, predicate } => {
            match predicate {
                EvalExpr::Compare { op: CompareOp::Eq, left, right, .. } => {
                    assert_eq!(col_reg(left), 6, "log.x sits at base 2W = 6");
                    assert_eq!(col_reg(right), 3, "NEW.a -> Column(3)");
                }
                other => panic!("expected Eq compare, got {other:?}"),
            }
            assert!(matches!(input.as_ref(), PlanNode::SeqScan(_)));
        }
        other => panic!("expected Filter over SeqScan, got {other:?}"),
    }
}

#[test]
fn multiple_matching_triggers_attach_in_deterministic_order() {
    // The schema lists triggers in the order of their names.
    let triggers = on_insert(vec![
        trig("t", after_insert("a_trg", vec![insert_columns("log", &[4, 3], vec![])])),
        trig("t", after_insert("b_trg", vec![log_new()])),
    ]);
    let names: Vec<&str> = triggers.iter().map(|t| t.name.as_str()).collect();
    assert_eq!(names, vec!["a_trg", "b_trg"], "attached in the catalog's (folded-name) order");
}

#[test]
fn instead_of_on_a_table_is_a_loud_error() {
    // CREATE TRIGGER trg INSTEAD OF INSERT ON t BEGIN ..; END
    let ct = create("trg", Some(TriggerTiming::InsteadOf), TriggerEvent::Insert, vec![log_new()]);
    let err = programs(vec![trig("t", ct)], TriggerDmlEvent::Insert).unwrap_err();
    assert!(err.message().contains("INSTEAD OF"), "got {err:?}");
    assert_eq!(
        err.message(),
        "cannot create INSTEAD OF trigger trg on table t (INSTEAD OF is only valid on a view)"
    );
}

#[test]
fn no_triggers_leaves_the_vec_empty() {
    assert!(on_insert(vec![]).is_empty());
}

#[test]
fn new_and_old_rowid_map_to_the_trailing_registers() {
    // CREATE TRIGGER trg AFTER UPDATE ON t
    //   BEGIN INSERT INTO log VALUES (NEW.rowid, OLD.rowid); END
    let cat = cat();
    let target = cat.table_in(DbIndex::main(), "t").unwrap();
    let sources = new_old_sources(target);
    let rowid = |s: &Source<'_>| match s {
        Source::BaseTable { exposed_name, table, base, .. } => {
            (exposed_name.clone(), base + table.columns.len())
        }
        other => panic!("expected the table, got {other:?}"),
    };
    assert_eq!(rowid(&sources[0]), ("OLD".to_string(), 2));
    assert_eq!(rowid(&sources[1]), ("NEW".to_string(), 5));
    let body = vec![insert_columns("log", &[rowid(&sources[1]).1, rowid(&sources[0]).1], vec![])];
    let ct = create(
        "trg",
        Some(TriggerTiming::After),
        TriggerEvent::Update { columns: vec![] },
        body,
    );
    let triggers = on_update(vec![trig("t", ct)], &[0]);
    let action = as_insert(&triggers[0].actions[0].root);
    let rows = values_rows(&action.source);
    assert_eq!(col_reg(&rows[0][0]), 5, "NEW.rowid -> Column(W+C)=5");
    assert_eq!(col_reg(&rows[0][1]), 2, "OLD.rowid -> Column(C)=2");
}

#[test]
fn update_of_a_column_not_on_the_target_never_fires() {
    // CREATE TRIGGER trg BEFORE UPDATE OF zzz ON t BEGIN ..; END
    let trigger = vec![trig("t", update_of(&["zzz"], TriggerTiming::Before))];
    assert!(on_update(trigger, &[0]).is_empty(), "UPDATE OF a non-existent column never fires");
}

#[test]
fn a_stored_trigger_that_does_not_reparse_to_create_trigger_is_a_loud_error() {
    // The stored text is `SELECT 1`.
    let bad = |text| TriggerDef {
        name: "bad".to_string(),
        db: DbIndex::main(),
        table: "t".to_string(),
        text,
    };
    let err = programs(vec![bad(Ok(vec![ParsedStatement::Other]))], TriggerDmlEvent::Insert)
        .unwrap_err();
    assert!(err.message().contains("did not re-parse to a CREATE TRIGGER"), "got {err:?}");
    let view = ParsedStatement::CreateView(CreateView { columns: None });
    let err = programs(vec![bad(Ok(vec![view]))], TriggerDmlEvent::Insert).unwrap_err();
    assert_eq!(err.message(), "stored trigger bad did not re-parse to a CREATE TRIGGER");
    let err = programs(vec![bad(Ok(vec![]))], TriggerDmlEvent::Insert).unwrap_err();
    assert_eq!(err.message(), "stored trigger bad did not re-parse to a single statement");
    let err =
        programs(vec![bad(Err(Error::sql("near \"x\"")))], TriggerDmlEvent::Insert).unwrap_err();
    assert_eq!(err.message(), "near \"x\"");
}

#[test]
fn a_non_dml_trigger_body_statement_is_a_loud_error() {
    // CREATE TABLE z (a)
    let err = compile_action(&cat(), ActionStatement::Other, 6).unwrap_err();
    assert!(
        err.message().contains("must be INSERT, UPDATE, DELETE or SELECT"),
        "got {err:?}"
    );
}

#[test]
fn self_referential_trigger_compiles_without_unbounded_expansion() {
    // CREATE TRIGGER trg AFTER INSERT ON t BEGIN INSERT INTO t VALUES (NEW.a, NEW.b); END
    let triggers =
        on_insert(vec![trig("t", after_insert("trg", vec![insert_columns("t", &[3, 4], vec![])]))]);
    assert_eq!(triggers.len(), 1, "the trigger fires on the INSERT");
    let action = as_insert(&triggers[0].actions[0].root);
    assert_eq!(action.table, "t", "the action re-inserts into t");
    assert!(
        action.triggers.is_empty(),
        "one-level bound: the action does NOT re-compile t's own triggers"
    );
}

/// A `SELECT` of one register over a row source, as an action.
fn select_action(
    source: PlanNode,
    residual: Option<EvalExpr>,
    register: usize,
) -> ActionStatement<'static> {
    let body = SelectCore::Query {
        from: CoreFrom {
            resolved: Ok(vec![]),
            bound_where: Ok(()),
            built: Ok((source, residual)),
        },
        result: Ok(ResultList {
            grouping: None,
            projections: vec![column(register)],
            names: vec!["y".to_string()],
            collations: vec![None],
            defined: vec![None],
            windows: vec![],
        }),
        tail: QueryTail { distinct: false, order_by: vec![], limit: None },
    };
    let select = Select { with: None, body: SelectBody::Select(body) };
    ActionStatement::Select(SelectAction { ctx: PlanCtx::new(), select })
}

#[test]
fn select_action_over_a_base_table_at_nonzero_base_does_not_misfold_a_seek() {
    // CREATE TRIGGER trg AFTER DELETE ON t
    //   BEGIN SELECT y FROM log WHERE OLD.rowid = 9; END
    let predicate = compare(CompareOp::Eq, column(2), integer(9));
    let ct = create(
        "trg",
        Some(TriggerTiming::After),
        TriggerEvent::Delete,
        vec![select_action(scan("log"), Some(predicate), 7)],
    );
    let triggers = on_delete(vec![trig("t", ct)]);
    assert!(!triggers[0].actions[0].mutates);
    let under = match &triggers[0].actions[0].root {
        PlanNode::Project { input, .. } => input.as_ref(),
        other => panic!("expected Project at the action root, got {other:?}"),
    };
    match under {
        PlanNode::Filter { input, predicate } => {
            match predicate {
                EvalExpr::Compare { op: CompareOp::Eq, left, right, .. } => {
                    assert_eq!(col_reg(left), 2, "OLD.rowid is Column(C)=Column(2)");
                    assert!(matches!(right.as_ref(), EvalExpr::Literal(Value::Integer(9))));
                }
                other => panic!("expected an Eq compare, got {other:?}"),
            }
            assert!(
                matches!(input.as_ref(), PlanNode::SeqScan(s) if s.table == "log"),
                "the action must FULL-SCAN log, not seek it: {input:?}"
            );
        }
        other => panic!("expected a Filter over SeqScan, got {other:?}"),
    }
}

#[test]
fn trigger_action_with_a_flat_join_from_binds_sources_after_the_frame() {
    // CREATE TRIGGER trg AFTER INSERT ON t
    //   BEGIN SELECT log.y FROM log JOIN t AS t2 ON log.x = t2.a; END
    let join = PlanNode::Join(Join {
        left: Box::new(scan("log")),
        left_width: 3,
        right: Box::new(scan("t")),
        right_width: 3,
        join_type: JoinType::Inner,
        on: Some(compare(CompareOp::Eq, column(6), column(9))),
        strategy: JoinStrategy::NestedLoop,
    });
    let triggers =
        on_insert(vec![trig("t", after_insert("trg", vec![select_action(join, None, 7)]))]);
    let under = match &triggers[0].actions[0].root {
        PlanNode::Project { exprs, input } => {
            assert_eq!(col_reg(&exprs[0]), 7, "log.y at base 6 (schema index 1) => reg 7");
            input.as_ref()
        }
        other => panic!("expected Project at the action root, got {other:?}"),
    };
    match under {
        PlanNode::Join(j) => {
            assert_eq!(j.left_width, 3, "log width 3 (x,y,rowid)");
            assert_eq!(j.right_width, 3, "t2 width 3 (a,b,rowid)");
        }
        other => panic!("expected a Join under the projection, got {other:?}"),
    }
}

#[test]
fn a_trigger_of_another_namespace_does_not_fire() {
    let mut other = trig("t", after_insert("other", vec![]));
    other.db = DbIndex { index: 1 };
    let triggers = on_insert(vec![other, trig("T", after_insert("own", vec![]))]);
    let names: Vec<&str> = triggers.iter().map(|t| t.name.as_str()).collect();
    assert_eq!(names, vec!["own"]);
}

#[test]
fn a_condition_that_does_not_bind_is_the_error_of_the_trigger() {
    let mut ct = after_insert("trg", vec![ActionStatement::Other]);
    ct.when = Some(Err(Error::sql("no such column: NEW.z")));
    let err = programs(vec![trig("t", ct)], TriggerDmlEvent::Insert).unwrap_err();
    assert_eq!(err.message(), "no such column: NEW.z");
    let body = vec![log_new(), ActionStatement::Insert(Err(Error::sql("no such table: q")))];
    let err = programs(vec![trig("t", after_insert("trg", body))], TriggerDmlEvent::Insert)
        .unwrap_err();
    assert_eq!(err.message(), "no such table: q");
}
