//! The plan vocabulary, the side tables of a plan, `pragma_*` table functions, and what the
//! planner hands out for filling an index.

use minisqlite_plan::access::SeqScan;
use minisqlite_plan::catalog::{Catalog, ColumnDef, PragmaFunction, TableDef};
use minisqlite_plan::compile::pragma_tvf::{classify, compile, pragma_columns};
use minisqlite_plan::error::Error;
use minisqlite_plan::expr::EvalExpr;
use minisqlite_plan::plan::{
    CheckConstraint, CtePlan, GeneratedProgram, Insert, Join, JoinStrategy, JoinType, OnConflict,
    Plan, PlanNode, SetOp, SetOpKind, SubPlan, TableGenerated, TriggerProgram, TriggerTiming,
};
use minisqlite_plan::query_planner::CreateIndex;
use minisqlite_plan::types::{Affinity, Collation, DbIndex, Value};
use minisqlite_plan::QueryPlanner;

fn integer(i: i64) -> EvalExpr {
    EvalExpr::Literal(Value::Integer(i))
}

#[test]
fn filter_over_seqscan_is_constructible_and_debuggable() {
    let scan = PlanNode::SeqScan(SeqScan {
        table: "t".to_string(),
        db: DbIndex::main(),
        column_count: 2,
    });
    let root = PlanNode::Filter { input: Box::new(scan), predicate: EvalExpr::Column(0) };
    let plan = Plan {
        root,
        result_columns: vec!["a".to_string(), "b".to_string()],
        ctes: Vec::new(),
        subqueries: Vec::new(),
        mutates: false,
        generated: Vec::new(),
    };
    let cloned = plan.clone();
    assert!(!format!("{plan:?}").is_empty());
    assert!(!format!("{cloned:?}").is_empty());
}

/// `INSERT INTO t ..` of one column, with triggers and checks.
fn insert_with(triggers: Vec<TriggerProgram>, checks: Vec<CheckConstraint>) -> Insert {
    Insert {
        table: "t".to_string(),
        db: DbIndex::main(),
        column_count: 1,
        columns: None,
        source: Box::new(PlanNode::SingleRow),
        source_width: 0,
        column_affinities: vec![Affinity::Integer],
        on_conflict: OnConflict::Abort,
        returning: Vec::new(),
        triggers,
        checks,
        rowid_source: None,
        upsert: None,
        index_key_exprs: Vec::new(),
        index_partial_predicates: Vec::new(),
    }
}

fn program_of(action: Plan) -> TriggerProgram {
    TriggerProgram {
        name: "trg".to_string(),
        timing: TriggerTiming::After,
        when: Some(EvalExpr::Column(0)),
        actions: vec![action],
    }
}

fn values_plan() -> Plan {
    Plan {
        root: PlanNode::Values { rows: vec![vec![integer(1)]] },
        result_columns: Vec::new(),
        ctes: Vec::new(),
        subqueries: Vec::new(),
        mutates: true,
        generated: Vec::new(),
    }
}

#[test]
fn trigger_program_composes_and_rides_on_a_dml_node() {
    let insert = insert_with(vec![program_of(values_plan())], Vec::new());
    let cloned = insert.clone();
    assert_eq!(cloned.triggers.len(), 1);
    assert_eq!(cloned.triggers[0].actions.len(), 1, "the action Plan survives the clone");
    assert!(cloned.triggers[0].when.is_some());
    assert!(matches!(cloned.triggers[0].timing, TriggerTiming::After));
    assert!(!format!("{insert:?}").is_empty());
}

#[test]
fn check_constraint_composes_and_rides_on_a_dml_node() {
    let check = CheckConstraint { expr: EvalExpr::Column(0), detail: "t".to_string() };
    let insert = insert_with(Vec::new(), vec![check]);
    let cloned = insert.clone();
    assert_eq!(cloned.checks.len(), 1, "the check survives the clone");
    assert_eq!(cloned.checks[0].detail, "t");
    assert!(!format!("{insert:?}").is_empty());
}

#[test]
fn a_clone_is_the_same_plan() {
    let scan = |name: &str| {
        PlanNode::SeqScan(SeqScan { table: name.to_string(), db: DbIndex::main(), column_count: 2 })
    };
    let join = PlanNode::Join(Join {
        left: Box::new(scan("l")),
        left_width: 3,
        right: Box::new(PlanNode::Distinct {
            input: Box::new(scan("r")),
            column_collations: vec![Collation::NoCase, Collation::Binary],
        }),
        right_width: 3,
        join_type: JoinType::Left,
        on: Some(EvalExpr::IsNull(Box::new(EvalExpr::Column(4)))),
        strategy: JoinStrategy::Hash {
            left_keys: vec![EvalExpr::Column(0)],
            right_keys: vec![EvalExpr::Column(3)],
            key_collations: vec![Collation::Rtrim],
        },
    });
    let union = PlanNode::SetOp(SetOp {
        op: SetOpKind::Union,
        left: Box::new(join),
        right: Box::new(PlanNode::CteScan { id: 0, column_count: 6 }),
        column_collations: vec![Collation::Binary; 6],
    });
    let mut action = values_plan();
    action.ctes.push(CtePlan::Recursive {
        name: "c".to_string(),
        column_count: 1,
        seed: PlanNode::SingleRow,
        step: PlanNode::RecursiveScan { column_count: 1 },
        union_all: true,
    });
    action.subqueries.push(SubPlan {
        plan: union,
        correlated: true,
        correlated_cols: vec![1, 4],
        deterministic: false,
        outer_width: 5,
    });
    let check = CheckConstraint { expr: EvalExpr::Column(0), detail: "t".to_string() };
    let plan = Plan {
        root: PlanNode::Insert(insert_with(vec![program_of(action)], vec![check])),
        ..values_plan()
    };
    let shown = format!("{plan:?}");
    assert_eq!(format!("{:?}", plan.clone()), shown);
    assert!(shown.contains("Rtrim") && shown.contains("RecursiveScan"));
}

#[test]
fn insert_over_values_is_constructible_and_debuggable() {
    let values = PlanNode::Values { rows: vec![vec![integer(1)]] };
    let root = PlanNode::Insert(Insert {
        table: "t".to_string(),
        db: DbIndex::main(),
        column_count: 1,
        columns: None,
        source: Box::new(values),
        source_width: 1,
        column_affinities: vec![Affinity::Integer],
        on_conflict: OnConflict::Abort,
        returning: Vec::new(),
        triggers: Vec::new(),
        checks: Vec::new(),
        rowid_source: None,
        upsert: None,
        index_key_exprs: Vec::new(),
        index_partial_predicates: Vec::new(),
    });
    let plan = Plan {
        root,
        result_columns: Vec::new(),
        ctes: Vec::new(),
        subqueries: Vec::new(),
        mutates: true,
        generated: Vec::new(),
    };
    assert!(plan.mutates);
    assert!(!format!("{plan:?}").is_empty());
}

fn program(col_index: usize, stored: bool) -> GeneratedProgram {
    GeneratedProgram { col_index, expr: integer(1), stored, affinity: Affinity::Integer }
}

#[test]
fn generated_programs_are_kept_by_namespace_and_name() {
    let main = DbIndex::main();
    let temp = DbIndex { index: 1 };
    let entry = |db: DbIndex, table: &str, programs: Vec<GeneratedProgram>| TableGenerated {
        db,
        table: table.to_string(),
        programs,
    };
    let plan = Plan {
        root: PlanNode::SeqScan(SeqScan { table: "t".to_string(), db: main, column_count: 2 }),
        result_columns: vec![],
        ctes: vec![],
        subqueries: vec![],
        mutates: false,
        generated: vec![
            entry(temp, "t", vec![program(0, true)]),
            entry(main, "T", vec![program(1, false), program(2, true)]),
        ],
    };
    let found = plan.generated_programs(main, "t");
    assert_eq!(found.len(), 2);
    assert_eq!(found[0].col_index, 1);
    assert!(found[0].is_virtual());
    assert!(!found[1].is_virtual());
    assert_eq!(plan.generated_programs(temp, "t").len(), 1);
    assert!(plan.generated_programs(DbIndex { index: 2 }, "t").is_empty());
    assert!(plan.generated_programs(main, "u").is_empty());
}

fn table_info() -> PragmaFunction {
    PragmaFunction {
        name: "table_info".to_string(),
        columns: ["cid", "name", "type", "notnull", "dflt_value", "pk"]
            .iter()
            .map(|c| c.to_string())
            .collect(),
    }
}

#[test]
fn a_pragma_function_has_no_schema_before_its_name() {
    assert!(classify(&None, Some(table_info())).is_some());
    assert!(classify(&Some("main".to_string()), Some(table_info())).is_none());
    assert!(classify(&None, None).is_none());
}

#[test]
fn the_columns_of_a_pragma_function_have_no_affinity() {
    let columns = pragma_columns(&table_info());
    assert_eq!(columns.len(), 6);
    assert_eq!(columns[1].name, "name");
    for c in &columns {
        assert_eq!((c.affinity, c.collation, c.hidden), (Affinity::Blob, Collation::Binary, false));
    }
}

#[test]
fn a_pragma_function_takes_up_to_two_arguments() {
    let name = "pragma_table_info";
    match compile(name, table_info(), vec![]).unwrap() {
        PlanNode::PragmaFunctionScan { name_arg: None, schema_arg: None, column_count, .. } => {
            assert_eq!(column_count, 6)
        }
        other => panic!("expected the scan, got {other:?}"),
    }
    match compile(name, table_info(), vec![Ok(integer(1))]).unwrap() {
        PlanNode::PragmaFunctionScan { name_arg: Some(_), schema_arg: None, .. } => {}
        other => panic!("expected the scan, got {other:?}"),
    }
    match compile(name, table_info(), vec![Ok(integer(1)), Ok(integer(2))]).unwrap() {
        PlanNode::PragmaFunctionScan { name_arg, schema_arg, .. } => {
            assert!(matches!(name_arg, Some(EvalExpr::Literal(Value::Integer(1)))));
            assert!(matches!(schema_arg, Some(EvalExpr::Literal(Value::Integer(2)))));
        }
        other => panic!("expected the scan, got {other:?}"),
    }
    let three = vec![Err(Error::sql("unbound")), Ok(integer(2)), Ok(integer(3))];
    let err = compile(name, table_info(), three).unwrap_err();
    assert_eq!(err.message(), "wrong number of arguments to function pragma_table_info()");
    let err = compile(name, table_info(), vec![Ok(integer(1)), Err(Error::sql("unbound"))]).unwrap_err();
    assert_eq!(err.message(), "unbound");
}

fn catalog() -> Catalog {
    Catalog {
        tables: vec![TableDef {
            name: "t".to_string(),
            db: DbIndex::main(),
            columns: vec![ColumnDef {
                name: "a".to_string(),
                affinity: Affinity::Integer,
                collation: Collation::Binary,
                generated: None,
            }],
            without_rowid: false,
            rowid_alias: None,
        }],
        indexes: vec![],
    }
}

#[test]
fn an_index_is_filled_from_the_table_of_its_own_namespace() {
    let planner = QueryPlanner::default();
    let cat = catalog();
    let main = DbIndex::main();
    let temp = DbIndex { index: 1 };
    let bound = || Ok(vec![program(0, true)]);
    assert_eq!(planner.table_generated_programs(&cat, main, "T", bound()).unwrap().len(), 1);
    assert!(planner.table_generated_programs(&cat, temp, "t", bound()).unwrap().is_empty());
    let unbound = Err(Error::sql("unbound"));
    assert!(planner.table_generated_programs(&cat, main, "u", unbound).unwrap().is_empty());

    let index = |table: &str, partial: bool| CreateIndex {
        table: table.to_string(),
        keys: Ok(vec![None, Some(integer(1))]),
        where_clause: if partial { Some(Ok(integer(2))) } else { None },
    };
    assert_eq!(planner.index_key_programs(&cat, main, index("t", false)).unwrap().len(), 2);
    assert!(planner.index_key_programs(&cat, temp, index("t", false)).unwrap().is_empty());

    assert!(planner.index_partial_predicate(&cat, main, index("t", false)).unwrap().is_none());
    assert!(planner.index_partial_predicate(&cat, main, index("t", true)).unwrap().is_some());
    assert!(planner.index_partial_predicate(&cat, temp, index("t", true)).unwrap().is_none());
    let failing = CreateIndex { where_clause: Some(Err(Error::sql("no such column: z"))), ..index("t", true) };
    let err = planner.index_partial_predicate(&cat, main, failing).unwrap_err();
    assert_eq!(err.message(), "no such column: z");
}
