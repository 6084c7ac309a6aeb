//! Window functions: what a call computes, its frame, and named windows.

use minisqlite_plan::access::SeqScan;
use minisqlite_plan::catalog::{Catalog, ColumnDef, TableDef};
use minisqlite_plan::compile::notes::PlanNotes;
use minisqlite_plan::compile::ordering::{NullsOrder, SortOrder};
use minisqlite_plan::compile::select::{
    window_input_width, CoreFrom, QueryTail, ResultList, Select, SelectBody, SelectCore,
};
use minisqlite_plan::compile::window::{
    arg_count, bind_window_function, is_aggregate_window, is_builtin_window_name, BoundOrderTerm,
    BoundPartition, BoundaryClause, FrameClause, FunctionArgs, RegistryFacts,
    WindowCall, WindowClauses, Windowing,
};
use minisqlite_plan::compile::window_chain::{OverClause, WindowDef, WindowSpec};
use minisqlite_plan::error::Error;
use minisqlite_plan::expr::{CompareMeta, CompareOp, EvalExpr};
use minisqlite_plan::plan::{Plan, PlanNode, Window, WindowFunc};
use minisqlite_plan::query_planner::Statement;
use minisqlite_plan::scope::Source;
use minisqlite_plan::types::{Affinity, Collation, DbIndex, Value};
use minisqlite_plan::window::{
    FrameBound, FrameExclude, FrameUnits, WindowFrame, WindowFuncKind,
};
use minisqlite_plan::{PlanCtx, Planner, QueryPlanner};

fn col(name: &str) -> ColumnDef {
    ColumnDef {
        name: name.to_string(),
        affinity: Affinity::Integer,
        collation: Collation::Binary,
        generated: None,
    }
}

/// `t(id, grp, v)`: a row is `[id, grp, v, rowid]`, so window results begin in register 4.
fn cat() -> Catalog {
    Catalog {
        tables: vec![TableDef {
            name: "t".to_string(),
            db: DbIndex::main(),
            columns: vec![col("id"), col("grp"), col("v")],
            without_rowid: false,
            rowid_alias: None,
        }],
        indexes: vec![],
    }
}

const ID: usize = 0;
const GRP: usize = 1;
const V: usize = 2;

fn column(i: usize) -> EvalExpr {
    EvalExpr::Column(i)
}

fn integer(i: i64) -> EvalExpr {
    EvalExpr::Literal(Value::Integer(i))
}

fn greater(left: EvalExpr, right: EvalExpr) -> EvalExpr {
    EvalExpr::Compare {
        op: CompareOp::Gt,
        left: Box::new(left),
        right: Box::new(right),
        meta: CompareMeta { apply_left: None, apply_right: None, collation: Collation::Binary },
        null_safe: false,
    }
}

fn list(args: Vec<EvalExpr>) -> FunctionArgs {
    FunctionArgs::List(args.into_iter().map(Ok).collect())
}

/// What the registry knows of the functions that the tests name.
fn facts(name: &str) -> RegistryFacts {
    let is_aggregate = name == "sum" || name == "count";
    let is_known = is_aggregate || name == "length";
    RegistryFacts {
        is_aggregate,
        is_known,
        resolved: if is_known {
            Ok(name.to_string())
        } else {
            Err(Error::sql(&format!("no such function: {name}")))
        },
    }
}

fn call(name: &str, args: FunctionArgs) -> WindowCall {
    WindowCall {
        name: name.to_string(),
        distinct: false,
        args,
        arg_collations: vec![Collation::Binary],
        filter: None,
        order_by: vec![],
        registry: facts(name),
    }
}

fn sum_v() -> WindowCall {
    call("sum", list(vec![column(V)]))
}

fn term(i: usize) -> BoundOrderTerm {
    BoundOrderTerm {
        expr: Ok(column(i)),
        order: None,
        nulls: None,
        collation: None,
        own_collation: Collation::Binary,
    }
}

fn partition(i: usize) -> BoundPartition {
    BoundPartition { expr: Ok(column(i)), collation: Collation::Binary }
}

/// What a call is over: its `OVER`, the `WINDOW` clause, and the clauses that they name.
struct Over {
    clause: OverClause,
    windows: Vec<WindowDef>,
    clauses: WindowClauses,
}

/// `OVER (PARTITION BY <partition_by> ORDER BY <order_by> <frame>)`
fn over(
    partition_by: Vec<BoundPartition>,
    order_by: Vec<BoundOrderTerm>,
    frame: Option<FrameClause>,
) -> Over {
    let written = spec(
        None,
        (0..partition_by.len()).collect(),
        (0..order_by.len()).collect(),
        frame.as_ref().map(|_| 0),
    );
    Over {
        clause: OverClause::Spec(written),
        windows: vec![],
        clauses: WindowClauses {
            partitions: partition_by,
            orders: order_by,
            frames: frame.into_iter().collect(),
        },
    }
}

fn over_all() -> Over {
    over(vec![], vec![], None)
}

fn over_id() -> Over {
    over(vec![], vec![term(ID)], None)
}

fn bind(windowing: &mut Windowing, allowed: bool, call: WindowCall, o: Over) -> Result<EvalExpr, Error> {
    bind_window_function(windowing, allowed, call, &o.clause, &o.windows, o.clauses)
}

fn frame(units: FrameUnits, start: BoundaryClause, end: Option<BoundaryClause>) -> FrameClause {
    FrameClause { units, start, end, exclude: None }
}

/// Plan `SELECT <leading>, <calls> FROM t`.
fn try_plan(
    leading: Vec<EvalExpr>,
    calls: Vec<(WindowCall, Over)>,
    names: Vec<&str>,
) -> Result<Plan, Error> {
    let cat = cat();
    let sources = vec![Source::BaseTable {
        exposed_name: "t".to_string(),
        table: &cat.tables[0],
        db: DbIndex::main(),
        base: 0,
    }];
    let mut windowing =
        Windowing { input_width: window_input_width(&sources, 0), functions: vec![] };
    let mut projections = leading;
    for (call, over) in calls {
        projections.push(bind(&mut windowing, true, call, over)?);
    }
    let n = projections.len();
    let body = SelectCore::Query {
        from: CoreFrom {
            resolved: Ok(sources),
            bound_where: Ok(()),
            built: Ok((
                PlanNode::SeqScan(SeqScan {
                    table: "t".to_string(),
                    db: DbIndex::main(),
                    column_count: 3,
                }),
                None,
            )),
        },
        result: Ok(ResultList {
            grouping: None,
            projections,
            names: names.into_iter().map(str::to_string).collect(),
            collations: (0..n).map(|_| None).collect(),
            defined: (0..n).map(|_| None).collect(),
            windows: windowing.functions,
        }),
        tail: QueryTail { distinct: false, order_by: vec![], limit: None },
    };
    let statement = Statement::Select(Select { with: None, body: SelectBody::Select(body) });
    QueryPlanner::new().plan(PlanCtx::new(), &cat, statement, Ok(PlanNotes::none()))
}

fn plan(call: WindowCall, window: Over) -> Plan {
    try_plan(vec![], vec![(call, window)], vec!["w"]).expect("plan ok")
}

fn plan_err(call: WindowCall, window: Over) -> String {
    match try_plan(vec![], vec![(call, window)], vec!["w"]) {
        Ok(p) => panic!("expected a planning error, got {p:?}"),
        Err(e) => e.message().to_string(),
    }
}

fn root_project(p: &Plan) -> (&[EvalExpr], &PlanNode) {
    match &p.root {
        PlanNode::Project { exprs, input } => (exprs, input),
        other => panic!("expected Project root, got {other:?}"),
    }
}

fn window_under(n: &PlanNode) -> &Window {
    match n {
        PlanNode::Window(w) => w,
        other => panic!("expected a Window node, got {other:?}"),
    }
}

fn only_func(p: &Plan) -> &WindowFunc {
    let (_, input) = root_project(p);
    let w = window_under(input);
    assert_eq!(w.functions.len(), 1, "expected exactly one window function");
    &w.functions[0]
}

fn assert_default_frame(f: &WindowFunc) {
    assert_eq!(f.frame.units, FrameUnits::Range);
    assert!(matches!(f.frame.start, FrameBound::UnboundedPreceding));
    assert!(matches!(f.frame.end, FrameBound::CurrentRow));
    assert_eq!(f.frame.exclude, FrameExclude::NoOthers);
}

// Aggregates over a window.

#[test]
fn agg_over_empty_window_is_a_window_over_the_scan() {
    // SELECT id, sum(v) OVER () FROM t
    let p = try_plan(vec![column(ID)], vec![(sum_v(), over_all())], vec!["id", "s"]).unwrap();
    let (exprs, input) = root_project(&p);
    assert!(matches!(exprs[0], EvalExpr::Column(0)));
    assert!(matches!(exprs[1], EvalExpr::Column(4)), "window col at input_width, got {:?}", exprs[1]);
    let w = window_under(input);
    assert!(matches!(*w.input, PlanNode::SeqScan(_)));
    let f = &w.functions[0];
    assert!(f.partition_by.is_empty(), "OVER () has no PARTITION BY");
    assert!(f.order_by.is_empty(), "OVER () has no ORDER BY");
    match &f.kind {
        WindowFuncKind::Aggregate(call) => {
            assert_eq!(call.args.len(), 1);
            assert!(matches!(call.args[0], EvalExpr::Column(2)), "sum(v) reads v = Column(2)");
        }
        other => panic!("expected an Aggregate kind, got {other:?}"),
    }
    assert_default_frame(f);
}

#[test]
fn count_star_over_empty_window_has_no_args() {
    // SELECT count(*) OVER () FROM t
    let mut count = call("count", FunctionArgs::Star);
    count.arg_collations = vec![];
    let p = plan(count, over_all());
    match &only_func(&p).kind {
        WindowFuncKind::Aggregate(call) => {
            assert!(call.args.is_empty(), "count(*) binds zero args")
        }
        other => panic!("expected an Aggregate kind, got {other:?}"),
    }
}

#[test]
fn aggregate_window_filter_is_carried_on_the_call() {
    // SELECT sum(v) FILTER (WHERE v > 10) OVER () FROM t
    let mut sum = sum_v();
    sum.filter = Some(Ok(greater(column(V), integer(10))));
    let p = plan(sum, over_all());
    match &only_func(&p).kind {
        WindowFuncKind::Aggregate(call) => match &call.filter {
            Some(EvalExpr::Compare { op: CompareOp::Gt, left, right, .. }) => {
                assert!(matches!(**left, EvalExpr::Column(2)), "FILTER reads v = Column(2)");
                assert!(matches!(**right, EvalExpr::Literal(Value::Integer(10))));
            }
            other => panic!("expected a bound `v > 10` filter, got {other:?}"),
        },
        other => panic!("expected Aggregate, got {other:?}"),
    }
}

#[test]
fn partition_by_and_order_by_bind_against_the_input_row() {
    // SELECT sum(v) OVER (PARTITION BY grp ORDER BY id) FROM t
    let p = plan(sum_v(), over(vec![partition(GRP)], vec![term(ID)], None));
    let f = only_func(&p);
    assert_eq!(f.partition_by.len(), 1);
    assert!(matches!(f.partition_by[0], EvalExpr::Column(1)));
    assert_eq!(f.order_by.len(), 1);
    assert!(matches!(f.order_by[0].expr, EvalExpr::Column(0)));
    assert!(!f.order_by[0].desc);
}

#[test]
fn desc_window_order_by_sets_desc_on_the_sort_key() {
    // SELECT sum(v) OVER (ORDER BY v DESC) FROM t
    let t = BoundOrderTerm { order: Some(SortOrder::Desc), ..term(V) };
    let p = plan(sum_v(), over(vec![], vec![t], None));
    let f = only_func(&p);
    assert_eq!(f.order_by.len(), 1);
    assert!(matches!(f.order_by[0].expr, EvalExpr::Column(2)));
    assert!(f.order_by[0].desc, "ORDER BY v DESC must set desc=true");
}

#[test]
fn window_order_by_nulls_first_and_last_thread_through() {
    // SELECT sum(v) OVER (ORDER BY v NULLS FIRST) FROM t
    let first = BoundOrderTerm { nulls: Some(NullsOrder::First), ..term(V) };
    let p = plan(sum_v(), over(vec![], vec![first], None));
    assert_eq!(only_func(&p).order_by[0].nulls_first, Some(true));
    // SELECT sum(v) OVER (ORDER BY v NULLS LAST) FROM t
    let last = BoundOrderTerm { nulls: Some(NullsOrder::Last), ..term(V) };
    let p = plan(sum_v(), over(vec![], vec![last], None));
    assert_eq!(only_func(&p).order_by[0].nulls_first, Some(false));
}

#[test]
fn window_order_by_explicit_collate_is_carried_on_the_sort_key() {
    // SELECT sum(v) OVER (ORDER BY v COLLATE NOCASE) FROM t
    let t = BoundOrderTerm { collation: Some(Ok(Collation::NoCase)), ..term(V) };
    let p = plan(sum_v(), over(vec![], vec![t], None));
    assert_eq!(only_func(&p).order_by[0].collation, Collation::NoCase);
}

#[test]
fn multi_key_partition_and_multi_term_order_collect_every_term() {
    // SELECT sum(v) OVER (PARTITION BY grp, id ORDER BY v, id) FROM t
    let p = plan(
        sum_v(),
        over(vec![partition(GRP), partition(ID)], vec![term(V), term(ID)], None),
    );
    let f = only_func(&p);
    assert_eq!(f.partition_by.len(), 2);
    assert!(matches!(f.partition_by[0], EvalExpr::Column(1)));
    assert!(matches!(f.partition_by[1], EvalExpr::Column(0)));
    assert_eq!(f.order_by.len(), 2);
    assert!(matches!(f.order_by[0].expr, EvalExpr::Column(2)));
    assert!(matches!(f.order_by[1].expr, EvalExpr::Column(0)));
}

#[test]
fn two_window_calls_append_two_columns_in_order() {
    // SELECT sum(v) OVER (), count(*) OVER () FROM t
    let count = call("count", FunctionArgs::Star);
    let p = try_plan(
        vec![],
        vec![(sum_v(), over_all()), (count, over_all())],
        vec!["s", "c"],
    )
    .unwrap();
    let (exprs, input) = root_project(&p);
    assert!(matches!(exprs[0], EvalExpr::Column(4)));
    assert!(matches!(exprs[1], EvalExpr::Column(5)));
    assert_eq!(window_under(input).functions.len(), 2);
}

// Ranking functions.

#[test]
fn row_number_binds_to_the_row_number_kind() {
    // SELECT row_number() OVER (ORDER BY id) FROM t
    let p = plan(call("row_number", FunctionArgs::Empty), over_id());
    assert!(matches!(only_func(&p).kind, WindowFuncKind::RowNumber));
}

#[test]
fn rank_family_maps_to_its_kinds() {
    let of = |name: &str| plan(call(name, FunctionArgs::Empty), over(vec![], vec![term(V)], None));
    assert!(matches!(only_func(&of("rank")).kind, WindowFuncKind::Rank));
    assert!(matches!(only_func(&of("dense_rank")).kind, WindowFuncKind::DenseRank));
    assert!(matches!(only_func(&of("percent_rank")).kind, WindowFuncKind::PercentRank));
    assert!(matches!(only_func(&of("cume_dist")).kind, WindowFuncKind::CumeDist));
}

#[test]
fn ranking_functions_reject_arguments() {
    for name in ["row_number", "rank", "percent_rank", "cume_dist"] {
        let msg = plan_err(call(name, list(vec![column(V)])), over_all());
        assert!(msg.contains("wrong number of arguments"), "got: {msg}");
        assert_eq!(msg, format!("wrong number of arguments to function {name}()"));
    }
}

#[test]
fn ntile_binds_its_bucket_count_argument() {
    // SELECT ntile(4) OVER (ORDER BY id) FROM t
    match &only_func(&plan(call("ntile", list(vec![integer(4)])), over_id())).kind {
        WindowFuncKind::Ntile(EvalExpr::Literal(Value::Integer(4))) => {}
        other => panic!("expected Ntile(4), got {other:?}"),
    }
    // SELECT ntile() OVER () FROM t
    let msg = plan_err(call("ntile", FunctionArgs::Empty), over_all());
    assert!(msg.contains("wrong number of arguments"));
}

// Offset functions.

#[test]
fn lag_defaults_offset_to_one_and_default_to_null() {
    // SELECT lag(v) OVER (ORDER BY id) FROM t
    match &only_func(&plan(call("lag", list(vec![column(V)])), over_id())).kind {
        WindowFuncKind::Lag { expr, offset, default } => {
            assert!(matches!(expr, EvalExpr::Column(2)), "lag(v): v = Column(2)");
            assert!(matches!(offset, EvalExpr::Literal(Value::Integer(1))), "default offset 1");
            assert!(matches!(default, EvalExpr::Literal(Value::Null)), "default default NULL");
        }
        other => panic!("expected Lag, got {other:?}"),
    }
}

#[test]
fn lead_carries_explicit_offset_and_default() {
    // SELECT lead(v, 2, 0) OVER (ORDER BY id) FROM t
    let args = list(vec![column(V), integer(2), integer(0)]);
    match &only_func(&plan(call("lead", args), over_id())).kind {
        WindowFuncKind::Lead { expr, offset, default } => {
            assert!(matches!(expr, EvalExpr::Column(2)));
            assert!(matches!(offset, EvalExpr::Literal(Value::Integer(2))));
            assert!(matches!(default, EvalExpr::Literal(Value::Integer(0))));
        }
        other => panic!("expected Lead, got {other:?}"),
    }
    // SELECT lead(v, 1, 2, 3) OVER () FROM t
    let args = list(vec![column(V), integer(1), integer(2), integer(3)]);
    assert!(plan_err(call("lead", args), over_all()).contains("wrong number of arguments"));
}

// Value functions.

#[test]
fn first_last_value_bind_their_argument() {
    let p = plan(call("first_value", list(vec![column(V)])), over_id());
    assert!(matches!(only_func(&p).kind, WindowFuncKind::FirstValue(EvalExpr::Column(2))));
    let p = plan(call("last_value", list(vec![column(V)])), over_id());
    assert!(matches!(only_func(&p).kind, WindowFuncKind::LastValue(EvalExpr::Column(2))));
}

#[test]
fn nth_value_binds_expr_and_n() {
    // SELECT nth_value(v, 3) OVER (ORDER BY id) FROM t
    let args = list(vec![column(V), integer(3)]);
    match &only_func(&plan(call("nth_value", args), over_id())).kind {
        WindowFuncKind::NthValue { expr, n } => {
            assert!(matches!(expr, EvalExpr::Column(2)));
            assert!(matches!(n, EvalExpr::Literal(Value::Integer(3))));
        }
        other => panic!("expected NthValue, got {other:?}"),
    }
    // SELECT nth_value(v) OVER () FROM t
    let msg = plan_err(call("nth_value", list(vec![column(V)])), over_all());
    assert!(msg.contains("wrong number of arguments"));
}

#[test]
fn builtin_names_are_matched_whatever_their_case() {
    let p = plan(call("Row_Number", FunctionArgs::Empty), over_id());
    assert!(matches!(only_func(&p).kind, WindowFuncKind::RowNumber));
    for name in [
        "row_number", "rank", "dense_rank", "percent_rank", "cume_dist", "ntile", "lag", "lead",
        "first_value", "last_value", "nth_value",
    ] {
        assert!(is_builtin_window_name(name), "{name}");
    }
    assert!(!is_builtin_window_name("sum"));
    assert!(!is_builtin_window_name(""));
}

#[test]
fn a_name_is_an_aggregate_window_by_the_registry() {
    assert!(is_aggregate_window(&sum_v()));
    assert!(!is_aggregate_window(&call("length", list(vec![column(V)]))));
    assert_eq!(arg_count(&FunctionArgs::Star), 0);
    assert_eq!(arg_count(&FunctionArgs::Empty), 0);
    assert_eq!(arg_count(&list(vec![column(V), column(ID)])), 2);
}

// Frames.

#[test]
fn omitted_frame_is_the_default_frame() {
    // SELECT sum(v) OVER (ORDER BY id) FROM t
    assert_default_frame(only_func(&plan(sum_v(), over_id())));
}

#[test]
fn explicit_rows_frame_binds_units_and_bounds() {
    // SELECT sum(v) OVER (ORDER BY id ROWS BETWEEN 1 PRECEDING AND 1 FOLLOWING) FROM t
    let clause = frame(
        FrameUnits::Rows,
        BoundaryClause::Preceding(Ok(integer(1))),
        Some(BoundaryClause::Following(Ok(integer(1)))),
    );
    let p = plan(sum_v(), over(vec![], vec![term(ID)], Some(clause)));
    let f = only_func(&p);
    assert_eq!(f.frame.units, FrameUnits::Rows);
    match &f.frame.start {
        FrameBound::Preceding(EvalExpr::Literal(Value::Integer(1))) => {}
        other => panic!("expected 1 PRECEDING, got {other:?}"),
    }
    match &f.frame.end {
        FrameBound::Following(EvalExpr::Literal(Value::Integer(1))) => {}
        other => panic!("expected 1 FOLLOWING, got {other:?}"),
    }
    assert_eq!(f.frame.exclude, FrameExclude::NoOthers);
}

#[test]
fn omitted_frame_end_means_current_row() {
    // SELECT sum(v) OVER (ORDER BY id ROWS 2 PRECEDING) FROM t
    let clause = frame(FrameUnits::Rows, BoundaryClause::Preceding(Ok(integer(2))), None);
    let p = plan(sum_v(), over(vec![], vec![term(ID)], Some(clause)));
    let f = only_func(&p);
    assert_eq!(f.frame.units, FrameUnits::Rows);
    assert!(matches!(f.frame.end, FrameBound::CurrentRow), "omitted end => CURRENT ROW");
}

#[test]
fn frame_exclude_is_carried() {
    // SELECT sum(v) OVER (ORDER BY id
    //   GROUPS BETWEEN UNBOUNDED PRECEDING AND CURRENT ROW EXCLUDE TIES) FROM t
    let clause = FrameClause {
        exclude: Some(FrameExclude::Ties),
        ..frame(
            FrameUnits::Groups,
            BoundaryClause::UnboundedPreceding,
            Some(BoundaryClause::CurrentRow),
        )
    };
    let p = plan(sum_v(), over(vec![], vec![term(ID)], Some(clause)));
    let f = only_func(&p);
    assert_eq!(f.frame.units, FrameUnits::Groups);
    assert_eq!(f.frame.exclude, FrameExclude::Ties);
}

#[test]
fn frame_end_before_start_is_rejected() {
    // ROWS BETWEEN CURRENT ROW AND 1 PRECEDING
    let clause = frame(
        FrameUnits::Rows,
        BoundaryClause::CurrentRow,
        Some(BoundaryClause::Preceding(Ok(integer(1)))),
    );
    let msg = plan_err(sum_v(), over(vec![], vec![term(ID)], Some(clause)));
    assert!(msg.contains("may not precede the starting boundary"), "got: {msg}");
}

#[test]
fn frame_short_form_following_start_is_rejected() {
    // ROWS 1 FOLLOWING
    let clause = frame(FrameUnits::Rows, BoundaryClause::Following(Ok(integer(1))), None);
    let msg = plan_err(sum_v(), over(vec![], vec![term(ID)], Some(clause)));
    assert!(msg.contains("may not precede the starting boundary"), "got: {msg}");
}

#[test]
fn frame_starting_with_unbounded_following_is_rejected() {
    // ROWS BETWEEN UNBOUNDED FOLLOWING AND UNBOUNDED FOLLOWING
    let clause = frame(
        FrameUnits::Rows,
        BoundaryClause::UnboundedFollowing,
        Some(BoundaryClause::UnboundedFollowing),
    );
    let msg = plan_err(sum_v(), over(vec![], vec![term(ID)], Some(clause)));
    assert!(msg.contains("may not start with UNBOUNDED FOLLOWING"), "got: {msg}");
}

#[test]
fn frame_ending_with_unbounded_preceding_is_rejected() {
    // ROWS BETWEEN UNBOUNDED PRECEDING AND UNBOUNDED PRECEDING
    let clause = frame(
        FrameUnits::Rows,
        BoundaryClause::UnboundedPreceding,
        Some(BoundaryClause::UnboundedPreceding),
    );
    let msg = plan_err(sum_v(), over(vec![], vec![term(ID)], Some(clause)));
    assert!(msg.contains("may not end with UNBOUNDED PRECEDING"), "got: {msg}");
}

#[test]
fn range_offset_frame_requires_exactly_one_order_by_term() {
    // RANGE BETWEEN 1 PRECEDING AND CURRENT ROW
    let clause = || {
        frame(
            FrameUnits::Range,
            BoundaryClause::Preceding(Ok(integer(1))),
            Some(BoundaryClause::CurrentRow),
        )
    };
    let two = plan_err(sum_v(), over(vec![], vec![term(GRP), term(ID)], Some(clause())));
    assert!(two.contains("exactly one ORDER BY"), "two terms: {two}");
    let zero = plan_err(sum_v(), over(vec![], vec![], Some(clause())));
    assert!(zero.contains("exactly one ORDER BY"), "zero terms: {zero}");
}

#[test]
fn range_offset_frame_with_one_order_by_term_binds() {
    // ORDER BY id RANGE BETWEEN 1 PRECEDING AND CURRENT ROW
    let clause = frame(
        FrameUnits::Range,
        BoundaryClause::Preceding(Ok(integer(1))),
        Some(BoundaryClause::CurrentRow),
    );
    let p = plan(sum_v(), over(vec![], vec![term(ID)], Some(clause)));
    let f = only_func(&p);
    assert_eq!(f.frame.units, FrameUnits::Range);
    assert!(matches!(f.frame.start, FrameBound::Preceding(_)));
}

#[test]
fn range_non_offset_frame_allows_multiple_order_by_terms() {
    // ORDER BY grp, id RANGE BETWEEN UNBOUNDED PRECEDING AND CURRENT ROW
    let clause = frame(
        FrameUnits::Range,
        BoundaryClause::UnboundedPreceding,
        Some(BoundaryClause::CurrentRow),
    );
    let p = plan(sum_v(), over(vec![], vec![term(GRP), term(ID)], Some(clause)));
    assert_eq!(only_func(&p).order_by.len(), 2);
}

// Named windows. A clause is named by its position among those written in the statement:
// partition keys and order terms by the column they read.

fn spec(
    base: Option<&str>,
    partition_by: Vec<usize>,
    order_by: Vec<usize>,
    frame: Option<usize>,
) -> WindowSpec {
    WindowSpec { base: base.map(str::to_string), partition_by, order_by, frame }
}

fn def(name: &str, spec: WindowSpec) -> WindowDef {
    WindowDef { name: name.to_string(), spec }
}

fn named(name: &str) -> OverClause {
    OverClause::WindowName(name.to_string())
}

/// Plan `SELECT sum(v) OVER <over> FROM t WINDOW <windows>`.
fn plan_named(o: OverClause, windows: Vec<WindowDef>) -> Result<Plan, Error> {
    let rows = frame(
        FrameUnits::Rows,
        BoundaryClause::UnboundedPreceding,
        Some(BoundaryClause::CurrentRow),
    );
    let clauses = WindowClauses {
        partitions: (0..3).map(partition).collect(),
        orders: (0..3).map(term).collect(),
        frames: vec![rows],
    };
    try_plan(vec![], vec![(sum_v(), Over { clause: o, windows, clauses })], vec!["s"])
}

fn named_err(o: OverClause, windows: Vec<WindowDef>) -> String {
    plan_named(o, windows).unwrap_err().message().to_string()
}

#[test]
fn named_window_resolves_to_the_same_spec() {
    // OVER w .. WINDOW w AS (PARTITION BY grp ORDER BY id)
    let p = plan_named(named("w"), vec![def("w", spec(None, vec![GRP], vec![ID], None))]).unwrap();
    let f = only_func(&p);
    assert!(matches!(f.partition_by[0], EvalExpr::Column(1)));
    assert!(matches!(f.order_by[0].expr, EvalExpr::Column(0)));
}

#[test]
fn window_chaining_inherits_partition_and_order_from_base() {
    // OVER w2 .. WINDOW w1 AS (PARTITION BY grp ORDER BY id),
    //   w2 AS (w1 ROWS BETWEEN UNBOUNDED PRECEDING AND CURRENT ROW)
    let p = plan_named(
        named("w2"),
        vec![
            def("w1", spec(None, vec![GRP], vec![ID], None)),
            def("w2", spec(Some("w1"), vec![], vec![], Some(0))),
        ],
    )
    .unwrap();
    let f = only_func(&p);
    assert!(matches!(f.partition_by[0], EvalExpr::Column(1)), "PARTITION BY grp from base");
    assert!(matches!(f.order_by[0].expr, EvalExpr::Column(0)), "ORDER BY id from base");
    assert_eq!(f.frame.units, FrameUnits::Rows, "frame from the referencing window");
}

#[test]
fn chaining_rejects_partition_by_on_the_referencing_window() {
    // OVER (w1 PARTITION BY id) .. WINDOW w1 AS (PARTITION BY grp)
    let msg = named_err(
        OverClause::Spec(spec(Some("w1"), vec![ID], vec![], None)),
        vec![def("w1", spec(None, vec![GRP], vec![], None))],
    );
    assert!(msg.contains("PARTITION BY"), "got: {msg}");
}

#[test]
fn chaining_rejects_a_base_window_with_a_frame() {
    // OVER (w1 ORDER BY id) .. WINDOW w1 AS (ORDER BY grp ROWS ..)
    let msg = named_err(
        OverClause::Spec(spec(Some("w1"), vec![], vec![ID], None)),
        vec![def("w1", spec(None, vec![], vec![GRP], Some(0)))],
    );
    assert!(msg.contains("base window"), "got: {msg}");
}

#[test]
fn chaining_inherits_referencing_window_order_by_when_base_has_none() {
    // OVER (w1 ORDER BY id) .. WINDOW w1 AS (PARTITION BY grp)
    let p = plan_named(
        OverClause::Spec(spec(Some("w1"), vec![], vec![ID], None)),
        vec![def("w1", spec(None, vec![GRP], vec![], None))],
    )
    .unwrap();
    let f = only_func(&p);
    assert!(matches!(f.partition_by[0], EvalExpr::Column(1)), "PARTITION BY grp from base");
    assert_eq!(f.order_by.len(), 1);
    assert!(
        matches!(f.order_by[0].expr, EvalExpr::Column(0)),
        "ORDER BY id from the referencing window"
    );
}

#[test]
fn chaining_rejects_order_by_when_base_has_order_by() {
    // OVER (w1 ORDER BY id) .. WINDOW w1 AS (ORDER BY grp)
    let msg = named_err(
        OverClause::Spec(spec(Some("w1"), vec![], vec![ID], None)),
        vec![def("w1", spec(None, vec![], vec![GRP], None))],
    );
    assert!(msg.contains("ORDER BY"), "got: {msg}");
}

#[test]
fn chaining_circular_base_reference_terminates_with_a_loud_error() {
    // OVER w1 .. WINDOW w1 AS (w2), w2 AS (w1)
    let msg = named_err(
        named("w1"),
        vec![
            def("w1", spec(Some("w2"), vec![], vec![], None)),
            def("w2", spec(Some("w1"), vec![], vec![], None)),
        ],
    );
    assert!(msg.contains("circular reference"), "got: {msg}");
}

#[test]
fn unknown_named_window_is_a_loud_error() {
    // OVER nope
    assert!(named_err(named("nope"), vec![]).contains("no such window: nope"));
}

#[test]
fn a_window_that_extends_itself_is_circular() {
    let msg = named_err(named("W"), vec![def("w", spec(Some("w"), vec![], vec![], None))]);
    assert!(msg.contains("circular reference"), "got: {msg}");
}

// Names and misuse.

#[test]
fn window_result_column_takes_its_as_alias() {
    // SELECT row_number() OVER (ORDER BY id) AS rn FROM t
    let p = try_plan(
        vec![],
        vec![(call("row_number", FunctionArgs::Empty), over_id())],
        vec!["rn"],
    )
    .unwrap();
    assert_eq!(p.result_columns, vec!["rn".to_string()]);
}

#[test]
fn distinct_window_aggregate_is_rejected() {
    // SELECT count(DISTINCT v) OVER () FROM t
    let mut count = call("count", list(vec![column(V)]));
    count.distinct = true;
    assert!(plan_err(count, over_all()).contains("DISTINCT is not supported for window function"));
}

#[test]
fn filter_on_a_ranking_function_is_rejected() {
    // SELECT row_number() FILTER (WHERE v > 0) OVER () FROM t
    let mut row_number = call("row_number", FunctionArgs::Empty);
    row_number.filter = Some(Ok(greater(column(V), integer(0))));
    let msg = plan_err(row_number, over_all());
    assert!(msg.contains("FILTER"), "got: {msg}");
}

#[test]
fn scalar_function_used_as_a_window_function_is_a_loud_misuse() {
    // SELECT length(v) OVER () FROM t
    let known = plan_err(call("length", list(vec![column(V)])), over_all());
    assert!(known.contains("may not be used as a window function"), "got: {known}");
    // SELECT nope(v) OVER () FROM t
    let unknown = plan_err(call("nope", list(vec![column(V)])), over_all());
    assert!(unknown.contains("no such function: nope"), "got: {unknown}");
}

fn misplaced(call: WindowCall) -> String {
    let mut windowing = Windowing { input_width: 4, functions: vec![] };
    let err = bind(&mut windowing, false, call, over_all()).unwrap_err();
    assert!(windowing.functions.is_empty());
    err.message().to_string()
}

#[test]
fn window_function_in_where_is_a_loud_misuse() {
    // SELECT id FROM t WHERE sum(v) OVER () > id
    assert!(misplaced(sum_v()).contains("misuse of window function"));
}

#[test]
fn window_function_in_group_by_is_a_loud_misuse() {
    // SELECT 1 FROM t GROUP BY sum(v) OVER ()
    assert_eq!(misplaced(sum_v()), "misuse of window function sum()");
}

#[test]
fn partition_by_collation_is_resolved_onto_the_plan() {
    // SELECT sum(v) OVER (PARTITION BY v COLLATE NOCASE) FROM t
    let written = BoundPartition { collation: Collation::NoCase, ..partition(V) };
    let p = plan(sum_v(), over(vec![written], vec![], None));
    assert_eq!(only_func(&p).partition_collations, vec![Collation::NoCase]);
    // SELECT sum(v) OVER (PARTITION BY v) FROM t
    let p = plan(sum_v(), over(vec![partition(V)], vec![], None));
    assert_eq!(only_func(&p).partition_collations, vec![Collation::Binary]);
    // SELECT sum(v) OVER (PARTITION BY grp, v) FROM t
    let p = plan(sum_v(), over(vec![partition(GRP), partition(V)], vec![], None));
    let f = only_func(&p);
    assert_eq!(f.partition_collations.len(), f.partition_by.len());
}

// The vocabulary.

#[test]
fn default_frame_is_range_unbounded_preceding_to_current_row() {
    let f = WindowFrame::default_frame();
    assert_eq!(f.units, FrameUnits::Range);
    assert!(matches!(f.start, FrameBound::UnboundedPreceding));
    assert!(matches!(f.end, FrameBound::CurrentRow));
    assert_eq!(f.exclude, FrameExclude::NoOthers);
    assert!(!format!("{:?}", f.clone()).is_empty());
}

#[test]
fn every_builtin_window_func_kind_is_constructible_and_debuggable() {
    let null = EvalExpr::Literal(Value::Null);
    let kinds = vec![
        WindowFuncKind::RowNumber,
        WindowFuncKind::Rank,
        WindowFuncKind::DenseRank,
        WindowFuncKind::PercentRank,
        WindowFuncKind::CumeDist,
        WindowFuncKind::Ntile(integer(4)),
        WindowFuncKind::Lag { expr: column(0), offset: integer(1), default: null },
        WindowFuncKind::Lead { expr: column(0), offset: integer(2), default: integer(0) },
        WindowFuncKind::FirstValue(column(1)),
        WindowFuncKind::LastValue(column(1)),
        WindowFuncKind::NthValue { expr: column(1), n: integer(3) },
    ];
    for k in &kinds {
        assert!(!format!("{:?}", k.clone()).is_empty());
    }
    assert_eq!(kinds.len(), 11, "the 11 built-in window functions");
}

#[test]
fn explicit_frame_is_constructible_and_tags_compare_by_value() {
    let f = WindowFrame {
        units: FrameUnits::Rows,
        start: FrameBound::Preceding(integer(2)),
        end: FrameBound::Following(integer(1)),
        exclude: FrameExclude::Ties,
    };
    assert_ne!(f.units, FrameUnits::Range);
    assert_ne!(f.exclude, FrameExclude::NoOthers);
    assert!(matches!(f.start, FrameBound::Preceding(_)));
    assert!(matches!(f.end, FrameBound::Following(_)));
    assert!(!format!("{:?}", f.clone()).is_empty());
    let u = f.units;
    assert_eq!(u, f.units);
    assert!(matches!(FrameBound::UnboundedFollowing, FrameBound::UnboundedFollowing));
}

#[test]
fn a_window_is_resolved_after_the_misuse_check_and_before_the_distinct_check() {
    // SELECT sum(DISTINCT v) OVER w FROM t
    let missing = || Over {
        clause: named("w"),
        windows: vec![],
        clauses: WindowClauses { partitions: vec![], orders: vec![], frames: vec![] },
    };
    let distinct = || WindowCall { distinct: true, ..sum_v() };
    let mut windowing = Windowing { input_width: 4, functions: vec![] };
    let err = bind(&mut windowing, true, distinct(), missing()).unwrap_err();
    assert_eq!(err.message(), "no such window: w");
    let err = bind(&mut windowing, false, distinct(), missing()).unwrap_err();
    assert_eq!(err.message(), "misuse of window function sum()");
    let err = bind(&mut windowing, true, distinct(), over_all()).unwrap_err();
    assert_eq!(err.message(), "DISTINCT is not supported for window functions");
}

#[test]
fn a_call_picks_the_clauses_of_its_window_by_position() {
    // OVER (w ORDER BY <2>) .. WINDOW v AS (PARTITION BY <0>), w AS (PARTITION BY <2>, <1>)
    let unbound = || BoundPartition {
        expr: Err(Error::sql("no such column: x")),
        collation: Collation::Binary,
    };
    let clauses = WindowClauses {
        partitions: vec![unbound(), partition(ID), partition(V)],
        orders: vec![term(ID), term(V), term(GRP)],
        frames: vec![],
    };
    let windows = vec![
        def("v", spec(None, vec![0], vec![], None)),
        def("w", spec(None, vec![2, 1], vec![], None)),
    ];
    let clause = OverClause::Spec(spec(Some("W"), vec![], vec![2], None));
    let mut windowing = Windowing { input_width: 4, functions: vec![] };
    bind(&mut windowing, true, sum_v(), Over { clause, windows, clauses }).unwrap();
    let f = &windowing.functions[0];
    assert!(matches!(f.partition_by[..], [EvalExpr::Column(V), EvalExpr::Column(ID)]));
    assert_eq!(f.order_by.len(), 1);
    assert!(matches!(f.order_by[0].expr, EvalExpr::Column(GRP)));
}
