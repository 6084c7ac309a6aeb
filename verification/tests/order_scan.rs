//! Sorts that the order of a scan makes needless, and sorts that have to stay.

use minisqlite_plan::access::{
    IndexOp, IndexScan, RangeBound, RowidOp, RowidScan, ScanDirection, SeqScan,
};
use minisqlite_plan::catalog::{Catalog, ColumnDef, IndexDef, KeyColumn, TableDef};
use minisqlite_plan::compile::limit::LimitClause;
use minisqlite_plan::compile::notes::PlanNotes;
use minisqlite_plan::compile::order_scan::satisfy_order_by;
use minisqlite_plan::compile::ordering::{NullsOrder, SortOrder};
use minisqlite_plan::compile::select::{
    CoreFrom, Grouping, OrderResolved, OrderingTerm, QueryTail, ResultList, Select, SelectBody,
    SelectCore,
};
use minisqlite_plan::expr::{
    AggregateCall, ArithOp, CompareMeta, CompareOp, EvalExpr, ScalarFunction, SortKey,
};
use minisqlite_plan::plan::{Join, JoinStrategy, JoinType, Plan, PlanNode};
use minisqlite_plan::query_planner::Statement;
use minisqlite_plan::scope::Source;
use minisqlite_plan::types::{Affinity, Collation, DbIndex, Value};
use minisqlite_plan::{PlanCtx, Planner, QueryPlanner};

fn col(name: &str, collation: Collation) -> ColumnDef {
    ColumnDef { name: name.to_string(), affinity: Affinity::Integer, collation, generated: None }
}

fn tdef(name: &str, columns: Vec<ColumnDef>, rowid_alias: Option<usize>) -> TableDef {
    TableDef {
        name: name.to_string(),
        db: DbIndex::main(),
        columns,
        without_rowid: false,
        rowid_alias,
    }
}

fn one_col(name: &str) -> Vec<ColumnDef> {
    vec![col(name, Collation::Binary)]
}

fn two_cols(a: &str, b: &str) -> Vec<ColumnDef> {
    vec![col(a, Collation::Binary), col(b, Collation::Binary)]
}

fn idef_kc(name: &str, table: &str, cols: &[(&str, Option<&str>, bool)], partial: bool) -> IndexDef {
    IndexDef {
        name: name.to_string(),
        table: table.to_string(),
        db: DbIndex::main(),
        columns: cols.iter().map(|(c, _, _)| c.to_string()).collect(),
        key_columns: cols
            .iter()
            .map(|(_, coll, desc)| KeyColumn {
                collation: coll.map(str::to_string),
                descending: *desc,
            })
            .collect(),
        key_exprs: vec![false; cols.len()],
        partial,
    }
}

fn idef(name: &str, table: &str, cols: &[&str]) -> IndexDef {
    let cols: Vec<(&str, Option<&str>, bool)> = cols.iter().map(|c| (*c, None, false)).collect();
    idef_kc(name, table, &cols, false)
}

fn seq_scan(table: &str, column_count: usize) -> PlanNode {
    PlanNode::SeqScan(SeqScan { table: table.to_string(), db: DbIndex::main(), column_count })
}

fn index_seek(
    table: &str,
    column_count: usize,
    index: &str,
    eq_prefix: Vec<EvalExpr>,
    lo: Option<RangeBound>,
) -> PlanNode {
    PlanNode::IndexScan(IndexScan {
        table: table.to_string(),
        db: DbIndex::main(),
        column_count,
        index: index.to_string(),
        op: IndexOp::Seek { eq_prefix, lo, hi: None },
        direction: ScanDirection::Forward,
        covering: false,
    })
}

fn integer(i: i64) -> EvalExpr {
    EvalExpr::Literal(Value::Integer(i))
}

fn term(resolved: OrderResolved) -> OrderingTerm {
    OrderingTerm {
        resolved: Ok(resolved),
        order: None,
        nulls: None,
        collation: None,
        own_collation: Collation::Binary,
    }
}

fn desc(t: OrderingTerm) -> OrderingTerm {
    OrderingTerm { order: Some(SortOrder::Desc), ..t }
}

/// A query over `source` whose outputs are the given expressions, all bytewise.
struct Query {
    source: PlanNode,
    grouping: Option<Grouping>,
    outputs: Vec<EvalExpr>,
    collations: Vec<Collation>,
    distinct: bool,
    order_by: Vec<OrderingTerm>,
    limit: Option<LimitClause>,
}

fn query(source: PlanNode, outputs: Vec<EvalExpr>, order_by: Vec<OrderingTerm>) -> Query {
    let collations: Vec<Collation> = outputs.iter().map(|_| Collation::Binary).collect();
    Query {
        source,
        grouping: None,
        outputs,
        collations,
        distinct: false,
        order_by,
        limit: None,
    }
}

fn plan_it(cat: &Catalog, q: Query) -> Plan {
    let sources: Vec<Source> = Vec::new();
    let n = q.outputs.len();
    let body = SelectCore::Query {
        from: CoreFrom { resolved: Ok(sources), bound_where: Ok(()), built: Ok((q.source, None)) },
        result: Ok(ResultList {
            grouping: q.grouping,
            names: (0..n).map(|i| format!("c{i}")).collect(),
            projections: q.outputs,
            collations: q.collations.into_iter().map(Some).collect(),
            defined: (0..n).map(|_| None).collect(),
            windows: Vec::new(),
        }),
        tail: QueryTail { distinct: q.distinct, order_by: q.order_by, limit: q.limit },
    };
    let statement = Statement::Select(Select { with: None, body: SelectBody::Select(body) });
    QueryPlanner::new().plan(PlanCtx::new(), cat, statement, Ok(PlanNotes::none())).expect("plan ok")
}

fn has_sort(node: &PlanNode) -> bool {
    match node {
        PlanNode::Sort { .. } => true,
        PlanNode::Project { input, .. }
        | PlanNode::Filter { input, .. }
        | PlanNode::Distinct { input, .. }
        | PlanNode::Limit { input, .. } => has_sort(input),
        _ => false,
    }
}

fn leaf(node: &PlanNode) -> &PlanNode {
    match node {
        PlanNode::Project { input, .. }
        | PlanNode::Filter { input, .. }
        | PlanNode::Sort { input, .. }
        | PlanNode::Distinct { input, .. }
        | PlanNode::Limit { input, .. } => leaf(input),
        other => other,
    }
}

/// `SELECT *` over a table of `n` columns.
fn star(n: usize) -> Vec<EvalExpr> {
    (0..n).map(EvalExpr::Column).collect()
}

#[test]
fn order_by_rowid_asc_skips_sort_via_seqscan() {
    // SELECT * FROM t ORDER BY rowid
    let cat = Catalog { tables: vec![tdef("t", one_col("a"), None)], indexes: vec![] };
    let rowid = OrderResolved::Hidden(EvalExpr::Column(1));
    let plan = plan_it(&cat, query(seq_scan("t", 1), star(1), vec![term(rowid)]));
    assert!(!has_sort(&plan.root), "ORDER BY rowid ASC must skip the Sort");
    assert!(matches!(leaf(&plan.root), PlanNode::SeqScan(_)), "ascending rowid = SeqScan");
}

#[test]
fn order_by_rowid_desc_skips_sort_via_reverse_rowid_scan() {
    // SELECT * FROM t ORDER BY rowid DESC
    let cat = Catalog { tables: vec![tdef("t", one_col("a"), None)], indexes: vec![] };
    let rowid = OrderResolved::Hidden(EvalExpr::Column(1));
    let plan = plan_it(&cat, query(seq_scan("t", 1), star(1), vec![desc(term(rowid))]));
    assert!(!has_sort(&plan.root), "ORDER BY rowid DESC must skip the Sort");
    match leaf(&plan.root) {
        PlanNode::RowidScan(RowidScan {
            op: RowidOp::Range { lo: None, hi: None },
            direction: ScanDirection::Reverse,
            ..
        }) => {}
        other => panic!("expected a full reverse RowidScan, got {other:?}"),
    }
}

#[test]
fn order_by_intpk_alias_takes_the_rowid_path() {
    // `id INTEGER PRIMARY KEY` is an alias of the rowid and binds to its register.
    let cat = Catalog { tables: vec![tdef("u", two_cols("id", "v"), Some(0))], indexes: vec![] };
    let outputs = || vec![EvalExpr::Column(2), EvalExpr::Column(1)];

    let asc = plan_it(&cat, query(seq_scan("u", 2), outputs(), vec![term(OrderResolved::Output(0))]));
    assert!(!has_sort(&asc.root), "ORDER BY intpk ASC must skip the Sort");
    assert!(matches!(leaf(&asc.root), PlanNode::SeqScan(_)));

    let back = plan_it(
        &cat,
        query(seq_scan("u", 2), outputs(), vec![desc(term(OrderResolved::Output(0)))]),
    );
    assert!(!has_sort(&back.root), "ORDER BY intpk DESC must skip the Sort");
    assert!(matches!(
        leaf(&back.root),
        PlanNode::RowidScan(RowidScan { direction: ScanDirection::Reverse, .. })
    ));
}

#[test]
fn order_by_indexed_col_asc_replaces_seqscan_with_full_index_scan() {
    // SELECT * FROM t ORDER BY a
    let cat = Catalog {
        tables: vec![tdef("t", one_col("a"), None)],
        indexes: vec![idef("ia", "t", &["a"])],
    };
    let plan = plan_it(&cat, query(seq_scan("t", 1), star(1), vec![term(OrderResolved::Output(0))]));
    assert!(!has_sort(&plan.root), "ORDER BY indexed col ASC must skip the Sort");
    match leaf(&plan.root) {
        PlanNode::IndexScan(IndexScan {
            index,
            op: IndexOp::FullScan,
            direction: ScanDirection::Forward,
            ..
        }) => assert_eq!(index, "ia"),
        other => panic!("expected a forward FullScan on ia, got {other:?}"),
    }
}

#[test]
fn range_on_indexed_col_then_order_on_same_col_skips_sort() {
    // SELECT a FROM t WHERE a >= 5 ORDER BY a
    let cat = Catalog {
        tables: vec![tdef("t", one_col("a"), None)],
        indexes: vec![idef("ia", "t", &["a"])],
    };
    let scan = index_seek("t", 1, "ia", vec![], Some(RangeBound { value: integer(5), inclusive: true }));
    let plan = plan_it(&cat, query(scan, star(1), vec![term(OrderResolved::Output(0))]));
    assert!(!has_sort(&plan.root), "range + same-column ORDER BY must skip the Sort");
    assert!(matches!(leaf(&plan.root), PlanNode::IndexScan(_)));
}

#[test]
fn eq_prefix_then_order_on_next_column_skips_sort() {
    // SELECT * FROM t WHERE a = 1 ORDER BY b
    let cat = Catalog {
        tables: vec![tdef("t", two_cols("a", "b"), None)],
        indexes: vec![idef("iab", "t", &["a", "b"])],
    };
    let scan = index_seek("t", 2, "iab", vec![integer(1)], None);
    let plan = plan_it(&cat, query(scan, star(2), vec![term(OrderResolved::Output(1))]));
    assert!(!has_sort(&plan.root), "eq-prefix then next-column ORDER BY must skip the Sort");
    match leaf(&plan.root) {
        PlanNode::IndexScan(IndexScan {
            index,
            op: IndexOp::Seek { eq_prefix, .. },
            direction: ScanDirection::Forward,
            ..
        }) => {
            assert_eq!(index, "iab");
            assert_eq!(eq_prefix.len(), 1, "the a=1 equality prefix is kept");
        }
        other => panic!("expected a forward IndexScan Seek on iab, got {other:?}"),
    }
}

#[test]
fn order_by_full_composite_index_skips_sort() {
    // SELECT * FROM t ORDER BY a, b
    let cat = Catalog {
        tables: vec![tdef("t", two_cols("a", "b"), None)],
        indexes: vec![idef("iab", "t", &["a", "b"])],
    };
    let order = vec![term(OrderResolved::Output(0)), term(OrderResolved::Output(1))];
    let plan = plan_it(&cat, query(seq_scan("t", 2), star(2), order));
    assert!(!has_sort(&plan.root), "ORDER BY matching the full index must skip the Sort");
    assert!(matches!(
        leaf(&plan.root),
        PlanNode::IndexScan(IndexScan { op: IndexOp::FullScan, .. })
    ));
}

#[test]
fn order_by_indexed_col_with_limit_skips_sort() {
    // SELECT * FROM t ORDER BY a LIMIT 3
    let cat = Catalog {
        tables: vec![tdef("t", one_col("a"), None)],
        indexes: vec![idef("ia", "t", &["a"])],
    };
    let mut q = query(seq_scan("t", 1), star(1), vec![term(OrderResolved::Output(0))]);
    q.limit = Some(LimitClause { limit: Ok(integer(3)), offset: None });
    let plan = plan_it(&cat, q);
    assert!(!has_sort(&plan.root), "ORDER BY indexed col + LIMIT must skip the Sort");
    assert!(matches!(plan.root, PlanNode::Limit { .. }), "the LIMIT node is preserved");
    assert!(matches!(
        leaf(&plan.root),
        PlanNode::IndexScan(IndexScan { op: IndexOp::FullScan, .. })
    ));
}

#[test]
fn order_by_indexed_col_desc_keeps_sort() {
    // SELECT * FROM t ORDER BY a DESC: a reverse index scan would reverse ties.
    let cat = Catalog {
        tables: vec![tdef("t", one_col("a"), None)],
        indexes: vec![idef("ia", "t", &["a"])],
    };
    let plan =
        plan_it(&cat, query(seq_scan("t", 1), star(1), vec![desc(term(OrderResolved::Output(0)))]));
    assert!(has_sort(&plan.root), "ORDER BY indexed col DESC must keep the Sort (tie reversal)");
}

#[test]
fn order_by_nocase_keeps_sort() {
    let cols = || vec![col("a", Collation::Binary), col("c", Collation::NoCase)];
    let cat = Catalog {
        tables: vec![tdef("t", cols(), None)],
        indexes: vec![idef("ic", "t", &["c"]), idef("ia", "t", &["a"])],
    };
    // SELECT * FROM t ORDER BY c
    let mut declared = query(seq_scan("t", 2), star(2), vec![term(OrderResolved::Output(1))]);
    declared.collations = vec![Collation::Binary, Collation::NoCase];
    assert!(has_sort(&plan_it(&cat, declared).root), "a NOCASE-declared column keeps the Sort");
    // SELECT * FROM t ORDER BY a COLLATE NOCASE
    let written = OrderingTerm {
        collation: Some(Ok(Collation::NoCase)),
        ..term(OrderResolved::Output(0))
    };
    let mut q = query(seq_scan("t", 2), star(2), vec![written]);
    q.collations = vec![Collation::Binary, Collation::NoCase];
    assert!(has_sort(&plan_it(&cat, q).root), "an explicit COLLATE NOCASE keeps the Sort");
}

#[test]
fn order_by_non_leading_index_column_keeps_sort() {
    // SELECT * FROM t ORDER BY b
    let cat = Catalog {
        tables: vec![tdef("t", two_cols("a", "b"), None)],
        indexes: vec![idef("iab", "t", &["a", "b"])],
    };
    let plan = plan_it(&cat, query(seq_scan("t", 2), star(2), vec![term(OrderResolved::Output(1))]));
    assert!(has_sort(&plan.root));
}

#[test]
fn order_by_prefix_of_wider_index_keeps_sort_in_subcase_ii() {
    // SELECT * FROM t ORDER BY a
    let cat = Catalog {
        tables: vec![tdef("t", two_cols("a", "b"), None)],
        indexes: vec![idef("iab", "t", &["a", "b"])],
    };
    let plan = plan_it(&cat, query(seq_scan("t", 2), star(2), vec![term(OrderResolved::Output(0))]));
    assert!(has_sort(&plan.root), "ORDER BY a over only a wider (a,b) index keeps the Sort");
}

#[test]
fn order_by_expression_keeps_sort() {
    let cat = Catalog {
        tables: vec![tdef("t", one_col("a"), None)],
        indexes: vec![idef("ia", "t", &["a"])],
    };
    // SELECT * FROM t ORDER BY a+0
    let sum = EvalExpr::Arith {
        op: ArithOp::Add,
        left: Box::new(EvalExpr::Column(0)),
        right: Box::new(integer(0)),
    };
    let plan = plan_it(&cat, query(seq_scan("t", 1), star(1), vec![term(OrderResolved::Hidden(sum))]));
    assert!(has_sort(&plan.root));
    // SELECT * FROM t ORDER BY abs(a)
    let abs = EvalExpr::Func {
        func: ScalarFunction { name: "abs".to_string(), deterministic: true },
        args: vec![EvalExpr::Column(0)],
    };
    let plan = plan_it(&cat, query(seq_scan("t", 1), star(1), vec![term(OrderResolved::Hidden(abs))]));
    assert!(has_sort(&plan.root));
}

#[test]
fn mixed_direction_keeps_sort() {
    // SELECT * FROM t ORDER BY a ASC, b DESC
    let cat = Catalog {
        tables: vec![tdef("t", two_cols("a", "b"), None)],
        indexes: vec![idef("iab", "t", &["a", "b"])],
    };
    let asc = OrderingTerm { order: Some(SortOrder::Asc), ..term(OrderResolved::Output(0)) };
    let order = vec![asc, desc(term(OrderResolved::Output(1)))];
    assert!(has_sort(&plan_it(&cat, query(seq_scan("t", 2), star(2), order)).root));
}

#[test]
fn nulls_last_on_asc_scan_keeps_sort() {
    // SELECT * FROM t ORDER BY a NULLS LAST
    let cat = Catalog {
        tables: vec![tdef("t", one_col("a"), None)],
        indexes: vec![idef("ia", "t", &["a"])],
    };
    let last = OrderingTerm { nulls: Some(NullsOrder::Last), ..term(OrderResolved::Output(0)) };
    assert!(has_sort(&plan_it(&cat, query(seq_scan("t", 1), star(1), vec![last])).root));
}

#[test]
fn nulls_first_on_asc_scan_skips_sort() {
    // SELECT * FROM t ORDER BY a NULLS FIRST: what an ascending scan does anyway.
    let cat = Catalog {
        tables: vec![tdef("t", one_col("a"), None)],
        indexes: vec![idef("ia", "t", &["a"])],
    };
    let first = OrderingTerm { nulls: Some(NullsOrder::First), ..term(OrderResolved::Output(0)) };
    assert!(!has_sort(&plan_it(&cat, query(seq_scan("t", 1), star(1), vec![first])).root));
}

#[test]
fn descending_index_column_keeps_sort() {
    // SELECT * FROM t ORDER BY a, with the key column of the index descending
    let cat = Catalog {
        tables: vec![tdef("t", one_col("a"), None)],
        indexes: vec![idef_kc("ia", "t", &[("a", None, true)], false)],
    };
    let plan = plan_it(&cat, query(seq_scan("t", 1), star(1), vec![term(OrderResolved::Output(0))]));
    assert!(has_sort(&plan.root));
}

#[test]
fn nocase_index_column_keeps_sort() {
    // SELECT * FROM t ORDER BY c, with the key column of the index COLLATE NOCASE
    let cat = Catalog {
        tables: vec![tdef("t", two_cols("a", "c"), None)],
        indexes: vec![idef_kc("ic", "t", &[("c", Some("NOCASE"), false)], false)],
    };
    let plan = plan_it(&cat, query(seq_scan("t", 2), star(2), vec![term(OrderResolved::Output(1))]));
    assert!(has_sort(&plan.root));
}

#[test]
fn partial_index_keeps_sort() {
    // SELECT * FROM t ORDER BY a
    let cat = Catalog {
        tables: vec![tdef("t", one_col("a"), None)],
        indexes: vec![idef_kc("ia", "t", &[("a", None, false)], true)],
    };
    let plan = plan_it(&cat, query(seq_scan("t", 1), star(1), vec![term(OrderResolved::Output(0))]));
    assert!(has_sort(&plan.root));
}

#[test]
fn aggregate_and_distinct_keep_sort() {
    let cat = Catalog {
        tables: vec![tdef("t", one_col("a"), None)],
        indexes: vec![idef("ia", "t", &["a"])],
    };
    // SELECT a, count(*) FROM t GROUP BY a ORDER BY a
    let mut q = query(seq_scan("t", 1), star(2), vec![term(OrderResolved::Output(0))]);
    q.grouping = Some(Grouping {
        group_by: vec![EvalExpr::Column(0)],
        group_collations: vec![Collation::Binary],
        aggregates: vec![AggregateCall {
            func: "count".to_string(),
            args: vec![],
            arg_collations: vec![],
            distinct: false,
            filter: None,
            order_by: vec![],
        }],
        having: None,
        minmax_bare: None,
        bare_arbitrary: None,
        is_max: None,
    });
    assert!(has_sort(&plan_it(&cat, q).root), "an aggregate query keeps the Sort");
    // SELECT DISTINCT a FROM t ORDER BY a
    let mut q = query(seq_scan("t", 1), star(1), vec![term(OrderResolved::Output(0))]);
    q.distinct = true;
    assert!(has_sort(&plan_it(&cat, q).root), "a DISTINCT query keeps the Sort");
}

#[test]
fn join_keeps_sort() {
    // SELECT t.a FROM t, u ORDER BY t.a
    let cat = Catalog {
        tables: vec![tdef("t", one_col("a"), None), tdef("u", one_col("a"), None)],
        indexes: vec![idef("ia", "t", &["a"])],
    };
    let join = PlanNode::Join(Join {
        left: Box::new(seq_scan("t", 1)),
        left_width: 2,
        right: Box::new(seq_scan("u", 1)),
        right_width: 2,
        join_type: JoinType::Inner,
        on: None,
        strategy: JoinStrategy::NestedLoop,
    });
    let plan = plan_it(&cat, query(join, star(1), vec![term(OrderResolved::Output(0))]));
    assert!(has_sort(&plan.root));
}

#[test]
fn a_different_where_index_keeps_its_seek_and_the_sort() {
    // SELECT * FROM t WHERE b = 1 ORDER BY a
    let cat = Catalog {
        tables: vec![tdef("t", two_cols("a", "b"), None)],
        indexes: vec![idef("ib", "t", &["b"]), idef("ia", "t", &["a"])],
    };
    let scan = index_seek("t", 2, "ib", vec![integer(1)], None);
    let plan = plan_it(&cat, query(scan, star(2), vec![term(OrderResolved::Output(0))]));
    assert!(has_sort(&plan.root), "a different WHERE index keeps its seek and the Sort");
    match leaf(&plan.root) {
        PlanNode::IndexScan(IndexScan { index, .. }) => {
            assert_eq!(index, "ib", "the narrowing WHERE seek on ib is kept")
        }
        other => panic!("expected the WHERE index seek on ib, got {other:?}"),
    }
}

#[test]
fn an_expression_key_serves_no_order() {
    let mut index = idef("ia", "t", &["a"]);
    index.key_exprs = vec![true];
    let cat = Catalog { tables: vec![tdef("t", one_col("a"), None)], indexes: vec![index] };
    let plan = plan_it(&cat, query(seq_scan("t", 1), star(1), vec![term(OrderResolved::Output(0))]));
    assert!(has_sort(&plan.root));
}

#[test]
fn a_refused_rewrite_hands_the_node_back() {
    let cat = Catalog { tables: vec![tdef("t", one_col("a"), None)], indexes: vec![] };
    let node = PlanNode::Project {
        input: Box::new(seq_scan("t", 1)),
        exprs: vec![EvalExpr::Column(0)],
    };
    let keys = vec![SortKey {
        expr: EvalExpr::Column(0),
        desc: false,
        nulls_first: None,
        collation: Collation::Binary,
    }];
    let shown = format!("{node:?}");
    match satisfy_order_by(&cat, node, &keys) {
        Err(same) => assert_eq!(format!("{same:?}"), shown),
        Ok(other) => panic!("there is no index on a, got {other:?}"),
    }
}

#[test]
fn a_filter_between_the_projection_and_the_scan_is_passed_through() {
    let cat = Catalog {
        tables: vec![tdef("t", two_cols("a", "b"), None)],
        indexes: vec![idef("ia", "t", &["a"])],
    };
    let filter = PlanNode::Filter {
        input: Box::new(seq_scan("t", 2)),
        predicate: EvalExpr::Compare {
            op: CompareOp::Gt,
            left: Box::new(EvalExpr::Column(1)),
            right: Box::new(integer(0)),
            meta: CompareMeta { apply_left: None, apply_right: None, collation: Collation::Binary },
            null_safe: false,
        },
    };
    let plan = plan_it(&cat, query(filter, star(2), vec![term(OrderResolved::Output(0))]));
    assert!(!has_sort(&plan.root));
    match &plan.root {
        PlanNode::Project { input, .. } => assert!(matches!(**input, PlanNode::Filter { .. })),
        other => panic!("expected the projection, got {other:?}"),
    }
    assert!(matches!(leaf(&plan.root), PlanNode::IndexScan(_)));
}

#[test]
fn a_seek_serves_an_order_before_a_descending_key_column() {
    // SELECT * FROM t WHERE a > 1 ORDER BY a, over i(a, b DESC)
    let cat = Catalog {
        tables: vec![tdef("t", two_cols("a", "b"), None)],
        indexes: vec![idef_kc("i", "t", &[("a", None, false), ("b", None, true)], false)],
    };
    let lo = Some(RangeBound { value: integer(1), inclusive: false });
    let scan = index_seek("t", 2, "i", vec![], lo);
    let plan = plan_it(&cat, query(scan, star(2), vec![term(OrderResolved::Output(0))]));
    assert!(!has_sort(&plan.root));
    // ORDER BY a, b needs the descending column.
    let lo = Some(RangeBound { value: integer(1), inclusive: false });
    let scan = index_seek("t", 2, "i", vec![], lo);
    let order = vec![term(OrderResolved::Output(0)), term(OrderResolved::Output(1))];
    assert!(has_sort(&plan_it(&cat, query(scan, star(2), order)).root));
}
