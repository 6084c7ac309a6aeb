//! The plan vocabulary: the [`Plan`] a statement compiles to and the [`PlanNode`] operator
//! tree the executor runs.
//!
//! # Rows and registers
//!
//! * A row between operators is a list of values; `Column(i)` reads value `i`.
//! * A scan of a table of `N` columns emits `[c0 .. c_{N-1}, rowid]`: width `N + 1`, the
//!   rowid in register `N`. A column that is an alias of the rowid binds to register `N`.
//! * `Join` emits its left row and then its right row. `Aggregate` emits the group keys, then
//!   the aggregate results, then any captured columns. `Project` emits its expressions.
//!   `Filter`, `Sort`, `Limit` and `Distinct` pass rows on unchanged. `Window` appends one
//!   column per function.
//! * A correlated subplan reads the outer row in registers `[0, outer_width)` and its own
//!   rows after it. A trigger body reads the old row in `[0, W)` and the new row in
//!   `[W, 2W)`, where `W` is one more than the table's column count.

#[allow(unused_imports)]
use vstd::prelude::*;
use crate::access::{IndexScan, RowidScan, SeqScan};
use crate::catalog::PragmaFunction;
use crate::expr::{AggregateCall, EvalExpr, SortKey};
use crate::text::{eq_ignore_ascii_case, fold, same_name};
use crate::types::{Affinity, Collation, DbIndex};
use crate::window::{WindowFrame, WindowFuncKind};

verus! {

/// A compiled statement: the operator tree and its side tables.
#[derive(Debug)]
pub struct Plan {
    pub root: PlanNode,
    /// Output column names in result order.
    pub result_columns: Vec<String>,
    /// Materialized bodies, named by position by [`PlanNode::CteScan`].
    pub ctes: Vec<CtePlan>,
    /// Expression subqueries, named by position in expressions.
    pub subqueries: Vec<SubPlan>,
    /// Whether the statement changes data.
    pub mutates: bool,
    /// The generated-column programs of the tables the plan touches.
    pub generated: Vec<TableGenerated>,
}

/// Whether `t` holds the programs of the table `name` of the namespace `db`.
pub open spec fn keyed(t: TableGenerated, db: DbIndex, name: Seq<char>) -> bool {
    t.db == db && same_name(t.table@, name)
}

/// The programs of the first entry for that table and namespace; none without an entry.
pub open spec fn programs_of(
    generated: Seq<TableGenerated>,
    db: DbIndex,
    name: Seq<char>,
) -> Seq<GeneratedProgram>
    decreases generated.len(),
{
    if generated.len() == 0 {
        seq![]
    } else if keyed(generated[0], db, name) {
        generated[0].programs@
    } else {
        programs_of(generated.drop_first(), db, name)
    }
}

/// The programs of a table are those of the first entry for its name, in any case, and its
/// namespace; there are none without an entry.
pub proof fn programs_are_those_of_the_entry(
    generated: Seq<TableGenerated>,
    db: DbIndex,
    name: Seq<char>,
    k: int,
)
    requires
        0 <= k <= generated.len(),
        forall|j: int|
            0 <= j < k ==> !((#[trigger] generated[j]).db == db && fold(generated[j].table@) == fold(
                name,
            )),
    ensures
        k == generated.len() ==> programs_of(generated, db, name).len() == 0,
        k < generated.len() && generated[k].db == db && fold(generated[k].table@) == fold(name)
            ==> programs_of(generated, db, name) == generated[k].programs@,
    decreases generated.len(),
{
    if generated.len() > 0 && k > 0 {
        let rest = generated.drop_first();
        assert(!(generated[0].db == db && fold(generated[0].table@) == fold(name)));
        assert forall|j: int| 0 <= j < k - 1 implies !((#[trigger] rest[j]).db == db && fold(
            rest[j].table@,
        ) == fold(name)) by {
            assert(rest[j] == generated[j + 1]);
        }
        programs_are_those_of_the_entry(rest, db, name, k - 1);
    }
}

/// The programs of a table are those of its own namespace: a table of that name in another
/// namespace, whose programs stand anywhere in the list, has no say.
pub proof fn programs_are_those_of_the_namespace(
    generated: Seq<TableGenerated>,
    at: int,
    other: TableGenerated,
    db: DbIndex,
    name: Seq<char>,
)
    requires
        0 <= at <= generated.len(),
        other.db != db,
    ensures
        programs_of(generated.insert(at, other), db, name) == programs_of(generated, db, name),
    decreases generated.len(),
{
    let longer = generated.insert(at, other);
    if at == 0 {
        assert(longer.drop_first() =~= generated);
    } else {
        programs_are_those_of_the_namespace(generated.drop_first(), at - 1, other, db, name);
        assert(longer.drop_first() =~= generated.drop_first().insert(at - 1, other));
    }
}

impl Plan {
    /// The generated-column programs of table `table` in namespace `db`. The namespace is
    /// part of the key: a temporary table may have the name of a table of `main`.
    pub fn generated_programs(&self, db: DbIndex, table: &str) -> (r: &[GeneratedProgram])
        ensures
            r@ == programs_of(self.generated@, db, table@),
    {
        let mut i: usize = 0;
        proof {
            assert(self.generated@.subrange(0, self.generated.len() as int)
                =~= self.generated@);
        }
        while i < self.generated.len()
            invariant
                i <= self.generated.len(),
                programs_of(self.generated@, db, table@) == programs_of(
                    self.generated@.subrange(i as int, self.generated.len() as int),
                    db,
                    table@,
                ),
            decreases self.generated.len() - i,
        {
            let t: &TableGenerated = &self.generated[i];
            proof {
                let rest = self.generated@.subrange(i as int, self.generated.len() as int);
                assert(rest[0] == t);
                assert(rest.drop_first() =~= self.generated@.subrange(
                    i + 1,
                    self.generated.len() as int,
                ));
            }
            if t.db == db && eq_ignore_ascii_case(t.table.as_str(), table) {
                return t.programs.as_slice();
            }
            i = i + 1;
        }
        &[]
    }
}

/// The program of one generated column.
#[derive(Debug, Clone)]
pub struct GeneratedProgram {
    pub col_index: usize,
    pub expr: EvalExpr,
    /// Whether the value is kept in the record (else it is computed on every read).
    pub stored: bool,
    pub affinity: Affinity,
}

impl GeneratedProgram {
    /// Whether the column is computed on every read.
    pub fn is_virtual(&self) -> (r: bool)
        ensures
            r == !self.stored,
    {
        !self.stored
    }
}

/// The generated-column programs of one table, each after those it reads.
#[derive(Debug, Clone)]
pub struct TableGenerated {
    pub db: DbIndex,
    pub table: String,
    pub programs: Vec<GeneratedProgram>,
}

/// Which JSON table function is scanned.
#[derive(Debug, Clone, Copy, PartialEq, Eq, Structural)]
pub enum JsonTableKind {
    Each,
    Tree,
}

/// One operator of a plan.
#[allow(inconsistent_fields)]
#[derive(Debug)]
pub enum PlanNode {
    SeqScan(SeqScan),
    RowidScan(RowidScan),
    IndexScan(IndexScan),
    /// Keep the rows on which `predicate` is true.
    Filter { input: Box<PlanNode>, predicate: EvalExpr },
    Project { input: Box<PlanNode>, exprs: Vec<EvalExpr> },
    /// Order the rows, stably. With `limit`, only the rows that a `Limit` above can need are
    /// kept.
    Sort { input: Box<PlanNode>, keys: Vec<SortKey>, limit: Option<SortLimit> },
    Limit { input: Box<PlanNode>, limit: Option<EvalExpr>, offset: Option<EvalExpr> },
    /// Emit each distinct row once; column `i` is compared under `column_collations[i]`.
    Distinct { input: Box<PlanNode>, column_collations: Vec<Collation> },
    Aggregate(Aggregate),
    MinMaxSeek(MinMaxSeek),
    Join(Join),
    Values { rows: Vec<Vec<EvalExpr>> },
    /// One row of no columns.
    SingleRow,
    SetOp(SetOp),
    CteScan { id: usize, column_count: usize },
    RecursiveScan { column_count: usize },
    /// `json_each` / `json_tree`. `emit_json` says whether the hidden `json` column, a copy of
    /// the whole document in every row, is filled.
    TableFunctionScan {
        kind: JsonTableKind,
        arg: EvalExpr,
        path: Option<EvalExpr>,
        column_count: usize,
        emit_json: bool,
    },
    PragmaFunctionScan {
        kind: PragmaFunction,
        name_arg: Option<EvalExpr>,
        schema_arg: Option<EvalExpr>,
        column_count: usize,
    },
    Window(Window),
    Insert(Insert),
    Update(Update),
    Delete(Delete),
    InsteadOf(InsteadOf),
    CreateTable(CreateTablePlan),
    CreateIndex(CreateIndexPlan),
}

/// How many rows the `LIMIT` above a sort can need: `offset` and `limit` together.
#[derive(Debug, Clone)]
pub struct SortLimit {
    pub limit: EvalExpr,
    pub offset: Option<EvalExpr>,
}

#[derive(Debug, Clone, Copy, PartialEq, Eq, Structural)]
pub enum JoinType {
    Inner,
    Left,
    Right,
    Full,
    Cross,
}

#[derive(Debug, Clone)]
pub enum JoinStrategy {
    NestedLoop,
    Hash { left_keys: Vec<EvalExpr>, right_keys: Vec<EvalExpr>, key_collations: Vec<Collation> },
    IndexNestedLoop,
}

#[derive(Debug)]
pub struct Join {
    pub left: Box<PlanNode>,
    pub left_width: usize,
    pub right: Box<PlanNode>,
    pub right_width: usize,
    pub join_type: JoinType,
    pub on: Option<EvalExpr>,
    pub strategy: JoinStrategy,
}

/// Grouping and aggregation.
#[derive(Debug)]
pub struct Aggregate {
    pub input: Box<PlanNode>,
    pub group_by: Vec<EvalExpr>,
    pub group_collations: Vec<Collation>,
    pub aggregates: Vec<AggregateCall>,
    pub having: Option<EvalExpr>,
    pub minmax_bare: Option<MinMaxBare>,
    pub bare_arbitrary: Option<Vec<usize>>,
}

/// Bare columns that take their value from the row of the one `min()` or `max()`.
#[derive(Debug, Clone)]
pub struct MinMaxBare {
    pub agg_index: usize,
    pub is_max: bool,
    pub captured_regs: Vec<usize>,
}

/// A `MIN` or `MAX` over a whole table, read off one end of a b-tree.
#[derive(Debug, Clone)]
pub struct MinMaxSeek {
    pub table: String,
    pub db: DbIndex,
    pub is_max: bool,
    pub source: MinMaxSource,
}

/// The b-tree a [`MinMaxSeek`] walks.
#[derive(Debug, Clone)]
pub enum MinMaxSource {
    /// The table's own, by rowid.
    Rowid,
    /// An index whose first key column is the argument.
    Index { index: String },
}

#[derive(Debug, Clone, Copy, PartialEq, Eq, Structural)]
pub enum SetOpKind {
    UnionAll,
    Union,
    Intersect,
    Except,
}

#[derive(Debug)]
pub struct SetOp {
    pub op: SetOpKind,
    pub left: Box<PlanNode>,
    pub right: Box<PlanNode>,
    pub column_collations: Vec<Collation>,
}

/// A body that is run once and whose rows are then scanned.
#[allow(inconsistent_fields)]
#[derive(Debug)]
pub enum CtePlan {
    Materialized { name: String, column_count: usize, body: PlanNode },
    Recursive {
        name: String,
        column_count: usize,
        seed: PlanNode,
        step: PlanNode,
        union_all: bool,
    },
}

/// The plan of an expression subquery.
#[derive(Debug)]
pub struct SubPlan {
    pub plan: PlanNode,
    /// Whether it reads the outer row.
    pub correlated: bool,
    /// The outer registers it reads, ascending, each once.
    pub correlated_cols: Vec<usize>,
    /// Whether it is known to give the same rows on equal outer rows.
    pub deterministic: bool,
    /// The width of the outer row it was compiled against; 0 if it reads none.
    pub outer_width: usize,
}

#[derive(Debug, Clone, Copy, PartialEq, Eq, Structural)]
pub enum OnConflict {
    Abort,
    Rollback,
    Fail,
    Ignore,
    Replace,
}

#[derive(Debug, Clone)]
pub struct UpsertPlan {
    pub clauses: Vec<UpsertClause>,
}

#[derive(Debug, Clone)]
pub struct UpsertClause {
    pub target: ConflictTarget,
    pub action: UpsertActionPlan,
}

/// Which uniqueness constraint an `ON CONFLICT` clause handles.
#[derive(Debug, Clone, PartialEq, Eq)]
pub enum ConflictTarget {
    Any,
    Columns(Vec<usize>),
    ExprIndex(u32),
}

#[derive(Debug, Clone)]
pub enum UpsertActionPlan {
    Nothing,
    Update { assignments: Vec<(usize, EvalExpr)>, predicate: Option<EvalExpr> },
}

/// When a trigger fires relative to its event.
#[derive(Debug, Clone, Copy, PartialEq, Eq, Structural)]
pub enum TriggerTiming {
    Before,
    After,
    InsteadOf,
}

/// A compiled trigger. Its condition and actions read the old row in registers `[0, W)` and
/// the new row in `[W, 2W)`.
#[derive(Debug)]
pub struct TriggerProgram {
    pub name: String,
    pub timing: TriggerTiming,
    pub when: Option<EvalExpr>,
    pub actions: Vec<Plan>,
}

/// A `CHECK` constraint over the row `[c0 .. c_{N-1}, rowid]`.
#[derive(Debug, Clone)]
pub struct CheckConstraint {
    pub expr: EvalExpr,
    pub detail: String,
}

#[derive(Debug)]
pub struct Insert {
    pub table: String,
    pub db: DbIndex,
    pub column_count: usize,
    pub columns: Option<Vec<usize>>,
    pub source: Box<PlanNode>,
    pub source_width: usize,
    pub column_affinities: Vec<Affinity>,
    pub on_conflict: OnConflict,
    pub returning: Vec<EvalExpr>,
    pub triggers: Vec<TriggerProgram>,
    pub checks: Vec<CheckConstraint>,
    pub rowid_source: Option<usize>,
    pub upsert: Option<UpsertPlan>,
    pub index_key_exprs: Vec<(String, Vec<Option<EvalExpr>>)>,
    pub index_partial_predicates: Vec<(String, EvalExpr)>,
}

#[derive(Debug)]
pub struct Update {
    pub table: String,
    pub db: DbIndex,
    pub column_count: usize,
    /// Column and value, in the order of the `SET` list.
    pub assignments: Vec<(usize, EvalExpr)>,
    pub scan: Box<PlanNode>,
    pub column_affinities: Vec<Affinity>,
    pub on_conflict: OnConflict,
    pub returning: Vec<EvalExpr>,
    pub triggers: Vec<TriggerProgram>,
    pub checks: Vec<CheckConstraint>,
    pub index_key_exprs: Vec<(String, Vec<Option<EvalExpr>>)>,
    pub index_partial_predicates: Vec<(String, EvalExpr)>,
}

#[derive(Debug)]
pub struct Delete {
    pub table: String,
    pub db: DbIndex,
    pub column_count: usize,
    pub scan: Box<PlanNode>,
    pub returning: Vec<EvalExpr>,
    pub triggers: Vec<TriggerProgram>,
    pub index_key_exprs: Vec<(String, Vec<Option<EvalExpr>>)>,
    pub index_partial_predicates: Vec<(String, EvalExpr)>,
}

#[derive(Debug, Clone, Copy, PartialEq, Eq, Structural)]
pub enum InsteadOfEvent {
    Insert,
    Update,
    Delete,
}

/// A statement on a view, carried out by the view's `INSTEAD OF` triggers. `frame_source`
/// emits one row of width `2 * (column_count + 1)` per affected row: the old row and the new
/// row, each followed by a NULL where a table would have its rowid.
#[derive(Debug)]
pub struct InsteadOf {
    pub view: String,
    pub event: InsteadOfEvent,
    pub column_count: usize,
    pub frame_source: Box<PlanNode>,
    pub programs: Vec<TriggerProgram>,
    pub returning: Vec<EvalExpr>,
}

#[derive(Debug, Clone)]
pub struct ColumnSpec {
    pub name: String,
    pub declared_type: Option<String>,
}

#[derive(Debug, Clone)]
pub struct CreateTablePlan {
    pub name: String,
    pub columns: Vec<ColumnSpec>,
    pub if_not_exists: bool,
}

#[derive(Debug, Clone)]
pub struct CreateIndexPlan {
    pub name: String,
    pub table: String,
    pub columns: Vec<String>,
    pub unique: bool,
    pub if_not_exists: bool,
}

/// Window functions over the input; each appends one column.
#[derive(Debug)]
pub struct Window {
    pub input: Box<PlanNode>,
    pub functions: Vec<WindowFunc>,
}

/// One window-function call.
#[derive(Debug, Clone)]
pub struct WindowFunc {
    pub kind: WindowFuncKind,
    pub partition_by: Vec<EvalExpr>,
    pub partition_collations: Vec<Collation>,
    pub order_by: Vec<SortKey>,
    pub frame: WindowFrame,
}

/// A row source that passes on the rows which the predicate keeps, where there is one.
pub open spec fn filtered(node: PlanNode, predicate: Option<EvalExpr>) -> PlanNode {
    match predicate {
        Some(p) => PlanNode::Filter { input: Box::new(node), predicate: p },
        None => node,
    }
}

/// A row source that passes on the rows which the predicate keeps, where there is one.
pub fn filter_by(node: PlanNode, predicate: Option<EvalExpr>) -> (r: PlanNode)
    ensures
        r == filtered(node, predicate),
{
    match predicate {
        Some(p) => PlanNode::Filter { input: Box::new(node), predicate: p },
        None => node,
    }
}

} // verus!
