//! Copies of plans.
//!
//! A copy is the same plan: every operator, expression, text and number in its place.

#[allow(unused_imports)]
use vstd::prelude::*;
use crate::access::{IndexOp, IndexScan, RangeBound, RowidOp, RowidScan, SeqScan};
use crate::catalog::PragmaFunction;
use crate::expr::{AggregateCall, EvalExpr, SortKey};
use crate::plan::{
    Aggregate, CheckConstraint, ColumnSpec, ConflictTarget, CreateIndexPlan, CreateTablePlan,
    CtePlan, Delete, GeneratedProgram, Insert, InsteadOf, Join, JoinStrategy, MinMaxBare,
    MinMaxSeek, MinMaxSource, Plan, PlanNode, SetOp, SortLimit, SubPlan, TableGenerated,
    TriggerProgram, Update, UpsertActionPlan, UpsertClause, UpsertPlan, Window, WindowFunc,
};
use crate::types::{Affinity, Collation};
use crate::window::{FrameBound, WindowFrame, WindowFuncKind};

verus! {

/// A part of a plan that holds no operators.
pub trait Part: Sized {
    /// Whether another part is the same.
    spec fn same(self, other: Self) -> bool;

    /// A second copy.
    fn copied(&self) -> (r: Self)
        ensures
            self.same(r),
    ;
}

impl Part for EvalExpr {
    open spec fn same(self, other: EvalExpr) -> bool {
        self.tree() == other.tree()
    }

    fn copied(&self) -> (r: EvalExpr) {
        self.dup()
    }
}

impl Part for String {
    open spec fn same(self, other: String) -> bool {
        self == other
    }

    fn copied(&self) -> (r: String) {
        self.clone()
    }
}

impl Part for usize {
    open spec fn same(self, other: usize) -> bool {
        self == other
    }

    fn copied(&self) -> (r: usize) {
        *self
    }
}

impl Part for Collation {
    open spec fn same(self, other: Collation) -> bool {
        self == other
    }

    fn copied(&self) -> (r: Collation) {
        *self
    }
}

impl Part for Affinity {
    open spec fn same(self, other: Affinity) -> bool {
        self == other
    }

    fn copied(&self) -> (r: Affinity) {
        *self
    }
}

impl<T: Part> Part for Option<T> {
    open spec fn same(self, other: Option<T>) -> bool {
        match (self, other) {
            (Some(a), Some(b)) => a.same(b),
            (None, None) => true,
            _ => false,
        }
    }

    fn copied(&self) -> (r: Option<T>) {
        match self {
            Some(x) => Some(x.copied()),
            None => None,
        }
    }
}

impl<A: Part, B: Part> Part for (A, B) {
    open spec fn same(self, other: (A, B)) -> bool {
        self.0.same(other.0) && self.1.same(other.1)
    }

    fn copied(&self) -> (r: (A, B)) {
        (self.0.copied(), self.1.copied())
    }
}

/// Whether two lists hold the same parts in the same order.
pub open spec fn same_parts<T: Part>(a: Seq<T>, b: Seq<T>) -> bool {
    &&& a.len() == b.len()
    &&& forall|i: int| 0 <= i < a.len() ==> (#[trigger] a[i]).same(b[i])
}

impl<T: Part> Part for Vec<T> {
    open spec fn same(self, other: Vec<T>) -> bool {
        same_parts(self@, other@)
    }

    fn copied(&self) -> (r: Vec<T>) {
        let mut out: Vec<T> = Vec::new();
        let mut i: usize = 0;
        while i < self.len()
            invariant
                i <= self.len(),
                out@.len() == i,
                forall|k: int| 0 <= k < i ==> (#[trigger] self@[k]).same(out@[k]),
            decreases self.len() - i,
        {
            out.push(self[i].copied());
            i = i + 1;
        }
        out
    }
}

impl Part for RangeBound {
    open spec fn same(self, other: RangeBound) -> bool {
        &&& self.value.same(other.value)
        &&& self.inclusive == other.inclusive
    }

    fn copied(&self) -> (r: RangeBound) {
        RangeBound {
            value: self.value.copied(),
            inclusive: self.inclusive,
        }
    }
}

impl Part for SeqScan {
    open spec fn same(self, other: SeqScan) -> bool {
        &&& self.table.same(other.table)
        &&& self.db == other.db
        &&& self.column_count == other.column_count
    }

    fn copied(&self) -> (r: SeqScan) {
        SeqScan {
            table: self.table.copied(),
            db: self.db,
            column_count: self.column_count,
        }
    }
}

impl Part for RowidOp {
    open spec fn same(self, other: RowidOp) -> bool {
        match (self, other) {
            (RowidOp::Eq(a), RowidOp::Eq(b)) => a.same(b),
            (RowidOp::Range { lo, hi }, RowidOp::Range { lo: b_lo, hi: b_hi }) => {
                &&& lo.same(b_lo)
                &&& hi.same(b_hi)
            },
            _ => false,
        }
    }

    fn copied(&self) -> (r: RowidOp) {
        match self {
            RowidOp::Eq(a) => RowidOp::Eq(a.copied()),
            RowidOp::Range { lo, hi } => RowidOp::Range {
                lo: lo.copied(),
                hi: hi.copied(),
            },
        }
    }
}

impl Part for RowidScan {
    open spec fn same(self, other: RowidScan) -> bool {
        &&& self.table.same(other.table)
        &&& self.db == other.db
        &&& self.column_count == other.column_count
        &&& self.op.same(other.op)
        &&& self.direction == other.direction
    }

    fn copied(&self) -> (r: RowidScan) {
        RowidScan {
            table: self.table.copied(),
            db: self.db,
            column_count: self.column_count,
            op: self.op.copied(),
            direction: self.direction,
        }
    }
}

impl Part for IndexOp {
    open spec fn same(self, other: IndexOp) -> bool {
        match (self, other) {
            (
                IndexOp::Seek { eq_prefix, lo, hi },
                IndexOp::Seek { eq_prefix: b_eq_prefix, lo: b_lo, hi: b_hi },
            ) => {
                &&& eq_prefix.same(b_eq_prefix)
                &&& lo.same(b_lo)
                &&& hi.same(b_hi)
            },
            (IndexOp::FullScan, IndexOp::FullScan) => true,
            _ => false,
        }
    }

    fn copied(&self) -> (r: IndexOp) {
        match self {
            IndexOp::Seek { eq_prefix, lo, hi } => IndexOp::Seek {
                eq_prefix: eq_prefix.copied(),
                lo: lo.copied(),
                hi: hi.copied(),
            },
            IndexOp::FullScan => IndexOp::FullScan,
        }
    }
}

impl Part for IndexScan {
    open spec fn same(self, other: IndexScan) -> bool {
        &&& self.table.same(other.table)
        &&& self.db == other.db
        &&& self.column_count == other.column_count
        &&& self.index.same(other.index)
        &&& self.op.same(other.op)
        &&& self.direction == other.direction
        &&& self.covering == other.covering
    }

    fn copied(&self) -> (r: IndexScan) {
        IndexScan {
            table: self.table.copied(),
            db: self.db,
            column_count: self.column_count,
            index: self.index.copied(),
            op: self.op.copied(),
            direction: self.direction,
            covering: self.covering,
        }
    }
}

impl Part for SortKey {
    open spec fn same(self, other: SortKey) -> bool {
        &&& self.expr.same(other.expr)
        &&& self.desc == other.desc
        &&& self.nulls_first == other.nulls_first
        &&& self.collation == other.collation
    }

    fn copied(&self) -> (r: SortKey) {
        SortKey {
            expr: self.expr.copied(),
            desc: self.desc,
            nulls_first: self.nulls_first,
            collation: self.collation,
        }
    }
}

impl Part for AggregateCall {
    open spec fn same(self, other: AggregateCall) -> bool {
        &&& self.func.same(other.func)
        &&& self.args.same(other.args)
        &&& self.arg_collations.same(other.arg_collations)
        &&& self.distinct == other.distinct
        &&& self.filter.same(other.filter)
        &&& self.order_by.same(other.order_by)
    }

    fn copied(&self) -> (r: AggregateCall) {
        AggregateCall {
            func: self.func.copied(),
            args: self.args.copied(),
            arg_collations: self.arg_collations.copied(),
            distinct: self.distinct,
            filter: self.filter.copied(),
            order_by: self.order_by.copied(),
        }
    }
}

impl Part for FrameBound {
    open spec fn same(self, other: FrameBound) -> bool {
        match (self, other) {
            (FrameBound::UnboundedPreceding, FrameBound::UnboundedPreceding) => true,
            (FrameBound::Preceding(a), FrameBound::Preceding(b)) => a.same(b),
            (FrameBound::CurrentRow, FrameBound::CurrentRow) => true,
            (FrameBound::Following(a), FrameBound::Following(b)) => a.same(b),
            (FrameBound::UnboundedFollowing, FrameBound::UnboundedFollowing) => true,
            _ => false,
        }
    }

    fn copied(&self) -> (r: FrameBound) {
        match self {
            FrameBound::UnboundedPreceding => FrameBound::UnboundedPreceding,
            FrameBound::Preceding(a) => FrameBound::Preceding(a.copied()),
            FrameBound::CurrentRow => FrameBound::CurrentRow,
            FrameBound::Following(a) => FrameBound::Following(a.copied()),
            FrameBound::UnboundedFollowing => FrameBound::UnboundedFollowing,
        }
    }
}

impl Part for WindowFrame {
    open spec fn same(self, other: WindowFrame) -> bool {
        &&& self.units == other.units
        &&& self.start.same(other.start)
        &&& self.end.same(other.end)
        &&& self.exclude == other.exclude
    }

    fn copied(&self) -> (r: WindowFrame) {
        WindowFrame {
            units: self.units,
            start: self.start.copied(),
            end: self.end.copied(),
            exclude: self.exclude,
        }
    }
}

impl Part for WindowFuncKind {
    open spec fn same(self, other: WindowFuncKind) -> bool {
        match (self, other) {
            (WindowFuncKind::Aggregate(a), WindowFuncKind::Aggregate(b)) => a.same(b),
            (WindowFuncKind::RowNumber, WindowFuncKind::RowNumber) => true,
            (WindowFuncKind::Rank, WindowFuncKind::Rank) => true,
            (WindowFuncKind::DenseRank, WindowFuncKind::DenseRank) => true,
            (WindowFuncKind::PercentRank, WindowFuncKind::PercentRank) => true,
            (WindowFuncKind::CumeDist, WindowFuncKind::CumeDist) => true,
            (WindowFuncKind::Ntile(a), WindowFuncKind::Ntile(b)) => a.same(b),
            (
                WindowFuncKind::Lag { expr, offset, default },
                WindowFuncKind::Lag { expr: b_expr, offset: b_offset, default: b_default },
            ) => {
                &&& expr.same(b_expr)
                &&& offset.same(b_offset)
                &&& default.same(b_default)
            },
            (
                WindowFuncKind::Lead { expr, offset, default },
                WindowFuncKind::Lead { expr: b_expr, offset: b_offset, default: b_default },
            ) => {
                &&& expr.same(b_expr)
                &&& offset.same(b_offset)
                &&& default.same(b_default)
            },
            (WindowFuncKind::FirstValue(a), WindowFuncKind::FirstValue(b)) => a.same(b),
            (WindowFuncKind::LastValue(a), WindowFuncKind::LastValue(b)) => a.same(b),
            (
                WindowFuncKind::NthValue { expr, n },
                WindowFuncKind::NthValue { expr: b_expr, n: b_n },
            ) => {
                &&& expr.same(b_expr)
                &&& n.same(b_n)
            },
            _ => false,
        }
    }

    fn copied(&self) -> (r: WindowFuncKind) {
        match self {
            WindowFuncKind::Aggregate(a) => WindowFuncKind::Aggregate(a.copied()),
            WindowFuncKind::RowNumber => WindowFuncKind::RowNumber,
            WindowFuncKind::Rank => WindowFuncKind::Rank,
            WindowFuncKind::DenseRank => WindowFuncKind::DenseRank,
            WindowFuncKind::PercentRank => WindowFuncKind::PercentRank,
            WindowFuncKind::CumeDist => WindowFuncKind::CumeDist,
            WindowFuncKind::Ntile(a) => WindowFuncKind::Ntile(a.copied()),
            WindowFuncKind::Lag { expr, offset, default } => WindowFuncKind::Lag {
                expr: expr.copied(),
                offset: offset.copied(),
                default: default.copied(),
            },
            WindowFuncKind::Lead { expr, offset, default } => WindowFuncKind::Lead {
                expr: expr.copied(),
                offset: offset.copied(),
                default: default.copied(),
            },
            WindowFuncKind::FirstValue(a) => WindowFuncKind::FirstValue(a.copied()),
            WindowFuncKind::LastValue(a) => WindowFuncKind::LastValue(a.copied()),
            WindowFuncKind::NthValue { expr, n } => WindowFuncKind::NthValue {
                expr: expr.copied(),
                n: n.copied(),
            },
        }
    }
}

impl Part for WindowFunc {
    open spec fn same(self, other: WindowFunc) -> bool {
        &&& self.kind.same(other.kind)
        &&& self.partition_by.same(other.partition_by)
        &&& self.partition_collations.same(other.partition_collations)
        &&& self.order_by.same(other.order_by)
        &&& self.frame.same(other.frame)
    }

    fn copied(&self) -> (r: WindowFunc) {
        WindowFunc {
            kind: self.kind.copied(),
            partition_by: self.partition_by.copied(),
            partition_collations: self.partition_collations.copied(),
            order_by: self.order_by.copied(),
            frame: self.frame.copied(),
        }
    }
}

impl Part for PragmaFunction {
    open spec fn same(self, other: PragmaFunction) -> bool {
        &&& self.name.same(other.name)
        &&& self.columns.same(other.columns)
    }

    fn copied(&self) -> (r: PragmaFunction) {
        PragmaFunction {
            name: self.name.copied(),
            columns: self.columns.copied(),
        }
    }
}

impl Part for GeneratedProgram {
    open spec fn same(self, other: GeneratedProgram) -> bool {
        &&& self.col_index == other.col_index
        &&& self.expr.same(other.expr)
        &&& self.stored == other.stored
        &&& self.affinity == other.affinity
    }

    fn copied(&self) -> (r: GeneratedProgram) {
        GeneratedProgram {
            col_index: self.col_index,
            expr: self.expr.copied(),
            stored: self.stored,
            affinity: self.affinity,
        }
    }
}

impl Part for TableGenerated {
    open spec fn same(self, other: TableGenerated) -> bool {
        &&& self.db == other.db
        &&& self.table.same(other.table)
        &&& self.programs.same(other.programs)
    }

    fn copied(&self) -> (r: TableGenerated) {
        TableGenerated {
            db: self.db,
            table: self.table.copied(),
            programs: self.programs.copied(),
        }
    }
}

impl Part for SortLimit {
    open spec fn same(self, other: SortLimit) -> bool {
        &&& self.limit.same(other.limit)
        &&& self.offset.same(other.offset)
    }

    fn copied(&self) -> (r: SortLimit) {
        SortLimit {
            limit: self.limit.copied(),
            offset: self.offset.copied(),
        }
    }
}

impl Part for JoinStrategy {
    open spec fn same(self, other: JoinStrategy) -> bool {
        match (self, other) {
            (JoinStrategy::NestedLoop, JoinStrategy::NestedLoop) => true,
            (
                JoinStrategy::Hash { left_keys, right_keys, key_collations },
                JoinStrategy::Hash {
                    left_keys: b_left_keys,
                    right_keys: b_right_keys,
                    key_collations: b_key_collations,
                },
            ) => {
                &&& left_keys.same(b_left_keys)
                &&& right_keys.same(b_right_keys)
                &&& key_collations.same(b_key_collations)
            },
            (JoinStrategy::IndexNestedLoop, JoinStrategy::IndexNestedLoop) => true,
            _ => false,
        }
    }

    fn copied(&self) -> (r: JoinStrategy) {
        match self {
            JoinStrategy::NestedLoop => JoinStrategy::NestedLoop,
            JoinStrategy::Hash { left_keys, right_keys, key_collations } => JoinStrategy::Hash {
                left_keys: left_keys.copied(),
                right_keys: right_keys.copied(),
                key_collations: key_collations.copied(),
            },
            JoinStrategy::IndexNestedLoop => JoinStrategy::IndexNestedLoop,
        }
    }
}

impl Part for MinMaxBare {
    open spec fn same(self, other: MinMaxBare) -> bool {
        &&& self.agg_index == other.agg_index
        &&& self.is_max == other.is_max
        &&& self.captured_regs.same(other.captured_regs)
    }

    fn copied(&self) -> (r: MinMaxBare) {
        MinMaxBare {
            agg_index: self.agg_index,
            is_max: self.is_max,
            captured_regs: self.captured_regs.copied(),
        }
    }
}

impl Part for MinMaxSource {
    open spec fn same(self, other: MinMaxSource) -> bool {
        match (self, other) {
            (MinMaxSource::Rowid, MinMaxSource::Rowid) => true,
            (MinMaxSource::Index { index }, MinMaxSource::Index { index: b_index }) => {
                &&& index.same(b_index)
            },
            _ => false,
        }
    }

    fn copied(&self) -> (r: MinMaxSource) {
        match self {
            MinMaxSource::Rowid => MinMaxSource::Rowid,
            MinMaxSource::Index { index } => MinMaxSource::Index {
                index: index.copied(),
            },
        }
    }
}

impl Part for MinMaxSeek {
    open spec fn same(self, other: MinMaxSeek) -> bool {
        &&& self.table.same(other.table)
        &&& self.db == other.db
        &&& self.is_max == other.is_max
        &&& self.source.same(other.source)
    }

    fn copied(&self) -> (r: MinMaxSeek) {
        MinMaxSeek {
            table: self.table.copied(),
            db: self.db,
            is_max: self.is_max,
            source: self.source.copied(),
        }
    }
}

impl Part for ConflictTarget {
    open spec fn same(self, other: ConflictTarget) -> bool {
        match (self, other) {
            (ConflictTarget::Any, ConflictTarget::Any) => true,
            (ConflictTarget::Columns(a), ConflictTarget::Columns(b)) => a.same(b),
            (ConflictTarget::ExprIndex(a), ConflictTarget::ExprIndex(b)) => a == b,
            _ => false,
        }
    }

    fn copied(&self) -> (r: ConflictTarget) {
        match self {
            ConflictTarget::Any => ConflictTarget::Any,
            ConflictTarget::Columns(a) => ConflictTarget::Columns(a.copied()),
            ConflictTarget::ExprIndex(a) => ConflictTarget::ExprIndex(*a),
        }
    }
}

impl Part for UpsertActionPlan {
    open spec fn same(self, other: UpsertActionPlan) -> bool {
        match (self, other) {
            (UpsertActionPlan::Nothing, UpsertActionPlan::Nothing) => true,
            (
                UpsertActionPlan::Update { assignments, predicate },
                UpsertActionPlan::Update { assignments: b_assignments, predicate: b_predicate },
            ) => {
                &&& assignments.same(b_assignments)
                &&& predicate.same(b_predicate)
            },
            _ => false,
        }
    }

    fn copied(&self) -> (r: UpsertActionPlan) {
        match self {
            UpsertActionPlan::Nothing => UpsertActionPlan::Nothing,
            UpsertActionPlan::Update { assignments, predicate } => UpsertActionPlan::Update {
                assignments: assignments.copied(),
                predicate: predicate.copied(),
            },
        }
    }
}

impl Part for UpsertClause {
    open spec fn same(self, other: UpsertClause) -> bool {
        &&& self.target.same(other.target)
        &&& self.action.same(other.action)
    }

    fn copied(&self) -> (r: UpsertClause) {
        UpsertClause {
            target: self.target.copied(),
            action: self.action.copied(),
        }
    }
}

impl Part for UpsertPlan {
    open spec fn same(self, other: UpsertPlan) -> bool {
        &&& self.clauses.same(other.clauses)
    }

    fn copied(&self) -> (r: UpsertPlan) {
        UpsertPlan {
            clauses: self.clauses.copied(),
        }
    }
}

impl Part for CheckConstraint {
    open spec fn same(self, other: CheckConstraint) -> bool {
        &&& self.expr.same(other.expr)
        &&& self.detail.same(other.detail)
    }

    fn copied(&self) -> (r: CheckConstraint) {
        CheckConstraint {
            expr: self.expr.copied(),
            detail: self.detail.copied(),
        }
    }
}

impl Part for ColumnSpec {
    open spec fn same(self, other: ColumnSpec) -> bool {
        &&& self.name.same(other.name)
        &&& self.declared_type.same(other.declared_type)
    }

    fn copied(&self) -> (r: ColumnSpec) {
        ColumnSpec {
            name: self.name.copied(),
            declared_type: self.declared_type.copied(),
        }
    }
}

impl Part for CreateTablePlan {
    open spec fn same(self, other: CreateTablePlan) -> bool {
        &&& self.name.same(other.name)
        &&& self.columns.same(other.columns)
        &&& self.if_not_exists == other.if_not_exists
    }

    fn copied(&self) -> (r: CreateTablePlan) {
        CreateTablePlan {
            name: self.name.copied(),
            columns: self.columns.copied(),
            if_not_exists: self.if_not_exists,
        }
    }
}

impl Part for CreateIndexPlan {
    open spec fn same(self, other: CreateIndexPlan) -> bool {
        &&& self.name.same(other.name)
        &&& self.table.same(other.table)
        &&& self.columns.same(other.columns)
        &&& self.unique == other.unique
        &&& self.if_not_exists == other.if_not_exists
    }

    fn copied(&self) -> (r: CreateIndexPlan) {
        CreateIndexPlan {
            name: self.name.copied(),
            table: self.table.copied(),
            columns: self.columns.copied(),
            unique: self.unique,
            if_not_exists: self.if_not_exists,
        }
    }
}

impl Join {
    /// Whether another is the same.
    pub open spec fn same(self, other: Join) -> bool
        decreases self,
    {
        &&& (*self.left).same(*other.left)
        &&& self.left_width == other.left_width
        &&& (*self.right).same(*other.right)
        &&& self.right_width == other.right_width
        &&& self.join_type == other.join_type
        &&& self.on.same(other.on)
        &&& self.strategy.same(other.strategy)
    }

    /// A second copy.
    pub fn copied(&self) -> (r: Join)
        ensures
            self.same(r),
        decreases self,
    {
        Join {
            left: Box::new(self.left.copied()),
            left_width: self.left_width,
            right: Box::new(self.right.copied()),
            right_width: self.right_width,
            join_type: self.join_type,
            on: self.on.copied(),
            strategy: self.strategy.copied(),
        }
    }
}

impl Aggregate {
    /// Whether another is the same.
    pub open spec fn same(self, other: Aggregate) -> bool
        decreases self,
    {
        &&& (*self.input).same(*other.input)
        &&& self.group_by.same(other.group_by)
        &&& self.group_collations.same(other.group_collations)
        &&& self.aggregates.same(other.aggregates)
        &&& self.having.same(other.having)
        &&& self.minmax_bare.same(other.minmax_bare)
        &&& self.bare_arbitrary.same(other.bare_arbitrary)
    }

    /// A second copy.
    pub fn copied(&self) -> (r: Aggregate)
        ensures
            self.same(r),
        decreases self,
    {
        Aggregate {
            input: Box::new(self.input.copied()),
            group_by: self.group_by.copied(),
            group_collations: self.group_collations.copied(),
            aggregates: self.aggregates.copied(),
            having: self.having.copied(),
            minmax_bare: self.minmax_bare.copied(),
            bare_arbitrary: self.bare_arbitrary.copied(),
        }
    }
}

impl SetOp {
    /// Whether another is the same.
    pub open spec fn same(self, other: SetOp) -> bool
        decreases self,
    {
        &&& self.op == other.op
        &&& (*self.left).same(*other.left)
        &&& (*self.right).same(*other.right)
        &&& self.column_collations.same(other.column_collations)
    }

    /// A second copy.
    pub fn copied(&self) -> (r: SetOp)
        ensures
            self.same(r),
        decreases self,
    {
        SetOp {
            op: self.op,
            left: Box::new(self.left.copied()),
            right: Box::new(self.right.copied()),
            column_collations: self.column_collations.copied(),
        }
    }
}

impl Window {
    /// Whether another is the same.
    pub open spec fn same(self, other: Window) -> bool
        decreases self,
    {
        &&& (*self.input).same(*other.input)
        &&& self.functions.same(other.functions)
    }

    /// A second copy.
    pub fn copied(&self) -> (r: Window)
        ensures
            self.same(r),
        decreases self,
    {
        Window {
            input: Box::new(self.input.copied()),
            functions: self.functions.copied(),
        }
    }
}

impl Insert {
    /// Whether another is the same.
    pub open spec fn same(self, other: Insert) -> bool
        decreases self,
    {
        &&& self.table.same(other.table)
        &&& self.db == other.db
        &&& self.column_count == other.column_count
        &&& self.columns.same(other.columns)
        &&& (*self.source).same(*other.source)
        &&& self.source_width == other.source_width
        &&& self.column_affinities.same(other.column_affinities)
        &&& self.on_conflict == other.on_conflict
        &&& self.returning.same(other.returning)
        &&& same_programs(self.triggers@, other.triggers@)
        &&& self.checks.same(other.checks)
        &&& self.rowid_source == other.rowid_source
        &&& self.upsert.same(other.upsert)
        &&& self.index_key_exprs.same(other.index_key_exprs)
        &&& self.index_partial_predicates.same(other.index_partial_predicates)
    }

    /// A second copy.
    pub fn copied(&self) -> (r: Insert)
        ensures
            self.same(r),
        decreases self,
    {
        Insert {
            table: self.table.copied(),
            db: self.db,
            column_count: self.column_count,
            columns: self.columns.copied(),
            source: Box::new(self.source.copied()),
            source_width: self.source_width,
            column_affinities: self.column_affinities.copied(),
            on_conflict: self.on_conflict,
            returning: self.returning.copied(),
            triggers: copied_programs(&self.triggers),
            checks: self.checks.copied(),
            rowid_source: self.rowid_source,
            upsert: self.upsert.copied(),
            index_key_exprs: self.index_key_exprs.copied(),
            index_partial_predicates: self.index_partial_predicates.copied(),
        }
    }
}

impl Update {
    /// Whether another is the same.
    pub open spec fn same(self, other: Update) -> bool
        decreases self,
    {
        &&& self.table.same(other.table)
        &&& self.db == other.db
        &&& self.column_count == other.column_count
        &&& self.assignments.same(other.assignments)
        &&& (*self.scan).same(*other.scan)
        &&& self.column_affinities.same(other.column_affinities)
        &&& self.on_conflict == other.on_conflict
        &&& self.returning.same(other.returning)
        &&& same_programs(self.triggers@, other.triggers@)
        &&& self.checks.same(other.checks)
        &&& self.index_key_exprs.same(other.index_key_exprs)
        &&& self.index_partial_predicates.same(other.index_partial_predicates)
    }

    /// A second copy.
    pub fn copied(&self) -> (r: Update)
        ensures
            self.same(r),
        decreases self,
    {
        Update {
            table: self.table.copied(),
            db: self.db,
            column_count: self.column_count,
            assignments: self.assignments.copied(),
            scan: Box::new(self.scan.copied()),
            column_affinities: self.column_affinities.copied(),
            on_conflict: self.on_conflict,
            returning: self.returning.copied(),
            triggers: copied_programs(&self.triggers),
            checks: self.checks.copied(),
            index_key_exprs: self.index_key_exprs.copied(),
            index_partial_predicates: self.index_partial_predicates.copied(),
        }
    }
}

impl Delete {
    /// Whether another is the same.
    pub open spec fn same(self, other: Delete) -> bool
        decreases self,
    {
        &&& self.table.same(other.table)
        &&& self.db == other.db
        &&& self.column_count == other.column_count
        &&& (*self.scan).same(*other.scan)
        &&& self.returning.same(other.returning)
        &&& same_programs(self.triggers@, other.triggers@)
        &&& self.index_key_exprs.same(other.index_key_exprs)
        &&& self.index_partial_predicates.same(other.index_partial_predicates)
    }

    /// A second copy.
    pub fn copied(&self) -> (r: Delete)
        ensures
            self.same(r),
        decreases self,
    {
        Delete {
            table: self.table.copied(),
            db: self.db,
            column_count: self.column_count,
            scan: Box::new(self.scan.copied()),
            returning: self.returning.copied(),
            triggers: copied_programs(&self.triggers),
            index_key_exprs: self.index_key_exprs.copied(),
            index_partial_predicates: self.index_partial_predicates.copied(),
        }
    }
}

impl InsteadOf {
    /// Whether another is the same.
    pub open spec fn same(self, other: InsteadOf) -> bool
        decreases self,
    {
        &&& self.view.same(other.view)
        &&& self.event == other.event
        &&& self.column_count == other.column_count
        &&& (*self.frame_source).same(*other.frame_source)
        &&& same_programs(self.programs@, other.programs@)
        &&& self.returning.same(other.returning)
    }

    /// A second copy.
    pub fn copied(&self) -> (r: InsteadOf)
        ensures
            self.same(r),
        decreases self,
    {
        InsteadOf {
            view: self.view.copied(),
            event: self.event,
            column_count: self.column_count,
            frame_source: Box::new(self.frame_source.copied()),
            programs: copied_programs(&self.programs),
            returning: self.returning.copied(),
        }
    }
}

impl TriggerProgram {
    /// Whether another is the same.
    pub open spec fn same(self, other: TriggerProgram) -> bool
        decreases self,
    {
        &&& self.name.same(other.name)
        &&& self.timing == other.timing
        &&& self.when.same(other.when)
        &&& same_plans(self.actions@, other.actions@)
    }

    /// A second copy.
    pub fn copied(&self) -> (r: TriggerProgram)
        ensures
            self.same(r),
        decreases self,
    {
        TriggerProgram {
            name: self.name.copied(),
            timing: self.timing,
            when: self.when.copied(),
            actions: copied_plans(&self.actions),
        }
    }
}

impl SubPlan {
    /// Whether another is the same.
    pub open spec fn same(self, other: SubPlan) -> bool
        decreases self,
    {
        &&& self.plan.same(other.plan)
        &&& self.correlated == other.correlated
        &&& self.correlated_cols.same(other.correlated_cols)
        &&& self.deterministic == other.deterministic
        &&& self.outer_width == other.outer_width
    }

    /// A second copy.
    pub fn copied(&self) -> (r: SubPlan)
        ensures
            self.same(r),
        decreases self,
    {
        SubPlan {
            plan: self.plan.copied(),
            correlated: self.correlated,
            correlated_cols: self.correlated_cols.copied(),
            deterministic: self.deterministic,
            outer_width: self.outer_width,
        }
    }
}

impl CtePlan {
    /// Whether another is the same.
    pub open spec fn same(self, other: CtePlan) -> bool
        decreases self,
    {
        match (self, other) {
            (
                CtePlan::Materialized { name, column_count, body },
                CtePlan::Materialized { name: b_name, column_count: b_column_count, body: b_body },
            ) => {
                &&& name.same(b_name)
                &&& column_count == b_column_count
                &&& body.same(b_body)
            },
            (
                CtePlan::Recursive { name, column_count, seed, step, union_all },
                CtePlan::Recursive {
                    name: b_name,
                    column_count: b_column_count,
                    seed: b_seed,
                    step: b_step,
                    union_all: b_union_all,
                },
            ) => {
                &&& name.same(b_name)
                &&& column_count == b_column_count
                &&& seed.same(b_seed)
                &&& step.same(b_step)
                &&& union_all == b_union_all
            },
            _ => false,
        }
    }

    /// A second copy.
    pub fn copied(&self) -> (r: CtePlan)
        ensures
            self.same(r),
        decreases self,
    {
        match self {
            CtePlan::Materialized { name, column_count, body } => CtePlan::Materialized {
                name: name.copied(),
                column_count: *column_count,
                body: body.copied(),
            },
            CtePlan::Recursive { name, column_count, seed, step, union_all } => CtePlan::Recursive {
                name: name.copied(),
                column_count: *column_count,
                seed: seed.copied(),
                step: step.copied(),
                union_all: *union_all,
            },
        }
    }
}

impl Plan {
    /// Whether another is the same.
    pub open spec fn same(self, other: Plan) -> bool
        decreases self,
    {
        &&& self.root.same(other.root)
        &&& self.result_columns.same(other.result_columns)
        &&& same_ctes(self.ctes@, other.ctes@)
        &&& same_subs(self.subqueries@, other.subqueries@)
        &&& self.mutates == other.mutates
        &&& self.generated.same(other.generated)
    }

    /// A second copy.
    pub fn copied(&self) -> (r: Plan)
        ensures
            self.same(r),
        decreases self,
    {
        Plan {
            root: self.root.copied(),
            result_columns: self.result_columns.copied(),
            ctes: copied_ctes(&self.ctes),
            subqueries: copied_subs(&self.subqueries),
            mutates: self.mutates,
            generated: self.generated.copied(),
        }
    }
}

impl PlanNode {
    /// Whether another is the same.
    pub open spec fn same(self, other: PlanNode) -> bool
        decreases self,
    {
        match (self, other) {
            (PlanNode::SeqScan(a), PlanNode::SeqScan(b)) => a.same(b),
            (PlanNode::RowidScan(a), PlanNode::RowidScan(b)) => a.same(b),
            (PlanNode::IndexScan(a), PlanNode::IndexScan(b)) => a.same(b),
            (
                PlanNode::Filter { input, predicate },
                PlanNode::Filter { input: b_input, predicate: b_predicate },
            ) => {
                &&& (*input).same(*b_input)
                &&& predicate.same(b_predicate)
            },
            (
                PlanNode::Project { input, exprs },
                PlanNode::Project { input: b_input, exprs: b_exprs },
            ) => {
                &&& (*input).same(*b_input)
                &&& exprs.same(b_exprs)
            },
            (
                PlanNode::Sort { input, keys, limit },
                PlanNode::Sort { input: b_input, keys: b_keys, limit: b_limit },
            ) => {
                &&& (*input).same(*b_input)
                &&& keys.same(b_keys)
                &&& limit.same(b_limit)
            },
            (
                PlanNode::Limit { input, limit, offset },
                PlanNode::Limit { input: b_input, limit: b_limit, offset: b_offset },
            ) => {
                &&& (*input).same(*b_input)
                &&& limit.same(b_limit)
                &&& offset.same(b_offset)
            },
            (
                PlanNode::Distinct { input, column_collations },
                PlanNode::Distinct { input: b_input, column_collations: b_column_collations },
            ) => {
                &&& (*input).same(*b_input)
                &&& column_collations.same(b_column_collations)
            },
            (PlanNode::Aggregate(a), PlanNode::Aggregate(b)) => a.same(b),
            (PlanNode::MinMaxSeek(a), PlanNode::MinMaxSeek(b)) => a.same(b),
            (PlanNode::Join(a), PlanNode::Join(b)) => a.same(b),
            (PlanNode::Values { rows }, PlanNode::Values { rows: b_rows }) => {
                &&& rows.same(b_rows)
            },
            (PlanNode::SingleRow, PlanNode::SingleRow) => true,
            (PlanNode::SetOp(a), PlanNode::SetOp(b)) => a.same(b),
            (
                PlanNode::CteScan { id, column_count },
                PlanNode::CteScan { id: b_id, column_count: b_column_count },
            ) => {
                &&& id == b_id
                &&& column_count == b_column_count
            },
            (
                PlanNode::RecursiveScan { column_count },
                PlanNode::RecursiveScan { column_count: b_column_count },
            ) => {
                &&& column_count == b_column_count
            },
            (
                PlanNode::TableFunctionScan { kind, arg, path, column_count, emit_json },
                PlanNode::TableFunctionScan {
                    kind: b_kind,
                    arg: b_arg,
                    path: b_path,
                    column_count: b_column_count,
                    emit_json: b_emit_json,
                },
            ) => {
                &&& kind == b_kind
                &&& arg.same(b_arg)
                &&& path.same(b_path)
                &&& column_count == b_column_count
                &&& emit_json == b_emit_json
            },
            (
                PlanNode::PragmaFunctionScan { kind, name_arg, schema_arg, column_count },
                PlanNode::PragmaFunctionScan {
                    kind: b_kind,
                    name_arg: b_name_arg,
                    schema_arg: b_schema_arg,
                    column_count: b_column_count,
                },
            ) => {
                &&& kind.same(b_kind)
                &&& name_arg.same(b_name_arg)
                &&& schema_arg.same(b_schema_arg)
                &&& column_count == b_column_count
            },
            (PlanNode::Window(a), PlanNode::Window(b)) => a.same(b),
            (PlanNode::Insert(a), PlanNode::Insert(b)) => a.same(b),
            (PlanNode::Update(a), PlanNode::Update(b)) => a.same(b),
            (PlanNode::Delete(a), PlanNode::Delete(b)) => a.same(b),
            (PlanNode::InsteadOf(a), PlanNode::InsteadOf(b)) => a.same(b),
            (PlanNode::CreateTable(a), PlanNode::CreateTable(b)) => a.same(b),
            (PlanNode::CreateIndex(a), PlanNode::CreateIndex(b)) => a.same(b),
            _ => false,
        }
    }

    /// A second copy.
    pub fn copied(&self) -> (r: PlanNode)
        ensures
            self.same(r),
        decreases self,
    {
        match self {
            PlanNode::SeqScan(a) => PlanNode::SeqScan(a.copied()),
            PlanNode::RowidScan(a) => PlanNode::RowidScan(a.copied()),
            PlanNode::IndexScan(a) => PlanNode::IndexScan(a.copied()),
            PlanNode::Filter { input, predicate } => PlanNode::Filter {
                input: Box::new(input.copied()),
                predicate: predicate.copied(),
            },
            PlanNode::Project { input, exprs } => PlanNode::Project {
                input: Box::new(input.copied()),
                exprs: exprs.copied(),
            },
            PlanNode::Sort { input, keys, limit } => PlanNode::Sort {
                input: Box::new(input.copied()),
                keys: keys.copied(),
                limit: limit.copied(),
            },
            PlanNode::Limit { input, limit, offset } => PlanNode::Limit {
                input: Box::new(input.copied()),
                limit: limit.copied(),
                offset: offset.copied(),
            },
            PlanNode::Distinct { input, column_collations } => PlanNode::Distinct {
                input: Box::new(input.copied()),
                column_collations: column_collations.copied(),
            },
            PlanNode::Aggregate(a) => PlanNode::Aggregate(a.copied()),
            PlanNode::MinMaxSeek(a) => PlanNode::MinMaxSeek(a.copied()),
            PlanNode::Join(a) => PlanNode::Join(a.copied()),
            PlanNode::Values { rows } => PlanNode::Values {
                rows: rows.copied(),
            },
            PlanNode::SingleRow => PlanNode::SingleRow,
            PlanNode::SetOp(a) => PlanNode::SetOp(a.copied()),
            PlanNode::CteScan { id, column_count } => PlanNode::CteScan {
                id: *id,
                column_count: *column_count,
            },
            PlanNode::RecursiveScan { column_count } => PlanNode::RecursiveScan {
                column_count: *column_count,
            },
            PlanNode::TableFunctionScan { kind, arg, path, column_count, emit_json } => {
                PlanNode::TableFunctionScan {
                    kind: *kind,
                    arg: arg.copied(),
                    path: path.copied(),
                    column_count: *column_count,
                    emit_json: *emit_json,
                }
            },
            PlanNode::PragmaFunctionScan { kind, name_arg, schema_arg, column_count } => {
                PlanNode::PragmaFunctionScan {
                    kind: kind.copied(),
                    name_arg: name_arg.copied(),
                    schema_arg: schema_arg.copied(),
                    column_count: *column_count,
                }
            },
            PlanNode::Window(a) => PlanNode::Window(a.copied()),
            PlanNode::Insert(a) => PlanNode::Insert(a.copied()),
            PlanNode::Update(a) => PlanNode::Update(a.copied()),
            PlanNode::Delete(a) => PlanNode::Delete(a.copied()),
            PlanNode::InsteadOf(a) => PlanNode::InsteadOf(a.copied()),
            PlanNode::CreateTable(a) => PlanNode::CreateTable(a.copied()),
            PlanNode::CreateIndex(a) => PlanNode::CreateIndex(a.copied()),
        }
    }
}

/// Whether two lists hold the same programs in the same order.
pub open spec fn same_programs(a: Seq<TriggerProgram>, b: Seq<TriggerProgram>) -> bool
    decreases a,
{
    &&& a.len() == b.len()
    &&& forall|i: int| 0 <= i < a.len() ==> (#[trigger] a[i]).same(b[i])
}

fn copied_programs(v: &Vec<TriggerProgram>) -> (r: Vec<TriggerProgram>)
    ensures
        same_programs(v@, r@),
    decreases v,
{
    let mut out: Vec<TriggerProgram> = Vec::new();
    let mut i: usize = 0;
    while i < v.len()
        invariant
            i <= v.len(),
            out@.len() == i,
            forall|k: int| 0 <= k < i ==> (#[trigger] v@[k]).same(out@[k]),
        decreases v.len() - i,
    {
        out.push(v[i].copied());
        i = i + 1;
    }
    out
}

/// Whether two lists hold the same plans in the same order.
pub open spec fn same_plans(a: Seq<Plan>, b: Seq<Plan>) -> bool
    decreases a,
{
    &&& a.len() == b.len()
    &&& forall|i: int| 0 <= i < a.len() ==> (#[trigger] a[i]).same(b[i])
}

fn copied_plans(v: &Vec<Plan>) -> (r: Vec<Plan>)
    ensures
        same_plans(v@, r@),
    decreases v,
{
    let mut out: Vec<Plan> = Vec::new();
    let mut i: usize = 0;
    while i < v.len()
        invariant
            i <= v.len(),
            out@.len() == i,
            forall|k: int| 0 <= k < i ==> (#[trigger] v@[k]).same(out@[k]),
        decreases v.len() - i,
    {
        out.push(v[i].copied());
        i = i + 1;
    }
    out
}

/// Whether two lists hold the same materialized bodies in the same order.
pub open spec fn same_ctes(a: Seq<CtePlan>, b: Seq<CtePlan>) -> bool
    decreases a,
{
    &&& a.len() == b.len()
    &&& forall|i: int| 0 <= i < a.len() ==> (#[trigger] a[i]).same(b[i])
}

fn copied_ctes(v: &Vec<CtePlan>) -> (r: Vec<CtePlan>)
    ensures
        same_ctes(v@, r@),
    decreases v,
{
    let mut out: Vec<CtePlan> = Vec::new();
    let mut i: usize = 0;
    while i < v.len()
        invariant
            i <= v.len(),
            out@.len() == i,
            forall|k: int| 0 <= k < i ==> (#[trigger] v@[k]).same(out@[k]),
        decreases v.len() - i,
    {
        out.push(v[i].copied());
        i = i + 1;
    }
    out
}

/// Whether two lists hold the same subqueries in the same order.
pub open spec fn same_subs(a: Seq<SubPlan>, b: Seq<SubPlan>) -> bool
    decreases a,
{
    &&& a.len() == b.len()
    &&& forall|i: int| 0 <= i < a.len() ==> (#[trigger] a[i]).same(b[i])
}

fn copied_subs(v: &Vec<SubPlan>) -> (r: Vec<SubPlan>)
    ensures
        same_subs(v@, r@),
    decreases v,
{
    let mut out: Vec<SubPlan> = Vec::new();
    let mut i: usize = 0;
    while i < v.len()
        invariant
            i <= v.len(),
            out@.len() == i,
            forall|k: int| 0 <= k < i ==> (#[trigger] v@[k]).same(out@[k]),
        decreases v.len() - i,
    {
        out.push(v[i].copied());
        i = i + 1;
    }
    out
}

impl Clone for Plan {
    fn clone(&self) -> (r: Plan)
        ensures
            self.same(r),
    {
        self.copied()
    }
}

impl Clone for PlanNode {
    fn clone(&self) -> (r: PlanNode)
        ensures
            self.same(r),
    {
        self.copied()
    }
}

impl Clone for Join {
    fn clone(&self) -> (r: Join)
        ensures
            self.same(r),
    {
        self.copied()
    }
}

impl Clone for Aggregate {
    fn clone(&self) -> (r: Aggregate)
        ensures
            self.same(r),
    {
        self.copied()
    }
}

impl Clone for SetOp {
    fn clone(&self) -> (r: SetOp)
        ensures
            self.same(r),
    {
        self.copied()
    }
}

impl Clone for Window {
    fn clone(&self) -> (r: Window)
        ensures
            self.same(r),
    {
        self.copied()
    }
}

impl Clone for CtePlan {
    fn clone(&self) -> (r: CtePlan)
        ensures
            self.same(r),
    {
        self.copied()
    }
}

impl Clone for SubPlan {
    fn clone(&self) -> (r: SubPlan)
        ensures
            self.same(r),
    {
        self.copied()
    }
}

impl Clone for TriggerProgram {
    fn clone(&self) -> (r: TriggerProgram)
        ensures
            self.same(r),
    {
        self.copied()
    }
}

impl Clone for Insert {
    fn clone(&self) -> (r: Insert)
        ensures
            self.same(r),
    {
        self.copied()
    }
}

impl Clone for Update {
    fn clone(&self) -> (r: Update)
        ensures
            self.same(r),
    {
        self.copied()
    }
}

impl Clone for Delete {
    fn clone(&self) -> (r: Delete)
        ensures
            self.same(r),
    {
        self.copied()
    }
}

impl Clone for InsteadOf {
    fn clone(&self) -> (r: InsteadOf)
        ensures
            self.same(r),
    {
        self.copied()
    }
}

} // verus!
