//! A verified query-planning core for a small SQL engine.
//!
//! A statement reaches this crate with its names resolved: expressions are bound to registers,
//! and what resolving or binding a part gave, a value or an error, stands in the statement's
//! types as a `Result`. The compilers decide the shape of the plan, and which of several errors
//! a statement has; their contracts say both exactly.
//!
//! * [`plan`]: the plan vocabulary, and how rows lie in registers.
//! * [`compile`]: one module per statement or clause. Beside it stand the modules whose names end in
//!   `law`: what a plan means, and that it means what its statement says.
//! * [`plan_ctx`]: the state of planning one statement, with its parameter numbers.
//! * [`query_planner`]: the route from a statement to its plan.

pub mod access;
pub mod catalog;
pub mod compile;
pub mod copies;
pub mod error;
pub mod expr;
pub mod expr_law;
pub mod plan;
pub mod plan_ctx;
pub mod planner;
pub mod query_planner;
pub mod scope;
pub mod search;
pub mod text;
pub mod types;
pub mod window;

pub use access::{IndexOp, IndexScan, RangeBound, RowidOp, RowidScan, ScanDirection, SeqScan};
pub use compile::select::{compile_select, Compiled};
pub use compile::subquery::compile_subquery;
pub use compile::trigger::{compile_triggers, TriggerDmlEvent};
pub use plan::{
    Aggregate, CheckConstraint, ColumnSpec, ConflictTarget, CreateIndexPlan, CreateTablePlan,
    CtePlan, Delete, GeneratedProgram, Insert, InsteadOf, InsteadOfEvent, Join, JoinStrategy,
    JoinType, MinMaxBare, MinMaxSeek, MinMaxSource, OnConflict, Plan, PlanNode, SetOp, SetOpKind,
    SortLimit, SubPlan, TableGenerated, TriggerProgram, TriggerTiming, Update, UpsertActionPlan,
    UpsertClause, UpsertPlan, Window, WindowFunc,
};
pub use plan_ctx::PlanCtx;
pub use planner::Planner;
pub use query_planner::QueryPlanner;
pub use scope::Source;
pub use window::{FrameBound, FrameExclude, FrameUnits, WindowFrame, WindowFuncKind};
