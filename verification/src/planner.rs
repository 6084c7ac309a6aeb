//! The planning seam.

#[allow(unused_imports)]
use vstd::prelude::*;
use crate::catalog::Catalog;
use crate::compile::notes::PlanNotes;
use crate::error::Error;
use crate::plan::Plan;
use crate::plan_ctx::PlanCtx;
use crate::query_planner::{is_plan, statement_wf, Statement};

verus! {

/// The one route from a statement to its plan. Planning reads the catalog and changes nothing:
/// what a statement changes is in the plan that the executor runs.
pub trait Planner {
    /// Compile one statement. `ctx` is the state that binding it left, and `notes` what the
    /// passes over the compiled plan found.
    fn plan(
        &self,
        ctx: PlanCtx,
        catalog: &Catalog,
        statement: Statement<'_>,
        notes: Result<PlanNotes, Error>,
    ) -> (r: Result<Plan, Error>)
        requires
            statement_wf(*catalog, statement),
        ensures
            is_plan(r, ctx@, *catalog, statement, notes),
    ;
}

} // verus!
