//! The planner: it routes each statement to its compiler.
//!
//! Queries and statements that change rows are planned. The others are executed by the engine
//! directly, and asking for a plan of one is an error.

#[allow(unused_imports)]
use vstd::prelude::*;
use vstd::string::StringExecFns;
use crate::catalog::{table_at, Catalog};
use crate::compile::assignments::a_set_list_keeps_the_subqueries;
use crate::compile::instead_of::{
    column_count, compile_view_delete, compile_view_insert, is_scanned, is_view_delete,
    is_view_insert, view_delete_early, view_delete_error, view_fits, view_insert_error,
    InsertSource, ViewDelete, ViewInsert, ViewTarget,
};
use crate::compile::meaning::{rows_of, Engine};
use crate::compile::notes::{annotate, is_noted, PlanNotes};
use crate::compile::notes_law::{
    heeds_no_covering, marking_keeps_the_rows, notes_cover_the_scans_they_are_on, only_reads,
};
use crate::compile::select::{compile_select, is_select, select_wf, Select};
use crate::compile::trigger::{triggers_wf, TriggerDef};
use crate::compile::update::{
    compile_update, is_compiled_update, target_of, update_wf, Target, TargetedUpdate,
};
use crate::error::Error;
use crate::expr::{Bound, EvalExpr};
use crate::plan::{CtePlan, GeneratedProgram, Plan, PlanNode, SubPlan};
use crate::plan_ctx::{lemma_extends_itself, CtxView, PlanCtx};
use crate::planner::Planner;
use crate::search::lemma_least_from;
use crate::text::{fold, same_name};
use crate::types::DbIndex;

verus! {

/// A statement that the engine executes directly.
#[derive(Debug, Clone, Copy, PartialEq, Eq, Structural)]
pub enum EngineStatement {
    CreateTable,
    CreateIndex,
    CreateView,
    CreateTrigger,
    Drop,
    AlterTable,
    Begin,
    Commit,
    Rollback,
    Savepoint,
    Release,
    Pragma,
    Vacuum,
    Analyze,
    Reindex,
    Attach,
    Detach,
    Explain,
    ExplainQueryPlan,
}

/// What compiling a statement on a table gave.
pub type CompiledRows = Result<(PlanNode, Vec<String>), Error>;

/// An `INSERT`: into a table, with what compiling it gave, or into a view.
#[derive(Debug)]
pub enum InsertStatement<'a> {
    Table(CompiledRows),
    View { triggers: Vec<TriggerDef<'a>>, view: ViewTarget<'a>, stmt: ViewInsert<'a> },
}

/// A `DELETE`: from a table, with what compiling it gave, or from a view.
#[derive(Debug)]
pub enum DeleteStatement<'a> {
    Table(CompiledRows),
    View { triggers: Vec<TriggerDef<'a>>, view: ViewTarget<'a>, stmt: ViewDelete<'a> },
}

/// A statement.
#[derive(Debug)]
pub enum Statement<'a> {
    Select(Select<'a>),
    Insert(InsertStatement<'a>),
    Update(TargetedUpdate<'a>),
    Delete(DeleteStatement<'a>),
    Engine(EngineStatement),
}

/// Whether the output columns that terms of the selects of a statement name are there, and the
/// rows of its target can be numbered.
pub open spec fn statement_wf(catalog: Catalog, s: Statement<'_>) -> bool {
    match s {
        Statement::Select(sel) => select_wf(sel),
        Statement::Insert(InsertStatement::View { triggers, view, stmt }) => {
            &&& triggers_wf(triggers@)
            &&& view_fits(view)
            &&& stmt.source matches InsertSource::Select(sel) ==> select_wf(sel)
        },
        Statement::Update(u) => update_wf(catalog, u),
        Statement::Delete(DeleteStatement::View { triggers, view, stmt }) => {
            &&& triggers_wf(triggers@)
            &&& view_fits(view)
            &&& select_wf(stmt.scan.body)
        },
        _ => true,
    }
}

pub open spec fn engine_kind(s: EngineStatement) -> Seq<char> {
    match s {
        EngineStatement::CreateTable => "CREATE TABLE"@,
        EngineStatement::CreateIndex => "CREATE INDEX"@,
        EngineStatement::CreateView => "CREATE VIEW"@,
        EngineStatement::CreateTrigger => "CREATE TRIGGER"@,
        EngineStatement::Drop => "DROP"@,
        EngineStatement::AlterTable => "ALTER TABLE"@,
        EngineStatement::Begin => "BEGIN"@,
        EngineStatement::Commit => "COMMIT"@,
        EngineStatement::Rollback => "ROLLBACK"@,
        EngineStatement::Savepoint => "SAVEPOINT"@,
        EngineStatement::Release => "RELEASE"@,
        EngineStatement::Pragma => "PRAGMA"@,
        EngineStatement::Vacuum => "VACUUM"@,
        EngineStatement::Analyze => "ANALYZE"@,
        EngineStatement::Reindex => "REINDEX"@,
        EngineStatement::Attach => "ATTACH"@,
        EngineStatement::Detach => "DETACH"@,
        EngineStatement::Explain => "EXPLAIN"@,
        EngineStatement::ExplainQueryPlan => "EXPLAIN QUERY PLAN"@,
    }
}

/// The name of the kind of a statement.
pub open spec fn kind_of(s: Statement<'_>) -> Seq<char> {
    match s {
        Statement::Select(_) => "SELECT"@,
        Statement::Insert(_) => "INSERT"@,
        Statement::Update(_) => "UPDATE"@,
        Statement::Delete(_) => "DELETE"@,
        Statement::Engine(e) => engine_kind(e),
    }
}

/// The name of the kind of a statement, for messages.
pub fn stmt_kind(s: &Statement<'_>) -> (r: &'static str)
    ensures
        r@ == kind_of(*s),
{
    match s {
        Statement::Select(_) => "SELECT",
        Statement::Insert(_) => "INSERT",
        Statement::Update(_) => "UPDATE",
        Statement::Delete(_) => "DELETE",
        Statement::Engine(e) => match e {
            EngineStatement::CreateTable => "CREATE TABLE",
            EngineStatement::CreateIndex => "CREATE INDEX",
            EngineStatement::CreateView => "CREATE VIEW",
            EngineStatement::CreateTrigger => "CREATE TRIGGER",
            EngineStatement::Drop => "DROP",
            EngineStatement::AlterTable => "ALTER TABLE",
            EngineStatement::Begin => "BEGIN",
            EngineStatement::Commit => "COMMIT",
            EngineStatement::Rollback => "ROLLBACK",
            EngineStatement::Savepoint => "SAVEPOINT",
            EngineStatement::Release => "RELEASE",
            EngineStatement::Pragma => "PRAGMA",
            EngineStatement::Vacuum => "VACUUM",
            EngineStatement::Analyze => "ANALYZE",
            EngineStatement::Reindex => "REINDEX",
            EngineStatement::Attach => "ATTACH",
            EngineStatement::Detach => "DETACH",
            EngineStatement::Explain => "EXPLAIN",
            EngineStatement::ExplainQueryPlan => "EXPLAIN QUERY PLAN",
        },
    }
}

pub open spec fn not_planned_message(kind: Seq<char>) -> Seq<char> {
    kind + " is executed by the engine, not the query planner"@
}

/// Whether the result, and the state after it, are those of the statement's compiler.
pub open spec fn is_compiled(
    r: CompiledRows,
    before: CtxView,
    after: CtxView,
    catalog: Catalog,
    s: Statement<'_>,
) -> bool {
    match s {
        Statement::Select(sel) => is_select(catalog, r, sel, 0) && after == before,
        Statement::Insert(InsertStatement::Table(outcome)) => r == outcome && after == before,
        Statement::Insert(InsertStatement::View { triggers, view, stmt }) => {
            &&& after == before
            &&& match (r, view_insert_error(catalog, triggers@, view, stmt, false)) {
                (Ok((node, names)), None) => is_view_insert(
                    catalog,
                    node,
                    names@,
                    triggers@,
                    view,
                    stmt,
                ),
                (Err(e), Some(text)) => e.text() == text,
                _ => false,
            }
        },
        Statement::Update(u) => is_compiled_update(r, before, after, catalog, u),
        Statement::Delete(DeleteStatement::Table(outcome)) => r == outcome && after == before,
        Statement::Delete(DeleteStatement::View { triggers, view, stmt }) => {
            &&& after.extends(before)
            &&& is_scanned(
                catalog,
                before,
                after,
                stmt.scan,
                stmt.exposed_name,
                column_count(view),
                view_delete_early(catalog, triggers@, view, stmt, false) is None,
            )
            &&& match (r, view_delete_error(catalog, triggers@, view, stmt, false)) {
                (Ok((node, names)), None) => is_view_delete(
                    catalog,
                    before,
                    after,
                    node,
                    names@,
                    triggers@,
                    view,
                    stmt,
                ),
                (Err(e), Some(text)) => e.text() == text,
                _ => false,
            }
        },
        Statement::Engine(e) => {
            &&& after == before
            &&& r matches Err(err) && err.text() == not_planned_message(engine_kind(e))
        },
    }
}

/// Compile a statement.
fn compile(ctx: &mut PlanCtx, catalog: &Catalog, statement: Statement<'_>) -> (r: CompiledRows)
    requires
        statement_wf(*catalog, statement),
    ensures
        is_compiled(r, old(ctx)@, final(ctx)@, *catalog, statement),
{
    let kind: &'static str = stmt_kind(&statement);
    match statement {
        Statement::Select(sel) => compile_select(catalog, sel),
        Statement::Insert(InsertStatement::Table(outcome)) => outcome,
        Statement::Insert(InsertStatement::View { triggers, view, stmt }) => compile_view_insert(
            catalog,
            triggers,
            view,
            stmt,
            false,
        ),
        Statement::Update(u) => compile_update(ctx, catalog, u),
        Statement::Delete(DeleteStatement::Table(outcome)) => outcome,
        Statement::Delete(DeleteStatement::View { triggers, view, stmt }) => compile_view_delete(
            ctx,
            catalog,
            triggers,
            view,
            stmt,
            false,
        ),
        Statement::Engine(_) => {
            let mut s: String = String::from_str(kind);
            s.append(" is executed by the engine, not the query planner");
            Err(Error::Sql(s))
        },
    }
}

/// Whether a statement changes rows.
pub open spec fn changes_rows(s: Statement<'_>) -> bool {
    !(s is Select)
}

/// Whether `p` is the plan of a statement as it is compiled: its rows, with the side tables that
/// compiling left and no notes yet.
pub open spec fn is_draft(
    p: Plan,
    node: PlanNode,
    names: Vec<String>,
    after: CtxView,
    s: Statement<'_>,
) -> bool {
    &&& p.root == node
    &&& p.result_columns == names
    &&& p.ctes@ == after.ctes
    &&& p.subqueries@ == after.subqueries
    &&& p.mutates == changes_rows(s)
    &&& p.generated@.len() == 0
}

/// Whether `r` is the plan of a statement: what it compiles to, with its notes, or the first
/// error.
pub open spec fn is_plan(
    r: Result<Plan, Error>,
    before: CtxView,
    catalog: Catalog,
    s: Statement<'_>,
    notes: Result<PlanNotes, Error>,
) -> bool {
    exists|rows: CompiledRows, after: CtxView|
        #![trigger is_compiled(rows, before, after, catalog, s)]
        is_compiled(rows, before, after, catalog, s) && match (rows, notes) {
            (Err(e), _) => r == Err::<Plan, Error>(e),
            (Ok(_), Err(e)) => r == Err::<Plan, Error>(e),
            (Ok((node, names)), Ok(found)) => exists|draft: Plan|
                #![trigger is_draft(draft, node, names, after, s)]
                is_draft(draft, node, names, after, s) && (r matches Ok(p) && is_noted(
                    p,
                    draft,
                    found,
                )),
        }
}

/// The engine's planner.
#[derive(Debug, Clone, Copy)]
pub struct QueryPlanner {}

/// A `CREATE INDEX` with its parts bound against its table: the key of each column that is an
/// expression, and the predicate of a partial index.
#[derive(Debug)]
pub struct CreateIndex {
    pub table: String,
    pub keys: Result<Vec<Option<EvalExpr>>, Error>,
    pub where_clause: Option<Bound>,
}

/// Whether `r` is what was bound for the table `name` of namespace `db`; an empty list without the
/// table.
pub open spec fn is_known_of<T>(
    catalog: Catalog,
    db: DbIndex,
    name: Seq<char>,
    bound: Result<Vec<T>, Error>,
    r: Result<Vec<T>, Error>,
) -> bool {
    match table_at(catalog.tables@, db, name) {
        Some(_) => r == bound,
        None => r matches Ok(v) && v@.len() == 0,
    }
}

/// Whether `r` is the predicate by which a new index is filled; none for a full index, and none
/// without its table.
pub open spec fn is_filling_predicate(
    catalog: Catalog,
    db: DbIndex,
    ci: CreateIndex,
    r: Result<Option<EvalExpr>, Error>,
) -> bool {
    match (ci.where_clause, table_at(catalog.tables@, db, ci.table@)) {
        (Some(Ok(e)), Some(_)) => r == Ok::<Option<EvalExpr>, Error>(Some(e)),
        (Some(Err(e)), Some(_)) => r == Err::<Option<EvalExpr>, Error>(e),
        _ => r == Ok::<Option<EvalExpr>, Error>(None),
    }
}

/// Whether a namespace has a table of a name.
pub open spec fn has_table(catalog: Catalog, db: DbIndex, name: Seq<char>) -> bool {
    exists|k: int|
        0 <= k < catalog.tables@.len() && (#[trigger] catalog.tables@[k]).db == db && fold(
            catalog.tables@[k].name@,
        ) == fold(name)
}

proof fn a_table_is_found_where_there_is_one(catalog: Catalog, db: DbIndex, name: Seq<char>)
    ensures
        table_at(catalog.tables@, db, name) is Some <==> has_table(catalog, db, name),
{
    let p = |k: int| catalog.tables@[k].db == db && same_name(catalog.tables@[k].name@, name);
    lemma_least_from(p, 0, catalog.tables@.len() as int);
    match table_at(catalog.tables@, db, name) {
        Some(k) => {
            assert(p(k));
        },
        None => {
            assert forall|k: int| 0 <= k < catalog.tables@.len() implies !((
            #[trigger] catalog.tables@[k]).db == db && fold(catalog.tables@[k].name@) == fold(
                name,
            )) by {
                assert(!p(k));
            }
        },
    }
}

/// A new index is filled with what was bound against its table, where its own namespace has that
/// table, and with nothing where it has not; a full index has no predicate.
pub proof fn an_index_is_filled_from_its_own_table<T>(
    catalog: Catalog,
    db: DbIndex,
    name: Seq<char>,
    bound: Result<Vec<T>, Error>,
    r: Result<Vec<T>, Error>,
    ci: CreateIndex,
    predicate: Result<Option<EvalExpr>, Error>,
)
    requires
        is_known_of(catalog, db, name, bound, r),
        is_filling_predicate(catalog, db, ci, predicate),
    ensures
        has_table(catalog, db, name) ==> r == bound,
        !has_table(catalog, db, name) ==> r is Ok && r->Ok_0@.len() == 0,
        predicate matches Ok(Some(e)) ==> has_table(catalog, db, ci.table@) && ci.where_clause
            == Some(Ok::<EvalExpr, Error>(e)),
        predicate matches Err(e) ==> has_table(catalog, db, ci.table@) && ci.where_clause == Some(
            Err::<EvalExpr, Error>(e),
        ),
        predicate == Ok::<Option<EvalExpr>, Error>(None) ==> ci.where_clause is None || !has_table(
            catalog,
            db,
            ci.table@,
        ),
{
    a_table_is_found_where_there_is_one(catalog, db, name);
    a_table_is_found_where_there_is_one(catalog, db, ci.table@);
}

impl QueryPlanner {
    /// A planner.
    pub fn new() -> (r: QueryPlanner)
        ensures
            r == (QueryPlanner {  }),
    {
        QueryPlanner {  }
    }

    /// The programs of the generated columns of a table, for filling a new index on it. `bound`
    /// is what binding them gave; a namespace without the table has none, whatever other
    /// namespaces hold.
    pub fn table_generated_programs(
        &self,
        catalog: &Catalog,
        db: DbIndex,
        table: &str,
        bound: Result<Vec<GeneratedProgram>, Error>,
    ) -> (r: Result<Vec<GeneratedProgram>, Error>)
        ensures
            is_known_of(*catalog, db, table@, bound, r),
    {
        match catalog.table_in(db, table) {
            Some(_) => bound,
            None => Ok(Vec::new()),
        }
    }

    /// The keys by which a new index is filled; none without its table.
    pub fn index_key_programs(&self, catalog: &Catalog, db: DbIndex, ci: CreateIndex) -> (r: Result<
        Vec<Option<EvalExpr>>,
        Error,
    >)
        ensures
            is_known_of(*catalog, db, ci.table@, ci.keys, r),
    {
        match catalog.table_in(db, ci.table.as_str()) {
            Some(_) => ci.keys,
            None => Ok(Vec::new()),
        }
    }

    /// The predicate by which a new partial index is filled; none for a full index, and none
    /// without its table.
    pub fn index_partial_predicate(&self, catalog: &Catalog, db: DbIndex, ci: CreateIndex) -> (r:
        Result<Option<EvalExpr>, Error>)
        ensures
            is_filling_predicate(*catalog, db, ci, r),
    {
        match ci.where_clause {
            None => Ok(None),
            Some(predicate) => match catalog.table_in(db, ci.table.as_str()) {
                None => Ok(None),
                Some(_) => match predicate {
                    Ok(e) => Ok(Some(e)),
                    Err(e) => Err(e),
                },
            },
        }
    }
}

impl Default for QueryPlanner {
    fn default() -> (r: QueryPlanner)
        ensures
            r == (QueryPlanner {  }),
    {
        QueryPlanner::new()
    }
}

impl Planner for QueryPlanner {
    fn plan(
        &self,
        ctx: PlanCtx,
        catalog: &Catalog,
        statement: Statement<'_>,
        notes: Result<PlanNotes, Error>,
    ) -> (r: Result<Plan, Error>) {
        let mut ctx = ctx;
        let mutates: bool = match &statement {
            Statement::Select(_) => false,
            _ => true,
        };
        let rows: CompiledRows = compile(&mut ctx, catalog, statement);
        let ghost after = ctx@;
        match rows {
            Err(e) => Err(e),
            Ok((root, result_columns)) => match notes {
                Err(e) => Err(e),
                Ok(found) => {
                    let (ctes, subqueries): (Vec<CtePlan>, Vec<SubPlan>) = ctx.into_tables();
                    let draft: Plan = Plan {
                        root,
                        result_columns,
                        ctes,
                        subqueries,
                        mutates,
                        generated: Vec::new(),
                    };
                    proof {
                        assert(is_draft(draft, root, result_columns, after, statement));
                    }
                    Ok(annotate(draft, found))
                },
            },
        }
    }
}

/// Compiling a statement only adds to the state that binding it left: the subqueries and the
/// bodies that its expressions name by position keep their positions.
pub proof fn registered_positions_stay_valid(
    r: CompiledRows,
    before: CtxView,
    after: CtxView,
    catalog: Catalog,
    s: Statement<'_>,
)
    requires
        is_compiled(r, before, after, catalog, s),
    ensures
        after.extends(before),
{
    lemma_extends_itself(before);
    if let Statement::Update(u) = s {
        if let Ok(db) = u.db {
            if let Target::Table(td, _) = target_of(catalog, db, u) {
                a_set_list_keeps_the_subqueries(td, u.stmt.clauses.set@, before.subqueries);
            }
        }
    }
}

/// A statement that the engine executes has no plan.
pub proof fn engine_statements_have_no_plan(
    r: Result<Plan, Error>,
    before: CtxView,
    catalog: Catalog,
    e: EngineStatement,
    notes: Result<PlanNotes, Error>,
)
    requires
        is_plan(r, before, catalog, Statement::Engine(e), notes),
    ensures
        r matches Err(err) && err.text() == not_planned_message(engine_kind(e)),
{
}

/// The plan of a statement has the rows and the columns that the statement compiles to, and says
/// that it changes data exactly where the statement is no `SELECT`. Its notes give it the programs
/// of its generated columns, and take no row from it.
pub proof fn a_plan_is_that_of_its_statement(
    e: Engine,
    p: Plan,
    before: CtxView,
    catalog: Catalog,
    s: Statement<'_>,
    notes: Result<PlanNotes, Error>,
) -> (compiled: (PlanNode, Vec<String>, CtxView))
    requires
        is_plan(Ok(p), before, catalog, s, notes),
        heeds_no_covering(e),
    ensures
        is_compiled(Ok((compiled.0, compiled.1)), before, compiled.2, catalog, s),
        p.result_columns@ == compiled.1@,
        p.mutates <==> !(s is Select),
        notes matches Ok(found) && p.generated@ == found.generated@,
        p.ctes@.len() == compiled.2.ctes.len(),
        p.subqueries@.len() == compiled.2.subqueries.len(),
        only_reads(compiled.0) ==> rows_of(e, p.root) == rows_of(e, compiled.0),
{
    let (rows, after) = choose|rows: CompiledRows, after: CtxView|
        #![trigger is_compiled(rows, before, after, catalog, s)]
        is_compiled(rows, before, after, catalog, s) && match (rows, notes) {
            (Err(e), _) => false,
            (Ok(_), Err(e)) => false,
            (Ok((node, names)), Ok(found)) => exists|draft: Plan|
                #![trigger is_draft(draft, node, names, after, s)]
                is_draft(draft, node, names, after, s) && is_noted(p, draft, found),
        };
    let (node, names) = rows->Ok_0;
    let found = notes->Ok_0;
    let draft = choose|draft: Plan|
        #![trigger is_draft(draft, node, names, after, s)]
        is_draft(draft, node, names, after, s) && is_noted(p, draft, found);
    notes_cover_the_scans_they_are_on(p, draft, found);
    if only_reads(node) {
        marking_keeps_the_rows(e, node, found.covering@, 0);
    }
    (node, names, after)
}

/// Each statement goes to its own compiler: a `SELECT` is planned on its own, with no row before it;
/// what compiling an `INSERT` into a table or a `DELETE` from one gave is passed on; a statement on a
/// view fires the triggers for what it does; an `UPDATE` updates a table or fires the update
/// triggers of a view. Nothing else has a plan.
pub proof fn each_statement_goes_to_its_compiler(
    node: PlanNode,
    names: Vec<String>,
    before: CtxView,
    after: CtxView,
    catalog: Catalog,
    s: Statement<'_>,
)
    requires
        is_compiled(Ok((node, names)), before, after, catalog, s),
    ensures
        match s {
            Statement::Select(sel) => is_select(catalog, Ok((node, names)), sel, 0) && after
                == before,
            Statement::Insert(InsertStatement::Table(outcome)) => outcome == CompiledRows::Ok(
                (node, names),
            ),
            Statement::Delete(DeleteStatement::Table(outcome)) => outcome == CompiledRows::Ok(
                (node, names),
            ),
            Statement::Insert(InsertStatement::View { .. }) => node is InsteadOf
                && node->InsteadOf_0.event is Insert,
            Statement::Delete(DeleteStatement::View { .. }) => node is InsteadOf
                && node->InsteadOf_0.event is Delete,
            Statement::Update(u) => u.db is Ok && (node is Update || node is InsteadOf
                && node->InsteadOf_0.event is Update),
            Statement::Engine(_) => false,
        },
{
}

} // verus!
