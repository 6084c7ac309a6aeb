//! `UPDATE`.
//!
//! The scan of an update leads with the row of the target, `[c0 .. c_{N-1}, rowid]`. In an
//! `UPDATE .. FROM` the columns of the other tables follow it, and the `WHERE` is what joins
//! them: a row of the target that matches nothing is left as it is.

#[allow(unused_imports)]
use vstd::prelude::*;
use vstd::slice::slice_subrange;
use vstd::string::StringExecFns;
use crate::access::SeqScan;
use crate::catalog::{table_at, Catalog, ColumnDef, TableDef};
use crate::compile::assignments::{bind_assignments, set_assigned, SetClause};
use crate::compile::emit_json::{emitting, finalize_tvf_emit_json, json_named};
use crate::compile::instead_of::{
    column_count, compile_view_update, is_scanned, is_view_update, nested_view_error,
    refuse_nested_update, view_fits, view_update_early, view_update_error, ViewScan, ViewTarget,
    ViewUpdate,
};
use crate::compile::returning::{
    are_returned, bind_returning, output_exprs, outputs, ReturningColumn,
};
use crate::compile::select::{select_wf, BuiltFrom};
use crate::compile::trigger::{
    are_programs, compile_triggers, frame_fits, triggers_error, triggers_wf, DmlView, TargetKind,
    TriggerDef, TriggerDmlEvent,
};
use crate::error::{error_of, failure, first_error, Error};
use crate::expr::{predicate_error, predicate_of, take_predicate, Bound, EvalExpr};
use crate::plan::{
    filter_by, filtered, CheckConstraint, OnConflict, PlanNode, TriggerProgram, Update,
};
use crate::plan_ctx::{CtxView, PlanCtx};
use crate::scope::Source;
use crate::types::{Affinity, DbIndex};

verus! {

/// The conflict clause of a statement.
#[derive(Debug, Clone, Copy, PartialEq, Eq, Structural)]
pub enum ConflictClause {
    Rollback,
    Abort,
    Fail,
    Ignore,
    Replace,
}

/// What a conflict clause asks for; a statement without one aborts.
pub open spec fn resolution(c: Option<ConflictClause>) -> OnConflict {
    match c {
        None => OnConflict::Abort,
        Some(ConflictClause::Abort) => OnConflict::Abort,
        Some(ConflictClause::Rollback) => OnConflict::Rollback,
        Some(ConflictClause::Fail) => OnConflict::Fail,
        Some(ConflictClause::Ignore) => OnConflict::Ignore,
        Some(ConflictClause::Replace) => OnConflict::Replace,
    }
}

/// What a conflict clause asks for; a statement without one aborts.
pub fn map_on_conflict(c: Option<ConflictClause>) -> (r: OnConflict)
    ensures
        r == resolution(c),
{
    match c {
        None => OnConflict::Abort,
        Some(ConflictClause::Abort) => OnConflict::Abort,
        Some(ConflictClause::Rollback) => OnConflict::Rollback,
        Some(ConflictClause::Fail) => OnConflict::Fail,
        Some(ConflictClause::Ignore) => OnConflict::Ignore,
        Some(ConflictClause::Replace) => OnConflict::Replace,
    }
}

/// How two operands of a `FROM` are joined.
#[derive(Debug, Clone, Copy, PartialEq, Eq, Structural)]
pub enum JoinKind {
    Comma,
    Inner,
    Cross,
    Left,
    Right,
    Full,
}

#[derive(Debug, Clone, Copy, PartialEq, Eq, Structural)]
pub struct JoinOperator {
    pub natural: bool,
    pub kind: JoinKind,
}

/// An operand of a `FROM`: a leaf, or a join in parentheses.
#[derive(Debug)]
pub enum FromOperand<L, C> {
    Leaf(L),
    Join(Box<JoinTree<L, C>>),
}

/// A `FROM`: its leaves are tables and subqueries, and a join may have a constraint.
#[derive(Debug)]
pub enum JoinTree<L, C> {
    Table(FromOperand<L, C>),
    Join {
        left: Box<JoinTree<L, C>>,
        op: JoinOperator,
        right: FromOperand<L, C>,
        constraint: Option<C>,
    },
}

/// The operand that a `FROM` is: the leaf where it is one, else a join in parentheses.
pub open spec fn as_operand<L, C>(from: JoinTree<L, C>) -> FromOperand<L, C> {
    match from {
        JoinTree::Table(operand) => operand,
        _ => FromOperand::Join(Box::new(from)),
    }
}

/// A `FROM` with the target before it: the target, then a comma, then the rest.
pub open spec fn behind_target<L, C>(target: L, from: JoinTree<L, C>) -> JoinTree<L, C> {
    JoinTree::Join {
        left: Box::new(JoinTree::Table(FromOperand::Leaf(target))),
        op: JoinOperator { natural: false, kind: JoinKind::Comma },
        right: as_operand(from),
        constraint: None,
    }
}

/// The `FROM` that an `UPDATE .. FROM` scans: the target, then a comma, then what the
/// statement names.
pub fn combined_from<L, C>(target: L, from: JoinTree<L, C>) -> (r: JoinTree<L, C>)
    ensures
        r == behind_target(target, from),
{
    let right: FromOperand<L, C> = match from {
        JoinTree::Table(operand) => operand,
        join => FromOperand::Join(Box::new(join)),
    };
    JoinTree::Join {
        left: Box::new(JoinTree::Table(FromOperand::Leaf(target))),
        op: JoinOperator { natural: false, kind: JoinKind::Comma },
        right,
        constraint: None,
    }
}

/// The leaves of an operand, left to right.
pub open spec fn operand_leaves<L, C>(operand: FromOperand<L, C>) -> Seq<L>
    decreases operand,
{
    match operand {
        FromOperand::Leaf(leaf) => seq![leaf],
        FromOperand::Join(tree) => leaves(*tree),
    }
}

/// The leaves of a `FROM`, left to right.
pub open spec fn leaves<L, C>(from: JoinTree<L, C>) -> Seq<L>
    decreases from,
{
    match from {
        JoinTree::Table(operand) => operand_leaves(operand),
        JoinTree::Join { left, right, .. } => leaves(*left) + operand_leaves(right),
    }
}

/// The target is the first source of an `UPDATE .. FROM`, and the sources that the statement
/// names follow it in their order.
pub proof fn the_target_is_the_first_source<L, C>(target: L, from: JoinTree<L, C>)
    ensures
        leaves(behind_target(target, from)) == seq![target] + leaves(from),
{
    reveal_with_fuel(leaves, 3);
    reveal_with_fuel(operand_leaves, 3);
}

/// The constraints of the joins of an operand, left to right.
pub open spec fn operand_constraints<L, C>(operand: FromOperand<L, C>) -> Seq<Option<C>>
    decreases operand,
{
    match operand {
        FromOperand::Leaf(_) => seq![],
        FromOperand::Join(tree) => join_constraints(*tree),
    }
}

/// The constraints of the joins of a `FROM`, left to right.
pub open spec fn join_constraints<L, C>(from: JoinTree<L, C>) -> Seq<Option<C>>
    decreases from,
{
    match from {
        JoinTree::Table(operand) => operand_constraints(operand),
        JoinTree::Join { left, right, constraint, .. } => join_constraints(*left).push(constraint)
            + operand_constraints(right),
    }
}

/// The target of an `UPDATE .. FROM` is paired with every row of what the statement names: they are
/// joined by a comma with no constraint, and the joins of the `FROM` keep theirs.
pub proof fn the_target_is_paired_with_every_row<L, C>(target: L, from: JoinTree<L, C>)
    ensures
        behind_target(target, from) matches JoinTree::Join { left, op, constraint, .. } && leaves(
            *left,
        ) == seq![target] && op.kind is Comma && !op.natural && constraint is None,
        join_constraints(behind_target(target, from)) == seq![None::<C>] + join_constraints(from),
{
    reveal_with_fuel(leaves, 3);
    reveal_with_fuel(operand_leaves, 3);
    reveal_with_fuel(join_constraints, 3);
    reveal_with_fuel(operand_constraints, 3);
    assert(Seq::<Option<C>>::empty().push(None) =~= seq![None::<C>]);
}

/// The scan of a table whose columns follow an outer row of `base` values: the access path
/// that was chosen where there is no outer row, else every row of the table, filtered by the
/// whole predicate.
pub open spec fn target_scan(
    td: TableDef,
    db: DbIndex,
    base: usize,
    predicate: Option<EvalExpr>,
    access: BuiltFrom,
) -> Result<PlanNode, Error> {
    if base == 0 {
        match access {
            Ok((node, residual)) => Ok(filtered(node, residual)),
            Err(e) => Err(e),
        }
    } else {
        Ok(
            filtered(
                PlanNode::SeqScan(
                    SeqScan {
                        table: td.name,
                        db,
                        column_count: td.columns@.len() as usize,
                    },
                ),
                predicate,
            ),
        )
    }
}

/// The scan of the target of an update. `access` is what choosing an access path for the
/// predicate gave; it reads registers of the table alone, so a trigger action does without.
pub fn build_scan(
    td: &TableDef,
    db: DbIndex,
    base_offset: usize,
    bound_where: Option<EvalExpr>,
    access: BuiltFrom,
) -> (r: Result<PlanNode, Error>)
    ensures
        r == target_scan(*td, db, base_offset, bound_where, access),
{
    if base_offset == 0 {
        return match access {
            Ok((node, residual)) => Ok(filter_by(node, residual)),
            Err(e) => Err(e),
        };
    }
    let scan: PlanNode = PlanNode::SeqScan(
        SeqScan { table: td.name.clone(), db, column_count: td.columns.len() },
    );
    Ok(filter_by(scan, bound_where))
}

/// The source that the clauses of an update without a `FROM` see.
pub open spec fn exposed_target<'a>(
    td: &'a TableDef,
    db: DbIndex,
    alias: Option<String>,
    parent: Option<usize>,
) -> Source<'a> {
    Source::BaseTable {
        exposed_name: match alias {
            Some(a) => a,
            None => td.name,
        },
        table: td,
        db,
        base: base_of(parent),
    }
}

/// The sources that the `RETURNING` of an update sees.
pub open spec fn returning_scope<'a>(sources: Seq<Source<'a>>) -> Seq<Source<'a>> {
    sources.subrange(0, 1)
}

/// The clauses of an update see its target under its alias, or under its own name where it has no
/// alias, with its first column in the register after the outer row. Its `RETURNING` sees the
/// target alone, whatever its `FROM` names.
pub proof fn an_update_sees_its_target<'a>(
    td: &'a TableDef,
    db: DbIndex,
    alias: Option<String>,
    parent: Option<usize>,
    sources: Seq<Source<'a>>,
)
    requires
        sources.len() >= 1,
    ensures
        exposed_target(td, db, alias, parent) matches Source::BaseTable {
            exposed_name,
            table,
            db: at,
            base,
        } && *table == *td && at == db && (alias is Some ==> exposed_name@ == alias->Some_0@) && (
        alias is None ==> exposed_name@ == td.name@) && (parent is None ==> base == 0) && (
        parent is Some ==> base == parent->Some_0),
        returning_scope(sources).len() == 1,
        returning_scope(sources)[0] == sources[0],
{
}

/// The source that the clauses of an update without a `FROM` see: the target, under its alias
/// where it has one, its columns after an outer row of `parent` values.
pub fn target_source<'a>(
    td: &'a TableDef,
    db: DbIndex,
    alias: &Option<String>,
    parent: Option<usize>,
) -> (r: Source<'a>)
    ensures
        r == exposed_target(td, db, *alias, parent),
{
    let exposed_name: String = match alias {
        Some(a) => a.clone(),
        None => td.name.clone(),
    };
    let base: usize = match parent {
        Some(width) => width,
        None => 0,
    };
    Source::BaseTable { exposed_name, table: td, db, base }
}

/// The sources that the `RETURNING` of an update sees: the target, which is the first, and no
/// table of its `FROM`.
pub fn returning_sources<'s, 'a>(sources: &'s [Source<'a>]) -> (r: &'s [Source<'a>])
    requires
        sources@.len() >= 1,
    ensures
        r@ == returning_scope(sources@),
{
    slice_subrange(sources, 0, 1)
}

/// Where the rows of an update come from: the target alone, with the access path chosen for
/// it, or the target and a `FROM`, with its sources and its row source.
#[derive(Debug)]
pub enum UpdateRows<'a> {
    Target { access: BuiltFrom },
    From { resolved: Result<Vec<Source<'a>>, Error>, built: BuiltFrom },
}

/// The clauses of an `UPDATE`, bound.
#[derive(Debug)]
pub struct UpdateClauses<'a> {
    pub with: Result<(), Error>,
    pub set: Vec<SetClause>,
    pub rows: UpdateRows<'a>,
    pub where_clause: Option<Bound>,
    pub returning: Vec<ReturningColumn>,
}

/// The key programs of the indexes of a table, by index name.
pub type IndexKeys = Result<Vec<(String, Vec<Option<EvalExpr>>)>, Error>;

/// The predicates of the partial indexes of a table, by index name.
pub type IndexPredicates = Result<Vec<(String, EvalExpr)>, Error>;

/// What is checked and kept up on every changed row of a table.
#[derive(Debug)]
pub struct RowUpkeep {
    pub checks: Result<Vec<CheckConstraint>, Error>,
    pub index_key_exprs: IndexKeys,
    pub index_partial_predicates: IndexPredicates,
}

/// An `UPDATE` with its parts bound. `upkeep` is that of its target where that is a table, and
/// `view_scan` what scanning its target needs where that is a view.
#[derive(Debug)]
pub struct UpdateStatement<'a> {
    pub or_conflict: Option<ConflictClause>,
    pub alias: Option<String>,
    pub clauses: UpdateClauses<'a>,
    pub triggers: Vec<TriggerDef<'a>>,
    pub upkeep: RowUpkeep,
    pub view_scan: ViewScan<'a>,
}

/// The name of the table that a statement changes. `qualified` is the name as a message shows
/// it.
#[derive(Debug)]
pub struct TargetName {
    pub name: String,
    pub qualified: String,
}

/// An `UPDATE` and its target: its name, the namespace it is of, if it is of one, and the view
/// of that name in that namespace.
#[derive(Debug)]
pub struct TargetedUpdate<'a> {
    pub name: TargetName,
    pub db: Result<Option<DbIndex>, Error>,
    pub view: Option<ViewTarget<'a>>,
    pub stmt: UpdateStatement<'a>,
}

/// The columns of a list of assignments.
pub open spec fn assigned_to(assignments: Seq<(usize, EvalExpr)>) -> Seq<usize> {
    assignments.map_values(|a: (usize, EvalExpr)| a.0)
}

fn changed_columns(assignments: &Vec<(usize, EvalExpr)>) -> (r: Vec<usize>)
    ensures
        r@ == assigned_to(assignments@),
{
    let mut out: Vec<usize> = Vec::new();
    let mut i: usize = 0;
    while i < assignments.len()
        invariant
            i <= assignments.len(),
            out@ == assigned_to(assignments@.subrange(0, i as int)),
        decreases assignments.len() - i,
    {
        out.push(assignments[i].0);
        i = i + 1;
    }
    proof {
        assert(assignments@.subrange(0, assignments@.len() as int) =~= assignments@);
    }
    out
}

/// The affinities of a list of columns.
pub open spec fn affinities(columns: Seq<ColumnDef>) -> Seq<Affinity> {
    columns.map_values(|c: ColumnDef| c.affinity)
}

fn column_affinities(td: &TableDef) -> (r: Vec<Affinity>)
    ensures
        r@ == affinities(td.columns@),
{
    let mut out: Vec<Affinity> = Vec::new();
    let mut i: usize = 0;
    while i < td.columns.len()
        invariant
            i <= td.columns.len(),
            out@ == affinities(td.columns@.subrange(0, i as int)),
        decreases td.columns.len() - i,
    {
        out.push(td.columns[i].affinity);
        i = i + 1;
    }
    proof {
        assert(td.columns@.subrange(0, td.columns@.len() as int) =~= td.columns@);
    }
    out
}

pub open spec fn from_in_action_message() -> Seq<char> {
    "UPDATE ... FROM inside a trigger action is not yet supported"@
}

/// Why an update of a table fails before its `SET` list is bound.
pub open spec fn early_error(c: UpdateClauses<'_>, parent: Option<usize>) -> Option<Seq<char>> {
    first_error(
        failure(c.with),
        match c.rows {
            UpdateRows::Target { .. } => None,
            UpdateRows::From { resolved, .. } => if parent is Some {
                Some(from_in_action_message())
            } else {
                failure(resolved)
            },
        },
    )
}

/// The register of the target's first column: that after an outer row.
pub open spec fn base_of(parent: Option<usize>) -> usize {
    match parent {
        Some(width) => width,
        None => 0,
    }
}

/// The scan of an update of a table, before its JSON tables are set.
pub open spec fn update_scan(
    td: TableDef,
    db: DbIndex,
    c: UpdateClauses<'_>,
    parent: Option<usize>,
) -> Result<PlanNode, Error> {
    match c.rows {
        UpdateRows::Target { access } => target_scan(
            td,
            db,
            base_of(parent),
            predicate_of(c.where_clause),
            access,
        ),
        UpdateRows::From { built, .. } => match built {
            Ok((node, residual)) => Ok(filtered(node, residual)),
            Err(e) => Err(e),
        },
    }
}

/// Whether an update names the hidden column of a JSON table of its `FROM`.
pub open spec fn names_json(rows: UpdateRows<'_>) -> bool {
    match rows {
        UpdateRows::Target { .. } => false,
        UpdateRows::From { resolved, .. } => match resolved {
            Ok(sources) => json_named(sources@),
            Err(_) => false,
        },
    }
}

/// Why the clauses of an update of a table cannot be compiled: the first that fails, in the
/// order `WITH`, `FROM`, `SET`, `WHERE`, the scan, `RETURNING`.
pub open spec fn clauses_error(
    before: CtxView,
    td: TableDef,
    db: DbIndex,
    c: UpdateClauses<'_>,
    parent: Option<usize>,
) -> Option<Seq<char>> {
    first_error(
        early_error(c, parent),
        first_error(
            error_of(set_assigned(td, c.set@, before.subqueries).outcome),
            first_error(
                predicate_error(c.where_clause),
                first_error(
                    failure(update_scan(td, db, c, parent)),
                    error_of(outputs(c.returning@)),
                ),
            ),
        ),
    )
}

/// Why the upkeep of a table cannot be compiled.
pub open spec fn upkeep_error(u: RowUpkeep) -> Option<Seq<char>> {
    first_error(
        failure(u.checks),
        first_error(failure(u.index_key_exprs), failure(u.index_partial_predicates)),
    )
}

/// The assignments of an update.
pub open spec fn assignments_of(before: CtxView, td: TableDef, c: UpdateClauses<'_>) -> Seq<
    (usize, EvalExpr),
> {
    set_assigned(td, c.set@, before.subqueries).outcome->Ok_0
}

/// Why the triggers that an update fires cannot be compiled.
pub open spec fn fired_error(
    catalog: Catalog,
    before: CtxView,
    td: TableDef,
    db: DbIndex,
    stmt: UpdateStatement<'_>,
) -> Option<Seq<char>> {
    triggers_error(
        catalog,
        stmt.triggers@,
        TargetKind::Table,
        db,
        td.shape(),
        DmlView::Update(assigned_to(assignments_of(before, td, stmt.clauses))),
    )
}

/// The state after an update of a table: it has the subqueries of the `SET` list.
pub open spec fn after_update(
    before: CtxView,
    td: TableDef,
    c: UpdateClauses<'_>,
    parent: Option<usize>,
) -> CtxView {
    if early_error(c, parent) is Some {
        before
    } else {
        CtxView { subqueries: set_assigned(td, c.set@, before.subqueries).subqueries, ..before }
    }
}

/// Whether `node` and `names` are those of an update of a table, its triggers aside.
pub open spec fn is_update_node(
    before: CtxView,
    node: PlanNode,
    names: Seq<String>,
    td: TableDef,
    db: DbIndex,
    stmt: UpdateStatement<'_>,
    parent: Option<usize>,
) -> bool {
    let c = stmt.clauses;
    &&& node matches PlanNode::Update(u)
    &&& u.table == td.name
    &&& u.db == db
    &&& u.column_count == td.columns@.len()
    &&& u.assignments@ == assignments_of(before, td, c)
    &&& update_scan(td, db, c, parent) matches Ok(scan)
    &&& *u.scan == emitting(scan, names_json(c.rows))
    &&& u.column_affinities@ == affinities(td.columns@)
    &&& u.on_conflict == resolution(stmt.or_conflict)
    &&& outputs(c.returning@) matches Ok(outs)
    &&& u.returning@ == output_exprs(outs)
    &&& are_returned(names, c.returning@)
    &&& stmt.upkeep.checks == Ok::<Vec<CheckConstraint>, Error>(u.checks)
    &&& stmt.upkeep.index_key_exprs == IndexKeys::Ok(u.index_key_exprs)
    &&& stmt.upkeep.index_partial_predicates == IndexPredicates::Ok(u.index_partial_predicates)
}

/// What the clauses of an update compile to.
struct CompiledClauses {
    assignments: Vec<(usize, EvalExpr)>,
    scan: PlanNode,
    returning: Vec<EvalExpr>,
    names: Vec<String>,
}

/// Compile the clauses of an update of a table.
fn compile_clauses(
    ctx: &mut PlanCtx,
    td: &TableDef,
    db: DbIndex,
    alias: &Option<String>,
    c: UpdateClauses<'_>,
    parent: Option<usize>,
) -> (r: Result<CompiledClauses, Error>)
    ensures
        final(ctx)@ == after_update(old(ctx)@, *td, c, parent),
        final(ctx).wf() == old(ctx).wf(),
        match (r, clauses_error(old(ctx)@, *td, db, c, parent)) {
            (Ok(out), None) => {
                &&& out.assignments@ == assignments_of(old(ctx)@, *td, c)
                &&& update_scan(*td, db, c, parent) matches Ok(scan)
                &&& out.scan == emitting(scan, names_json(c.rows))
                &&& outputs(c.returning@) matches Ok(outs)
                &&& out.returning@ == output_exprs(outs)
                &&& are_returned(out.names@, c.returning@)
            },
            (Err(e), Some(text)) => e.text() == text,
            _ => false,
        },
{
    let base_offset: usize = match parent {
        Some(width) => width,
        None => 0,
    };
    match c.with {
        Ok(_) => {},
        Err(e) => {
            return Err(e);
        },
    }
    let (sources, in_from, source): (Vec<Source<'_>>, bool, BuiltFrom) = match c.rows {
        UpdateRows::Target { access } => {
            let mut only: Vec<Source<'_>> = Vec::new();
            only.push(target_source(td, db, alias, parent));
            (only, false, access)
        },
        UpdateRows::From { resolved, built } => {
            if parent.is_some() {
                return Err(
                    Error::sql("UPDATE ... FROM inside a trigger action is not yet supported"),
                );
            }
            match resolved {
                Ok(s) => (s, true, built),
                Err(e) => {
                    return Err(e);
                },
            }
        },
    };
    let assignments: Vec<(usize, EvalExpr)> = match bind_assignments(ctx, td, c.set) {
        Ok(a) => a,
        Err(e) => {
            return Err(e);
        },
    };
    let bound_where: Option<EvalExpr> = match take_predicate(c.where_clause) {
        Ok(w) => w,
        Err(e) => {
            return Err(e);
        },
    };
    let built: Result<PlanNode, Error> = if in_from {
        match source {
            Ok((node, residual)) => Ok(filter_by(node, residual)),
            Err(e) => Err(e),
        }
    } else {
        build_scan(td, db, base_offset, bound_where, source)
    };
    assert(built == update_scan(*td, db, c, parent));
    let mut scan: PlanNode = match built {
        Ok(n) => n,
        Err(e) => {
            return Err(e);
        },
    };
    finalize_tvf_emit_json(&mut scan, &sources);
    assert(json_named(sources@) == names_json(c.rows)) by {
        if c.rows is Target {
            assert(!sources@[0].reads_json());
        }
    }
    match bind_returning(c.returning) {
        Ok((returning, names)) => Ok(CompiledClauses { assignments, scan, returning, names }),
        Err(e) => Err(e),
    }
}

/// The update of a table whose clauses are compiled.
fn update_node(
    td: &TableDef,
    db: DbIndex,
    clauses: CompiledClauses,
    or_conflict: Option<ConflictClause>,
    triggers: Vec<TriggerProgram>,
    upkeep: RowUpkeep,
) -> (r: Result<(PlanNode, Vec<String>), Error>)
    ensures
        match (r, upkeep_error(upkeep)) {
            (Ok((node, names)), None) => {
                &&& names == clauses.names
                &&& node matches PlanNode::Update(u)
                &&& u.table == td.name
                &&& u.db == db
                &&& u.column_count == td.columns@.len()
                &&& u.assignments == clauses.assignments
                &&& *u.scan == clauses.scan
                &&& u.column_affinities@ == affinities(td.columns@)
                &&& u.on_conflict == resolution(or_conflict)
                &&& u.returning == clauses.returning
                &&& u.triggers == triggers
                &&& upkeep.checks == Ok::<Vec<CheckConstraint>, Error>(u.checks)
                &&& upkeep.index_key_exprs == IndexKeys::Ok(u.index_key_exprs)
                &&& upkeep.index_partial_predicates == IndexPredicates::Ok(
                    u.index_partial_predicates,
                )
            },
            (Err(e), Some(text)) => e.text() == text,
            _ => false,
        },
{
    let checks: Vec<CheckConstraint> = match upkeep.checks {
        Ok(c) => c,
        Err(e) => {
            return Err(e);
        },
    };
    let index_key_exprs: Vec<(String, Vec<Option<EvalExpr>>)> = match upkeep.index_key_exprs {
        Ok(k) => k,
        Err(e) => {
            return Err(e);
        },
    };
    let index_partial_predicates: Vec<(String, EvalExpr)> = match upkeep.index_partial_predicates {
        Ok(k) => k,
        Err(e) => {
            return Err(e);
        },
    };
    Ok(
        (
            PlanNode::Update(
                Update {
                    table: td.name.clone(),
                    db,
                    column_count: td.columns.len(),
                    assignments: clauses.assignments,
                    scan: Box::new(clauses.scan),
                    column_affinities: column_affinities(td),
                    on_conflict: map_on_conflict(or_conflict),
                    returning: clauses.returning,
                    triggers,
                    checks,
                    index_key_exprs,
                    index_partial_predicates,
                },
            ),
            clauses.names,
        ),
    )
}

/// Why a top-level update of a table cannot be compiled: its clauses, then its triggers, then
/// the upkeep of the table.
pub open spec fn update_error(
    catalog: Catalog,
    before: CtxView,
    td: TableDef,
    db: DbIndex,
    stmt: UpdateStatement<'_>,
) -> Option<Seq<char>> {
    first_error(
        clauses_error(before, td, db, stmt.clauses, None),
        first_error(fired_error(catalog, before, td, db, stmt), upkeep_error(stmt.upkeep)),
    )
}

/// Whether `node` and `names` are the compiled top-level update of a table: it has the programs
/// of the triggers that it fires.
pub open spec fn is_update(
    catalog: Catalog,
    before: CtxView,
    node: PlanNode,
    names: Seq<String>,
    td: TableDef,
    db: DbIndex,
    stmt: UpdateStatement<'_>,
) -> bool {
    &&& is_update_node(before, node, names, td, db, stmt, None)
    &&& are_programs(
        catalog,
        node->Update_0.triggers@,
        stmt.triggers@,
        TargetKind::Table,
        db,
        td.shape(),
        DmlView::Update(assigned_to(assignments_of(before, td, stmt.clauses))),
    )
}

/// Compile a top-level update of a table: its clauses, then the triggers that it fires, then
/// the upkeep of the table.
pub fn compile_table_update(
    ctx: &mut PlanCtx,
    catalog: &Catalog,
    td: &TableDef,
    db: DbIndex,
    stmt: UpdateStatement<'_>,
) -> (r: Result<(PlanNode, Vec<String>), Error>)
    requires
        triggers_wf(stmt.triggers@),
        frame_fits(td.shape()),
    ensures
        final(ctx)@ == after_update(old(ctx)@, *td, stmt.clauses, None),
        final(ctx).wf() == old(ctx).wf(),
        match (r, update_error(*catalog, old(ctx)@, *td, db, stmt)) {
            (Ok((node, names)), None) => is_update(
                *catalog,
                old(ctx)@,
                node,
                names@,
                *td,
                db,
                stmt,
            ),
            (Err(e), Some(text)) => e.text() == text,
            _ => false,
        },
{
    let clauses: CompiledClauses = match compile_clauses(
        ctx,
        td,
        db,
        &stmt.alias,
        stmt.clauses,
        None,
    ) {
        Ok(c) => c,
        Err(e) => {
            return Err(e);
        },
    };
    let changed: Vec<usize> = changed_columns(&clauses.assignments);
    let triggers: Vec<TriggerProgram> = match compile_triggers(
        catalog,
        stmt.triggers,
        db,
        td,
        TriggerDmlEvent::Update { changed_cols: changed.as_slice() },
    ) {
        Ok(t) => t,
        Err(e) => {
            return Err(e);
        },
    };
    update_node(td, db, clauses, stmt.or_conflict, triggers, stmt.upkeep)
}

pub open spec fn no_table_message(qualified: Seq<char>) -> Seq<char> {
    "no such table: "@ + qualified
}

fn no_such_table(name: &TargetName) -> (r: Error)
    ensures
        r.text() == no_table_message(name.qualified@),
{
    let mut s: String = String::from_str("no such table: ");
    s.append(name.qualified.as_str());
    Error::Sql(s)
}

/// What a target name stands for: a table, else a view, of the namespace that it is of.
pub enum Target<'a> {
    Table(TableDef, DbIndex),
    View(ViewTarget<'a>),
    Nothing,
}

/// What the target of an update stands for. A table comes before a view.
pub open spec fn target_of<'a>(catalog: Catalog, db: Option<DbIndex>, u: TargetedUpdate<'a>) -> Target<
    'a,
> {
    match db {
        None => Target::Nothing,
        Some(db) => match (table_at(catalog.tables@, db, u.name.name@), u.view) {
            (Some(k), _) => Target::Table(catalog.tables@[k], db),
            (None, Some(v)) => Target::View(v),
            (None, None) => Target::Nothing,
        },
    }
}

/// Why an update that is the action of a trigger cannot be compiled. It fires no triggers
/// itself, so a view cannot be updated by one.
pub open spec fn nested_update_error(
    catalog: Catalog,
    before: CtxView,
    u: TargetedUpdate<'_>,
    outer_width: usize,
) -> Option<Seq<char>> {
    match u.db {
        Err(e) => Some(e.text()),
        Ok(db) => match target_of(catalog, db, u) {
            Target::Nothing => Some(no_table_message(u.name.qualified@)),
            Target::Table(td, db) => first_error(
                clauses_error(before, td, db, u.stmt.clauses, Some(outer_width)),
                upkeep_error(u.stmt.upkeep),
            ),
            Target::View(v) => Some(nested_view_error(v)),
        },
    }
}

/// The state after an update that is the action of a trigger, whether or not it compiles.
pub open spec fn after_nested_update(
    catalog: Catalog,
    before: CtxView,
    u: TargetedUpdate<'_>,
    outer_width: usize,
) -> CtxView {
    match u.db {
        Err(_) => before,
        Ok(db) => match target_of(catalog, db, u) {
            Target::Table(td, _) => after_update(before, td, u.stmt.clauses, Some(outer_width)),
            _ => before,
        },
    }
}

/// Whether `node`, `names` and the state after it are those of an update that is the action of
/// a trigger: one of a table, with no triggers.
pub open spec fn is_nested_update(
    catalog: Catalog,
    before: CtxView,
    node: PlanNode,
    names: Seq<String>,
    after: CtxView,
    u: TargetedUpdate<'_>,
    outer_width: usize,
) -> bool {
    &&& u.db matches Ok(db)
    &&& target_of(catalog, db, u) matches Target::Table(td, db)
    &&& after == after_update(before, td, u.stmt.clauses, Some(outer_width))
    &&& is_update_node(before, node, names, td, db, u.stmt, Some(outer_width))
    &&& node->Update_0.triggers@.len() == 0
}

/// Compile an `UPDATE` that is the action of a trigger: its rows follow an outer row of
/// `outer_width` values, and it fires no triggers itself.
pub fn compile_nested_update(
    ctx: &mut PlanCtx,
    catalog: &Catalog,
    u: TargetedUpdate<'_>,
    outer_width: usize,
) -> (r: Result<(PlanNode, Vec<String>), Error>)
    ensures
        final(ctx).wf() == old(ctx).wf(),
        final(ctx)@ == after_nested_update(*catalog, old(ctx)@, u, outer_width),
        match (r, nested_update_error(*catalog, old(ctx)@, u, outer_width)) {
            (Ok((node, names)), None) => is_nested_update(
                *catalog,
                old(ctx)@,
                node,
                names@,
                final(ctx)@,
                u,
                outer_width,
            ),
            (Err(e), Some(text)) => e.text() == text,
            _ => false,
        },
{
    let db: DbIndex = match u.db {
        Err(e) => {
            return Err(e);
        },
        Ok(None) => {
            return Err(no_such_table(&u.name));
        },
        Ok(Some(d)) => d,
    };
    match catalog.table_in(db, u.name.name.as_str()) {
        Some(td) => match compile_clauses(
            ctx,
            td,
            db,
            &u.stmt.alias,
            u.stmt.clauses,
            Some(outer_width),
        ) {
            Ok(clauses) => update_node(
                td,
                db,
                clauses,
                u.stmt.or_conflict,
                Vec::new(),
                u.stmt.upkeep,
            ),
            Err(e) => Err(e),
        },
        None => match u.view {
            None => Err(no_such_table(&u.name)),
            Some(v) => Err(refuse_nested_update(v)),
        },
    }
}

/// An update as one of a view.
pub open spec fn of_view<'a>(stmt: UpdateStatement<'a>, view: ViewTarget<'a>) -> ViewUpdate<'a> {
    let c = stmt.clauses;
    ViewUpdate {
        from: c.rows is From,
        with: c.with,
        exposed_name: match stmt.alias {
            Some(a) => a,
            None => view.name,
        },
        set: c.set,
        where_clause: c.where_clause,
        scan: stmt.view_scan,
        returning: c.returning,
    }
}

/// Whether the result, and the state after it, are those of a top-level `UPDATE`.
pub open spec fn is_compiled_update(
    r: Result<(PlanNode, Vec<String>), Error>,
    before: CtxView,
    after: CtxView,
    catalog: Catalog,
    u: TargetedUpdate<'_>,
) -> bool {
    match u.db {
        Err(e) => r == Err::<(PlanNode, Vec<String>), Error>(e) && after == before,
        Ok(db) => match target_of(catalog, db, u) {
            Target::Nothing => {
                &&& r matches Err(e) && e.text() == no_table_message(u.name.qualified@)
                &&& after == before
            },
            Target::Table(td, db) => {
                &&& after == after_update(before, td, u.stmt.clauses, None)
                &&& match (r, update_error(catalog, before, td, db, u.stmt)) {
                    (Ok((node, names)), None) => is_update(
                        catalog,
                        before,
                        node,
                        names@,
                        td,
                        db,
                        u.stmt,
                    ),
                    (Err(e), Some(text)) => e.text() == text,
                    _ => false,
                }
            },
            Target::View(v) => {
                &&& after.extends(before)
                &&& is_scanned(
                    catalog,
                    before,
                    after,
                    u.stmt.view_scan,
                    of_view(u.stmt, v).exposed_name,
                    column_count(v),
                    view_update_early(
                        catalog,
                        u.stmt.triggers@,
                        v,
                        of_view(u.stmt, v),
                        false,
                    ) is None,
                )
                &&& match (
                    r,
                    view_update_error(
                        catalog,
                        u.stmt.triggers@,
                        v,
                        of_view(u.stmt, v),
                        false,
                    ),
                ) {
                    (Ok((node, names)), None) => is_view_update(
                        catalog,
                        before,
                        after,
                        node,
                        names@,
                        u.stmt.triggers@,
                        v,
                        of_view(u.stmt, v),
                    ),
                    (Err(e), Some(text)) => e.text() == text,
                    _ => false,
                }
            },
        },
    }
}

/// Whether the output columns that terms of an update's selects name are there, and the rows of
/// its target can be numbered.
pub open spec fn update_wf(catalog: Catalog, u: TargetedUpdate<'_>) -> bool {
    &&& triggers_wf(u.stmt.triggers@)
    &&& select_wf(u.stmt.view_scan.body)
    &&& frames_fit(catalog)
    &&& u.view matches Some(v) ==> view_fits(v)
}

/// Whether the registers of an old and a new row of every table can be numbered.
pub open spec fn frames_fit(catalog: Catalog) -> bool {
    forall|i: int|
        0 <= i < catalog.tables@.len() ==> frame_fits((#[trigger] catalog.tables@[i]).shape())
}

/// Compile a top-level `UPDATE`.
pub fn compile_update(ctx: &mut PlanCtx, catalog: &Catalog, u: TargetedUpdate<'_>) -> (r: Result<
    (PlanNode, Vec<String>),
    Error,
>)
    requires
        update_wf(*catalog, u),
    ensures
        is_compiled_update(r, old(ctx)@, final(ctx)@, *catalog, u),
        final(ctx).wf() == old(ctx).wf(),
{
    let db: DbIndex = match u.db {
        Err(e) => {
            return Err(e);
        },
        Ok(None) => {
            return Err(no_such_table(&u.name));
        },
        Ok(Some(d)) => d,
    };
    match catalog.table_in(db, u.name.name.as_str()) {
        Some(td) => compile_table_update(ctx, catalog, td, db, u.stmt),
        None => match u.view {
            None => Err(no_such_table(&u.name)),
            Some(v) => {
                let from: bool = match &u.stmt.clauses.rows {
                    UpdateRows::From { .. } => true,
                    UpdateRows::Target { .. } => false,
                };
                let exposed_name: String = match u.stmt.alias {
                    Some(a) => a,
                    None => v.name.clone(),
                };
                let clauses: UpdateClauses<'_> = u.stmt.clauses;
                let update: ViewUpdate<'_> = ViewUpdate {
                    from,
                    with: clauses.with,
                    exposed_name,
                    set: clauses.set,
                    where_clause: clauses.where_clause,
                    scan: u.stmt.view_scan,
                    returning: clauses.returning,
                };
                compile_view_update(ctx, catalog, u.stmt.triggers, v, update, false)
            },
        },
    }
}

/// Whether the result, and the state after it, are those of an `UPDATE`, which is the action of
/// a trigger where there is an outer row.
pub open spec fn is_update_under(
    r: Result<(PlanNode, Vec<String>), Error>,
    before: CtxView,
    after: CtxView,
    catalog: Catalog,
    u: TargetedUpdate<'_>,
    parent: Option<usize>,
) -> bool {
    match parent {
        None => is_compiled_update(r, before, after, catalog, u),
        Some(outer_width) => {
            &&& after == after_nested_update(catalog, before, u, outer_width)
            &&& match (r, nested_update_error(catalog, before, u, outer_width)) {
                (Ok((node, names)), None) => is_nested_update(
                    catalog,
                    before,
                    node,
                    names@,
                    after,
                    u,
                    outer_width,
                ),
                (Err(e), Some(text)) => e.text() == text,
                _ => false,
            }
        },
    }
}

/// Compile an `UPDATE`, or one that is the action of a trigger: its rows then follow an outer
/// row of `parent` values.
pub fn compile_update_with_parent(
    ctx: &mut PlanCtx,
    catalog: &Catalog,
    u: TargetedUpdate<'_>,
    parent: Option<usize>,
) -> (r: Result<(PlanNode, Vec<String>), Error>)
    requires
        update_wf(*catalog, u),
    ensures
        is_update_under(r, old(ctx)@, final(ctx)@, *catalog, u, parent),
        final(ctx).wf() == old(ctx).wf(),
{
    match parent {
        Some(outer_width) => compile_nested_update(ctx, catalog, u, outer_width),
        None => compile_update(ctx, catalog, u),
    }
}

} // verus!
