//! Triggers: which of them a statement fires, and the programs they compile to.
//!
//! A trigger reads the old row in registers `[0, W)` and the new row in `[W, 2W)`, where `W` is
//! one more than the column count of its table; the statements of its body bind their own
//! columns after them. Only the triggers that a statement fires itself are compiled with it.

#[allow(unused_imports)]
use vstd::prelude::*;
use vstd::string::StringExecFns;
use crate::catalog::{column_named, Catalog, TableDef, TableShape};
use crate::compile::stored::{
    reparse_trigger, stored_trigger, ActionPlan, ActionStatement, CreateTrigger, ParsedText,
    TriggerEvent,
};
use crate::compile::select::{
    compile_select_with_parent, is_select, select_error, select_wf, source_end, sources_end,
};
use crate::compile::update::{compile_nested_update, is_nested_update, nested_update_error};
use crate::error::{failure, Error};
use crate::expr::EvalExpr;
use crate::plan::{CtePlan, Plan, SubPlan, TriggerProgram, TriggerTiming};
use crate::plan_ctx::{CtxView, PlanCtx};
use crate::scope::Source;
use crate::text::{eq_ignore_ascii_case, same_name};
use crate::types::DbIndex;

verus! {

/// What a statement does to its target. An update says which columns it assigns.
#[derive(Debug, Clone, Copy, PartialEq, Eq)]
pub enum TriggerDmlEvent<'a> {
    Insert,
    Update { changed_cols: &'a [usize] },
    Delete,
}

/// What a [`TriggerDmlEvent`] says.
pub enum DmlView {
    Insert,
    Update(Seq<usize>),
    Delete,
}

impl<'a> TriggerDmlEvent<'a> {
    pub open spec fn view(self) -> DmlView {
        match self {
            TriggerDmlEvent::Insert => DmlView::Insert,
            TriggerDmlEvent::Update { changed_cols } => DmlView::Update(changed_cols@),
            TriggerDmlEvent::Delete => DmlView::Delete,
        }
    }
}

/// A trigger of the schema, with what parsing its text gave. The schema lists triggers in the
/// order in which they fire.
#[derive(Debug)]
pub struct TriggerDef<'a> {
    pub name: String,
    pub db: DbIndex,
    pub table: String,
    pub text: ParsedText<'a>,
}

/// What the triggers are compiled for: a table fires those before and after its change, a view
/// those instead of it.
#[derive(Debug, Clone, Copy, PartialEq, Eq, Structural)]
pub enum TargetKind {
    Table,
    View,
}

/// Whether the trigger column named `name` is one of the assigned columns.
pub open spec fn assigns(target: TableShape, changed: Seq<usize>, name: Seq<char>) -> bool {
    match column_named(target.columns, name) {
        Some(k) => changed.contains(k as usize),
        None => false,
    }
}

/// Whether a trigger declared for `event` is one for the statement. An `UPDATE OF` trigger is
/// one for an update that assigns one of its columns.
pub open spec fn fires_on(event: TriggerEvent, dml: DmlView, target: TableShape) -> bool {
    match (event, dml) {
        (TriggerEvent::Insert, DmlView::Insert) => true,
        (TriggerEvent::Delete, DmlView::Delete) => true,
        (TriggerEvent::Update { columns }, DmlView::Update(changed)) => {
            columns@.len() == 0 || exists|i: int|
                0 <= i < columns@.len() && assigns(
                    target,
                    changed,
                    (#[trigger] columns@[i])@,
                )
        },
        _ => false,
    }
}

/// Whether a trigger is declared for the statement.
pub fn event_matches(event: &TriggerEvent, dml: TriggerDmlEvent<'_>, target: &TableDef) -> (r: bool)
    ensures
        r == fires_on(*event, dml@, target.shape()),
{
    match (event, dml) {
        (TriggerEvent::Insert, TriggerDmlEvent::Insert) => true,
        (TriggerEvent::Delete, TriggerDmlEvent::Delete) => true,
        (TriggerEvent::Update { columns }, TriggerDmlEvent::Update { changed_cols }) => {
            if columns.len() == 0 {
                return true;
            }
            let mut i: usize = 0;
            while i < columns.len()
                invariant
                    i <= columns.len(),
                    *event == (TriggerEvent::Update { columns: *columns }),
                    dml == (TriggerDmlEvent::Update { changed_cols }),
                    columns@.len() > 0,
                    forall|k: int|
                        0 <= k < i ==> !assigns(
                            target.shape(),
                            changed_cols@,
                            (#[trigger] columns@[k])@,
                        ),
                decreases columns.len() - i,
            {
                let name: &String = &columns[i];
                match target.column_position(name.as_str()) {
                    Some(idx) => {
                        if holds(changed_cols, idx) {
                            assert(assigns(target.shape(), changed_cols@, columns@[i as int]@));
                            return true;
                        }
                    },
                    None => {},
                }
                assert(!assigns(target.shape(), changed_cols@, columns@[i as int]@));
                i = i + 1;
            }
            false
        },
        _ => false,
    }
}

fn holds(cols: &[usize], x: usize) -> (r: bool)
    ensures
        r == cols@.contains(x),
{
    let mut i: usize = 0;
    while i < cols.len()
        invariant
            i <= cols.len(),
            forall|k: int| 0 <= k < i ==> cols@[k] != x,
        decreases cols.len() - i,
    {
        if cols[i] == x {
            assert(cols@[i as int] == x);
            return true;
        }
        i = i + 1;
    }
    false
}

/// Whether the registers of an old and a new row of the target can be numbered.
pub open spec fn frame_fits(target: TableShape) -> bool {
    2 * (target.columns.len() + 1) <= usize::MAX
}

/// The width of an old and a new row together, after which the columns of an action follow. A
/// row is the columns, then the rowid.
pub open spec fn frame_width(target: TableShape) -> usize {
    (2 * (target.columns.len() + 1)) as usize
}

/// Why a body statement that follows an outer row of `outer_width` values cannot be compiled.
pub open spec fn action_error(
    catalog: Catalog,
    s: ActionStatement<'_>,
    outer_width: usize,
) -> Option<Seq<char>> {
    match s {
        ActionStatement::Insert(a) => failure(a),
        ActionStatement::Update(a) => nested_update_error(
            catalog,
            a.ctx@,
            a.update,
            outer_width,
        ),
        ActionStatement::Delete(a) => failure(a),
        ActionStatement::Select(a) => select_error(a.select),
        ActionStatement::Other => Some(
            "trigger body statements must be INSERT, UPDATE, DELETE or SELECT"@,
        ),
    }
}

/// Whether `p` has the parts of a compiled statement.
pub open spec fn has_parts(p: Plan, a: Result<ActionPlan, Error>) -> bool {
    &&& a matches Ok(parts)
    &&& p.root == parts.root
    &&& p.result_columns == parts.result_columns
    &&& p.ctes == parts.ctes
    &&& p.subqueries == parts.subqueries
}

/// Whether `p` is the plan of a body statement that follows an outer row of `outer_width`
/// values; all but a select change data.
pub open spec fn is_action(
    catalog: Catalog,
    p: Plan,
    s: ActionStatement<'_>,
    outer_width: usize,
) -> bool {
    &&& p.mutates == !(s is Select)
    &&& p.generated@.len() == 0
    &&& match s {
        ActionStatement::Insert(a) => has_parts(p, a),
        ActionStatement::Update(a) => is_nested_update(
            catalog,
            a.ctx@,
            p.root,
            p.result_columns@,
            CtxView {
                subqueries: p.subqueries@,
                ctes: p.ctes@,
                ..a.ctx@
            },
            a.update,
            outer_width,
        ),
        ActionStatement::Delete(a) => has_parts(p, a),
        ActionStatement::Select(a) => {
            &&& is_select(catalog, Ok((p.root, p.result_columns)), a.select, outer_width)
            &&& p.ctes@ == a.ctx@.ctes
            &&& p.subqueries@ == a.ctx@.subqueries
        },
        ActionStatement::Other => false,
    }
}

/// Whether the output columns that terms of the selects of a body name are there.
pub open spec fn body_wf(body: Seq<ActionStatement<'_>>) -> bool {
    forall|i: int|
        0 <= i < body.len() ==> ((#[trigger] body[i]) matches ActionStatement::Select(a)
            ==> select_wf(a.select))
}

/// Whether those of the bodies of triggers are there.
pub open spec fn triggers_wf(ts: Seq<TriggerDef<'_>>) -> bool {
    forall|i: int|
        0 <= i < ts.len() ==> (stored_trigger((#[trigger] ts[i]).text, ts[i].name@) matches Ok(ct)
            ==> body_wf(ct.body@))
}

/// Compile one statement of a trigger body, whose own columns follow an outer row of
/// `outer_width` values. It is compiled under a state of its own.
pub fn compile_action(catalog: &Catalog, s: ActionStatement<'_>, outer_width: usize) -> (r: Result<
    Plan,
    Error,
>)
    requires
        s matches ActionStatement::Select(a) ==> select_wf(a.select),
    ensures
        match (r, action_error(*catalog, s, outer_width)) {
            (Ok(p), None) => is_action(*catalog, p, s, outer_width),
            (Err(e), Some(text)) => e.text() == text,
            _ => false,
        },
{
    match s {
        ActionStatement::Insert(a) => whole_action(a),
        ActionStatement::Delete(a) => whole_action(a),
        ActionStatement::Update(a) => {
            let mut ctx: PlanCtx = a.ctx;
            match compile_nested_update(&mut ctx, catalog, a.update, outer_width) {
                Ok((root, result_columns)) => {
                    let (ctes, subqueries): (Vec<CtePlan>, Vec<SubPlan>) = ctx.into_tables();
                    Ok(
                        Plan {
                            root,
                            result_columns,
                            ctes,
                            subqueries,
                            mutates: true,
                            generated: Vec::new(),
                        },
                    )
                },
                Err(e) => Err(e),
            }
        },
        ActionStatement::Select(a) => match compile_select_with_parent(
            catalog,
            a.select,
            Some(outer_width),
        ) {
            Ok((root, result_columns)) => {
                let (ctes, subqueries): (Vec<CtePlan>, Vec<SubPlan>) = a.ctx.into_tables();
                Ok(
                    Plan {
                        root,
                        result_columns,
                        ctes,
                        subqueries,
                        mutates: false,
                        generated: Vec::new(),
                    },
                )
            },
            Err(e) => Err(e),
        },
        ActionStatement::Other => Err(
            Error::sql("trigger body statements must be INSERT, UPDATE, DELETE or SELECT"),
        ),
    }
}

/// The plan of a compiled statement that changes data.
fn whole_action(a: Result<ActionPlan, Error>) -> (r: Result<Plan, Error>)
    ensures
        match (r, a) {
            (Ok(p), Ok(_)) => has_parts(p, a) && p.mutates && p.generated@.len() == 0,
            (Err(e), Err(f)) => e == f,
            _ => false,
        },
{
    match a {
        Ok(a) => Ok(
            Plan {
                root: a.root,
                result_columns: a.result_columns,
                ctes: a.ctes,
                subqueries: a.subqueries,
                mutates: true,
                generated: Vec::new(),
            },
        ),
        Err(e) => Err(e),
    }
}

/// The message of the first body statement that cannot be compiled.
pub open spec fn body_error(
    catalog: Catalog,
    body: Seq<ActionStatement<'_>>,
    outer_width: usize,
) -> Option<Seq<char>>
    decreases body.len(),
{
    if body.len() == 0 {
        None
    } else {
        match body_error(catalog, body.drop_last(), outer_width) {
            Some(text) => Some(text),
            None => action_error(catalog, body.last(), outer_width),
        }
    }
}

proof fn lemma_body_prefix(
    catalog: Catalog,
    body: Seq<ActionStatement<'_>>,
    outer_width: usize,
    k: int,
)
    requires
        0 <= k <= body.len(),
        body_error(catalog, body.subrange(0, k), outer_width) is Some,
    ensures
        body_error(catalog, body, outer_width) == body_error(
            catalog,
            body.subrange(0, k),
            outer_width,
        ),
    decreases body.len() - k,
{
    if k == body.len() {
        assert(body.subrange(0, k) =~= body);
    } else {
        assert(body.subrange(0, k + 1).drop_last() =~= body.subrange(0, k));
        lemma_body_prefix(catalog, body, outer_width, k + 1);
    }
}

/// Whether `ps` are the plans of a body, in order.
pub open spec fn is_body(
    catalog: Catalog,
    ps: Seq<Plan>,
    body: Seq<ActionStatement<'_>>,
    outer_width: usize,
) -> bool {
    &&& ps.len() == body.len()
    &&& forall|i: int|
        0 <= i < ps.len() ==> is_action(catalog, #[trigger] ps[i], body[i], outer_width)
}

fn compile_body_statements(
    catalog: &Catalog,
    body: Vec<ActionStatement<'_>>,
    outer_width: usize,
) -> (r: Result<Vec<Plan>, Error>)
    requires
        body_wf(body@),
    ensures
        match (r, body_error(*catalog, body@, outer_width)) {
            (Ok(ps), None) => is_body(*catalog, ps@, body@, outer_width),
            (Err(e), Some(text)) => e.text() == text,
            _ => false,
        },
{
    let ghost all = body@;
    let mut out: Vec<Plan> = Vec::new();
    proof {
        assert(all.subrange(0, 0) =~= seq![]);
    }
    for s in it: body
        invariant
            it.seq() == all,
            body_wf(all),
            body_error(*catalog, all.subrange(0, it.index() as int), outer_width) is None,
            out@.len() == it.index(),
            forall|i: int|
                0 <= i < out@.len() ==> is_action(
                    *catalog,
                    #[trigger] out@[i],
                    all[i],
                    outer_width,
                ),
    {
        proof {
            let next = all.subrange(0, it.index() + 1);
            assert(next.drop_last() =~= all.subrange(0, it.index() as int));
            assert(next.last() == s);
        }
        match compile_action(catalog, s, outer_width) {
            Ok(p) => {
                out.push(p);
            },
            Err(e) => {
                proof {
                    lemma_body_prefix(*catalog, all, outer_width, it.index() + 1);
                }
                return Err(e);
            },
        }
    }
    proof {
        assert(all.subrange(0, all.len() as int) =~= all);
    }
    Ok(out)
}

pub open spec fn instead_of_on_table_message(trigger: Seq<char>, table: Seq<char>) -> Seq<char> {
    "cannot create INSTEAD OF trigger "@ + trigger + " on table "@ + table
        + " (INSTEAD OF is only valid on a view)"@
}

/// Whether the trigger is one of the target.
pub open spec fn is_on(t: TriggerDef<'_>, db: DbIndex, target: TableShape) -> bool {
    t.db == db && same_name(t.table@, target.name)
}

/// Whether a trigger that was read back is compiled for the statement. A view fires only those
/// that stand instead of the change.
pub open spec fn selected(
    ct: CreateTrigger<'_>,
    kind: TargetKind,
    target: TableShape,
    event: DmlView,
) -> bool {
    &&& fires_on(ct.event, event, target)
    &&& kind == TargetKind::View ==> ct.timing == Some(TriggerTiming::InsteadOf)
}

/// Why a selected trigger cannot be compiled: it stands instead of a change to a table, its
/// condition does not bind, or a statement of its body does not compile.
pub open spec fn program_error(
    catalog: Catalog,
    ct: CreateTrigger<'_>,
    kind: TargetKind,
    target: TableShape,
) -> Option<Seq<char>> {
    if kind == TargetKind::Table && ct.timing == Some(TriggerTiming::InsteadOf) {
        Some(instead_of_on_table_message(ct.name@, target.name))
    } else {
        match ct.when {
            Some(Err(e)) => Some(e.text()),
            _ => body_error(catalog, ct.body@, frame_width(target)),
        }
    }
}

/// Whether `p` is the program of a trigger of the target. A trigger that does not say when
/// fires before, and its actions follow the old and the new row.
pub open spec fn is_program(
    catalog: Catalog,
    p: TriggerProgram,
    name: String,
    ct: CreateTrigger<'_>,
    target: TableShape,
) -> bool {
    &&& p.name == name
    &&& p.timing == match ct.timing {
        Some(t) => t,
        None => TriggerTiming::Before,
    }
    &&& match ct.when {
        Some(w) => p.when matches Some(e) && w == Ok::<EvalExpr, Error>(e),
        None => p.when is None,
    }
    &&& is_body(catalog, p.actions@, ct.body@, frame_width(target))
}

/// The message of the first trigger of the target that cannot be read back or compiled.
pub open spec fn triggers_error(
    catalog: Catalog,
    ts: Seq<TriggerDef<'_>>,
    kind: TargetKind,
    db: DbIndex,
    target: TableShape,
    event: DmlView,
) -> Option<Seq<char>>
    decreases ts.len(),
{
    if ts.len() == 0 {
        None
    } else {
        match triggers_error(catalog, ts.drop_last(), kind, db, target, event) {
            Some(text) => Some(text),
            None => if is_on(ts.last(), db, target) {
                match stored_trigger(ts.last().text, ts.last().name@) {
                    Err(text) => Some(text),
                    Ok(ct) => if selected(ct, kind, target, event) {
                        program_error(catalog, ct, kind, target)
                    } else {
                        None
                    },
                }
            } else {
                None
            },
        }
    }
}

/// Whether the schema's trigger `t` is compiled for the statement.
pub open spec fn compiled_for(
    t: TriggerDef<'_>,
    kind: TargetKind,
    db: DbIndex,
    target: TableShape,
    event: DmlView,
) -> bool {
    &&& is_on(t, db, target)
    &&& stored_trigger(t.text, t.name@) matches Ok(ct) && selected(ct, kind, target, event)
}

/// Whether `ps` are the programs of the triggers that the statement fires, in the order of the
/// schema.
pub open spec fn are_programs(
    catalog: Catalog,
    ps: Seq<TriggerProgram>,
    ts: Seq<TriggerDef<'_>>,
    kind: TargetKind,
    db: DbIndex,
    target: TableShape,
    event: DmlView,
) -> bool
    decreases ts.len(),
{
    if ts.len() == 0 {
        ps.len() == 0
    } else if compiled_for(ts.last(), kind, db, target, event) {
        &&& ps.len() > 0
        &&& is_program(
            catalog,
            ps.last(),
            ts.last().name,
            stored_trigger(ts.last().text, ts.last().name@)->Ok_0,
            target,
        )
        &&& are_programs(catalog, ps.drop_last(), ts.drop_last(), kind, db, target, event)
    } else {
        are_programs(catalog, ps, ts.drop_last(), kind, db, target, event)
    }
}

proof fn lemma_triggers_prefix(
    catalog: Catalog,
    ts: Seq<TriggerDef<'_>>,
    kind: TargetKind,
    db: DbIndex,
    target: TableShape,
    event: DmlView,
    k: int,
)
    requires
        0 <= k <= ts.len(),
        triggers_error(catalog, ts.subrange(0, k), kind, db, target, event) is Some,
    ensures
        triggers_error(catalog, ts, kind, db, target, event) == triggers_error(
            catalog,
            ts.subrange(0, k),
            kind,
            db,
            target,
            event,
        ),
    decreases ts.len() - k,
{
    if k == ts.len() {
        assert(ts.subrange(0, k) =~= ts);
    } else {
        assert(ts.subrange(0, k + 1).drop_last() =~= ts.subrange(0, k));
        lemma_triggers_prefix(catalog, ts, kind, db, target, event, k + 1);
    }
}

/// Compile the triggers that a change to a table fires, in firing order. A trigger that stands
/// instead of the change may not be one of a table.
pub fn compile_triggers(
    catalog: &Catalog,
    triggers: Vec<TriggerDef<'_>>,
    db: DbIndex,
    target: &TableDef,
    event: TriggerDmlEvent<'_>,
) -> (r: Result<Vec<TriggerProgram>, Error>)
    requires
        triggers_wf(triggers@),
        frame_fits(target.shape()),
    ensures
        match (
            r,
            triggers_error(
                *catalog,
                triggers@,
                TargetKind::Table,
                db,
                target.shape(),
                event@,
            ),
        ) {
            (Ok(ps), None) => are_programs(
                *catalog,
                ps@,
                triggers@,
                TargetKind::Table,
                db,
                target.shape(),
                event@,
            ),
            (Err(e), Some(text)) => e.text() == text,
            _ => false,
        },
{
    compile_selected(catalog, triggers, TargetKind::Table, db, target, event)
}

/// Compile the triggers that a view fires instead of the change, in firing order. `view` is a
/// table that stands for the view.
pub fn compile_instead_of_triggers(
    catalog: &Catalog,
    triggers: Vec<TriggerDef<'_>>,
    db: DbIndex,
    view: &TableDef,
    event: TriggerDmlEvent<'_>,
) -> (r: Result<Vec<TriggerProgram>, Error>)
    requires
        triggers_wf(triggers@),
        frame_fits(view.shape()),
    ensures
        match (r, triggers_error(*catalog, triggers@, TargetKind::View, db, view.shape(), event@)) {
            (Ok(ps), None) => are_programs(
                *catalog,
                ps@,
                triggers@,
                TargetKind::View,
                db,
                view.shape(),
                event@,
            ),
            (Err(e), Some(text)) => e.text() == text,
            _ => false,
        },
{
    compile_selected(catalog, triggers, TargetKind::View, db, view, event)
}

fn compile_selected(
    catalog: &Catalog,
    triggers: Vec<TriggerDef<'_>>,
    kind: TargetKind,
    db: DbIndex,
    target: &TableDef,
    event: TriggerDmlEvent<'_>,
) -> (r: Result<Vec<TriggerProgram>, Error>)
    requires
        triggers_wf(triggers@),
        frame_fits(target.shape()),
    ensures
        match (r, triggers_error(*catalog, triggers@, kind, db, target.shape(), event@)) {
            (Ok(ps), None) => are_programs(
                *catalog,
                ps@,
                triggers@,
                kind,
                db,
                target.shape(),
                event@,
            ),
            (Err(e), Some(text)) => e.text() == text,
            _ => false,
        },
{
    let ghost all = triggers@;
    let mut out: Vec<TriggerProgram> = Vec::new();
    proof {
        assert(all.subrange(0, 0) =~= seq![]);
    }
    for t in it: triggers
        invariant
            it.seq() == all,
            triggers_wf(all),
            frame_fits(target.shape()),
            triggers_error(
                *catalog,
                all.subrange(0, it.index() as int),
                kind,
                db,
                target.shape(),
                event@,
            ) is None,
            are_programs(
                *catalog,
                out@,
                all.subrange(0, it.index() as int),
                kind,
                db,
                target.shape(),
                event@,
            ),
    {
        proof {
            let next = all.subrange(0, it.index() + 1);
            assert(next.drop_last() =~= all.subrange(0, it.index() as int));
            assert(next.last() == t);
        }
        if t.db == db && eq_ignore_ascii_case(t.table.as_str(), target.name.as_str()) {
            match compile_trigger(catalog, t, kind, target, event) {
                Ok(Some(p)) => {
                    let ghost before = out@;
                    out.push(p);
                    proof {
                        assert(out@.drop_last() =~= before);
                    }
                },
                Ok(None) => {},
                Err(e) => {
                    proof {
                        lemma_triggers_prefix(
                            *catalog,
                            all,
                            kind,
                            db,
                            target.shape(),
                            event@,
                            it.index() + 1,
                        );
                    }
                    return Err(e);
                },
            }
        }
    }
    proof {
        assert(all.subrange(0, all.len() as int) =~= all);
    }
    Ok(out)
}

/// The program of one trigger of the target, if it is compiled for the statement.
fn compile_trigger(
    catalog: &Catalog,
    t: TriggerDef<'_>,
    kind: TargetKind,
    target: &TableDef,
    event: TriggerDmlEvent<'_>,
) -> (r: Result<Option<TriggerProgram>, Error>)
    requires
        stored_trigger(t.text, t.name@) matches Ok(ct) ==> body_wf(ct.body@),
        frame_fits(target.shape()),
    ensures
        match stored_trigger(t.text, t.name@) {
            Err(text) => r matches Err(e) && e.text() == text,
            Ok(ct) => if selected(ct, kind, target.shape(), event@) {
                match (r, program_error(*catalog, ct, kind, target.shape())) {
                    (Ok(Some(p)), None) => is_program(
                        *catalog,
                        p,
                        t.name,
                        ct,
                        target.shape(),
                    ),
                    (Err(e), Some(text)) => e.text() == text,
                    _ => false,
                }
            } else {
                r == Ok::<Option<TriggerProgram>, Error>(None)
            },
        },
{
    let name: String = t.name;
    let ct: CreateTrigger<'_> = match reparse_trigger(t.text, name.as_str()) {
        Ok(ct) => ct,
        Err(e) => {
            return Err(e);
        },
    };
    let instead: bool = match ct.timing {
        Some(TriggerTiming::InsteadOf) => true,
        _ => false,
    };
    if kind == TargetKind::View && !instead {
        return Ok(None);
    }
    if !event_matches(&ct.event, event, target) {
        return Ok(None);
    }
    if kind == TargetKind::Table && instead {
        let mut s: String = String::from_str("cannot create INSTEAD OF trigger ");
        s.append(ct.name.as_str());
        s.append(" on table ");
        s.append(target.name.as_str());
        s.append(" (INSTEAD OF is only valid on a view)");
        return Err(Error::Sql(s));
    }
    let when: Option<EvalExpr> = match ct.when {
        Some(Ok(e)) => Some(e),
        Some(Err(e)) => {
            return Err(e);
        },
        None => None,
    };
    let outer_width: usize = 2 * (target.columns.len() + 1);
    let actions: Vec<Plan> = match compile_body_statements(catalog, ct.body, outer_width) {
        Ok(a) => a,
        Err(e) => {
            return Err(e);
        },
    };
    let timing: TriggerTiming = match ct.timing {
        Some(x) => x,
        None => TriggerTiming::Before,
    };
    Ok(Some(TriggerProgram { name, timing, when, actions }))
}

/// No table fires a trigger that stands instead of its change, and a view fires no other.
pub proof fn timing_fits_the_target(
    catalog: Catalog,
    ps: Seq<TriggerProgram>,
    ts: Seq<TriggerDef<'_>>,
    kind: TargetKind,
    db: DbIndex,
    target: TableShape,
    event: DmlView,
    i: int,
)
    requires
        triggers_error(catalog, ts, kind, db, target, event) is None,
        are_programs(catalog, ps, ts, kind, db, target, event),
        0 <= i < ps.len(),
    ensures
        (ps[i].timing == TriggerTiming::InsteadOf) == (kind == TargetKind::View),
    decreases ts.len(),
{
    if ts.len() > 0 {
        if compiled_for(ts.last(), kind, db, target, event) {
            if i < ps.len() - 1 {
                timing_fits_the_target(
                    catalog,
                    ps.drop_last(),
                    ts.drop_last(),
                    kind,
                    db,
                    target,
                    event,
                    i,
                );
            }
        } else {
            timing_fits_the_target(catalog, ps, ts.drop_last(), kind, db, target, event, i);
        }
    }
}

/// A trigger of another namespace is never fired: removing it from the schema changes nothing.
pub proof fn other_namespaces_do_not_fire(
    catalog: Catalog,
    ps: Seq<TriggerProgram>,
    ts: Seq<TriggerDef<'_>>,
    other: TriggerDef<'_>,
    kind: TargetKind,
    db: DbIndex,
    target: TableShape,
    event: DmlView,
)
    requires
        other.db != db,
    ensures
        are_programs(catalog, ps, ts.push(other), kind, db, target, event) == are_programs(
            catalog,
            ps,
            ts,
            kind,
            db,
            target,
            event,
        ),
        triggers_error(catalog, ts.push(other), kind, db, target, event) == triggers_error(
            catalog,
            ts,
            kind,
            db,
            target,
            event,
        ),
{
    assert(ts.push(other).drop_last() =~= ts);
}

/// The sources whose columns the condition and the body of a trigger may name: the old row,
/// and after it the new row.
pub fn new_old_sources(target: &TableDef) -> (r: Vec<Source<'_>>)
    requires
        frame_fits(target.shape()),
    ensures
        are_both_rows(r@, *target),
{
    let mut out: Vec<Source<'_>> = Vec::new();
    out.push(
        Source::BaseTable {
            exposed_name: "OLD".to_owned(),
            table: target,
            db: target.db,
            base: 0,
        },
    );
    out.push(
        Source::BaseTable {
            exposed_name: "NEW".to_owned(),
            table: target,
            db: target.db,
            base: target.columns.len() + 1,
        },
    );
    out
}

/// Whether the sources are the old row of the target and, after its columns and its rowid, the
/// new row.
pub open spec fn are_both_rows(sources: Seq<Source<'_>>, target: TableDef) -> bool {
    &&& sources.len() == 2
    &&& sources[0] matches Source::BaseTable { exposed_name, table, db, base } && exposed_name@
        == "OLD"@ && *table == target && db == target.db && base == 0
    &&& sources[1] matches Source::BaseTable { exposed_name, table, db, base } && exposed_name@
        == "NEW"@ && *table == target && db == target.db && base == target.columns@.len() + 1
}

/// The old row is in registers `[0, W)`, the new row in `[W, 2W)`, and the columns of an action
/// follow from `2W` on, where `W` is the width of a row of the table.
pub proof fn actions_follow_both_rows(target: TableDef, sources: Seq<Source<'_>>)
    requires
        !target.without_rowid,
        frame_fits(target.shape()),
        are_both_rows(sources, target),
    ensures
        2 * source_end(sources[0]) == frame_width(target.shape()),
        source_end(sources[1]) == frame_width(target.shape()),
        sources_end(sources, 0) == frame_width(target.shape()),
{
    reveal_with_fuel(sources_end, 2);
    assert(sources.drop_last()[0] == sources[0]);
}

/// The condition and the body of a trigger name the old row `OLD` and the new row `NEW`: the
/// columns of `OLD` start at register 0, and those of `NEW` after the columns and the rowid of
/// `OLD`.
pub proof fn both_rows_go_by_their_names(target: TableDef, sources: Seq<Source<'_>>, i: int)
    requires
        are_both_rows(sources, target),
        0 <= i < sources.len(),
    ensures
        sources[i] matches Source::BaseTable { exposed_name, table, base, .. } && *table == target
            && (exposed_name@ == "OLD"@ && base == 0 || exposed_name@ == "NEW"@ && base
            == target.columns@.len() + 1),
        sources.len() == 2,
        sources[0]->BaseTable_base != sources[1]->BaseTable_base,
{
    assert(sources[0] is BaseTable && sources[1] is BaseTable);
}

} // verus!
