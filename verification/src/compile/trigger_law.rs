//! The programs that a statement fires are those of the triggers declared for it, each as its
//! trigger declares it.

#[allow(unused_imports)]
use vstd::prelude::*;
use crate::catalog::{column_named, Catalog, TableShape};
use crate::compile::select::is_select;
use crate::compile::stored::{ActionStatement, CreateTrigger, TriggerEvent};
use crate::compile::trigger::{
    action_error, are_programs, assigns, body_error, compiled_for, fires_on, frame_width,
    is_program, triggers_error, DmlView, TargetKind, TriggerDef,
};
use crate::compile::update::is_nested_update;
use crate::error::Error;
use crate::expr::EvalExpr;
use crate::plan::{Plan, TriggerProgram, TriggerTiming};
use crate::plan_ctx::CtxView;
use crate::search::lemma_least_from;
use crate::text::{fold, same_name};
use crate::types::DbIndex;

verus! {

/// Whether a name is that of column `k`: it is the first column of that name.
pub open spec fn is_column(target: TableShape, name: Seq<char>, k: int) -> bool {
    &&& 0 <= k < target.columns.len()
    &&& fold(target.columns[k].name@) == fold(name)
    &&& forall|j: int| 0 <= j < k ==> fold((#[trigger] target.columns[j]).name@) != fold(name)
}

/// Whether a statement assigns the column that an `UPDATE OF` trigger names.
pub open spec fn assigns_named(target: TableShape, changed: Seq<usize>, name: Seq<char>) -> bool {
    exists|k: int| #[trigger] is_column(target, name, k) && changed.contains(k as usize)
}

/// Whether a trigger is declared for what a statement does: an `INSERT` trigger for inserting, a
/// `DELETE` trigger for deleting, an `UPDATE` trigger for updating, and one `UPDATE OF` columns
/// for assigning one of them.
pub open spec fn declared_for(event: TriggerEvent, dml: DmlView, target: TableShape) -> bool {
    match event {
        TriggerEvent::Insert => dml is Insert,
        TriggerEvent::Delete => dml is Delete,
        TriggerEvent::Update { columns } => {
            &&& dml matches DmlView::Update(changed)
            &&& columns@.len() == 0 || exists|i: int|
                0 <= i < columns@.len() && assigns_named(
                    target,
                    changed,
                    (#[trigger] columns@[i])@,
                )
        },
    }
}

/// A trigger fires on exactly the statements that it is declared for.
pub proof fn a_trigger_fires_on_what_it_is_declared_for(
    event: TriggerEvent,
    dml: DmlView,
    target: TableShape,
)
    ensures
        fires_on(event, dml, target) <==> declared_for(event, dml, target),
{
    if let TriggerEvent::Update { columns } = event {
        if let DmlView::Update(changed) = dml {
            assert forall|name: Seq<char>| #[trigger]
                assigns(target, changed, name) == assigns_named(target, changed, name) by {
                named_column_is_the_first(target, changed, name);
            }
            if fires_on(event, dml, target) && columns@.len() > 0 {
                let i = choose|i: int|
                    0 <= i < columns@.len() && assigns(target, changed, (#[trigger] columns@[i])@);
                assert(assigns_named(target, changed, columns@[i]@));
            }
            if declared_for(event, dml, target) && columns@.len() > 0 {
                let i = choose|i: int|
                    0 <= i < columns@.len() && assigns_named(
                        target,
                        changed,
                        (#[trigger] columns@[i])@,
                    );
                assert(assigns(target, changed, columns@[i]@));
            }
        }
    }
}

proof fn named_column_is_the_first(target: TableShape, changed: Seq<usize>, name: Seq<char>)
    ensures
        assigns(target, changed, name) == assigns_named(target, changed, name),
{
    let p = |i: int| same_name(target.columns[i].name@, name);
    lemma_least_from(p, 0, target.columns.len() as int);
    match column_named(target.columns, name) {
        Some(k) => {
            assert forall|j: int| 0 <= j < k implies fold((#[trigger] target.columns[j]).name@)
                != fold(name) by {
                assert(!p(j));
            }
            assert(p(k));
            assert(is_column(target, name, k));
            if assigns_named(target, changed, name) {
                let m = choose|m: int| #[trigger]
                    is_column(target, name, m) && changed.contains(m as usize);
                assert(m == k) by {
                    if m < k {
                        assert(!p(m));
                    } else if k < m {
                        assert(fold(target.columns[k].name@) != fold(name));
                    }
                }
            }
        },
        None => {
            assert forall|k: int| 0 <= k < target.columns.len() implies fold(
                (#[trigger] target.columns[k]).name@,
            ) != fold(name) by {
                assert(!p(k));
            }
        },
    }
}

/// The declaration that the stored text of a trigger holds.
pub open spec fn declaration<'a>(t: TriggerDef<'a>) -> CreateTrigger<'a> {
    t.text->Ok_0@[0]->CreateTrigger_0
}

/// Whether the stored text of a trigger is one declaration of a trigger.
pub open spec fn reads_back(t: TriggerDef<'_>) -> bool {
    t.text is Ok && t.text->Ok_0@.len() == 1 && t.text->Ok_0@[0] is CreateTrigger
}

/// Whether a trigger is declared on the target, in its namespace.
pub open spec fn stands_on(t: TriggerDef<'_>, db: DbIndex, target: TableShape) -> bool {
    t.db == db && fold(t.table@) == fold(target.name)
}

/// Whether a statement fires a trigger: it is declared on the target, for what the statement does,
/// and on a view instead of it.
pub open spec fn fires(
    t: TriggerDef<'_>,
    kind: TargetKind,
    db: DbIndex,
    target: TableShape,
    event: DmlView,
) -> bool {
    &&& stands_on(t, db, target)
    &&& reads_back(t)
    &&& declared_for(declaration(t).event, event, target)
    &&& kind is View ==> declaration(t).timing == Some(TriggerTiming::InsteadOf)
}

/// Whether a plan is that of a statement of a trigger body whose own columns follow `width`
/// registers. A plan of a statement that was compiled before is taken as it is.
pub open spec fn acts(catalog: Catalog, p: Plan, s: ActionStatement<'_>, width: usize) -> bool {
    match s {
        ActionStatement::Insert(Ok(a)) | ActionStatement::Delete(Ok(a)) => {
            &&& p.mutates
            &&& p.root == a.root
            &&& p.result_columns == a.result_columns
            &&& p.ctes == a.ctes
            &&& p.subqueries == a.subqueries
        },
        ActionStatement::Update(a) => {
            let after = CtxView { subqueries: p.subqueries@, ctes: p.ctes@, ..a.ctx@ };
            &&& p.mutates
            &&& is_nested_update(
                catalog,
                a.ctx@,
                p.root,
                p.result_columns@,
                after,
                a.update,
                width,
            )
        },
        ActionStatement::Select(a) => {
            &&& !p.mutates
            &&& is_select(catalog, Ok((p.root, p.result_columns)), a.select, width)
            &&& p.ctes@ == a.ctx@.ctes
            &&& p.subqueries@ == a.ctx@.subqueries
        },
        _ => false,
    }
}

/// Whether a program is that of a trigger: under its name, at its time, on its condition, with a
/// plan for each statement of its body. A trigger that declares no time fires before. The
/// statements follow two rows of the target, each its columns and its rowid.
pub open spec fn performs(
    catalog: Catalog,
    p: TriggerProgram,
    t: TriggerDef<'_>,
    target: TableShape,
) -> bool {
    let ct = declaration(t);
    &&& p.name@ == t.name@
    &&& p.timing is Before <==> ct.timing is None || ct.timing->Some_0 is Before
    &&& p.timing is After <==> ct.timing is Some && ct.timing->Some_0 is After
    &&& p.timing is InsteadOf <==> ct.timing is Some && ct.timing->Some_0 is InsteadOf
    &&& p.when is Some <==> ct.when is Some
    &&& ct.when matches Some(w) ==> w == Ok::<EvalExpr, Error>(p.when->Some_0)
    &&& p.actions@.len() == ct.body@.len()
    &&& forall|i: int|
        0 <= i < ct.body@.len() ==> acts(
            catalog,
            #[trigger] p.actions@[i],
            ct.body@[i],
            (target.columns.len() + target.columns.len() + 2) as usize,
        )
}

/// A trigger compiles to a program of its own timing, condition and body: it fires before where it
/// is declared `BEFORE` or declares no time, after where it is declared `AFTER`, and instead of
/// the change where it is declared `INSTEAD OF`.
pub proof fn a_program_performs_its_trigger(
    catalog: Catalog,
    p: TriggerProgram,
    t: TriggerDef<'_>,
    target: TableShape,
)
    requires
        reads_back(t),
        is_program(catalog, p, t.name, declaration(t), target),
    ensures
        performs(catalog, p, t, target),
{
}

/// A statement fires one program for each trigger declared for it, in the order of the schema, and
/// no other; each performs its trigger.
pub proof fn every_declared_trigger_is_performed(
    catalog: Catalog,
    ps: Seq<TriggerProgram>,
    ts: Seq<TriggerDef<'_>>,
    kind: TargetKind,
    db: DbIndex,
    target: TableShape,
    event: DmlView,
)
    requires
        are_programs(catalog, ps, ts, kind, db, target, event),
    ensures
        ({
            let fired = ts.filter(|t: TriggerDef<'_>| fires(t, kind, db, target, event));
            &&& ps.len() == fired.len()
            &&& forall|i: int|
                0 <= i < ps.len() ==> performs(catalog, #[trigger] ps[i], fired[i], target)
        }),
    decreases ts.len(),
{
    reveal(Seq::filter);
    let keep = |t: TriggerDef<'_>| fires(t, kind, db, target, event);
    if ts.len() > 0 {
        let t = ts.last();
        if reads_back(t) {
            a_trigger_fires_on_what_it_is_declared_for(declaration(t).event, event, target);
        }
        assert(compiled_for(t, kind, db, target, event) <==> fires(t, kind, db, target, event));
        let init = ts.drop_last().filter(keep);
        if compiled_for(t, kind, db, target, event) {
            every_declared_trigger_is_performed(
                catalog,
                ps.drop_last(),
                ts.drop_last(),
                kind,
                db,
                target,
                event,
            );
            a_program_performs_its_trigger(catalog, ps.last(), t, target);
            assert forall|i: int| 0 <= i < ps.len() implies performs(
                catalog,
                #[trigger] ps[i],
                ts.filter(keep)[i],
                target,
            ) by {
                if i < ps.len() - 1 {
                    assert(ps.drop_last()[i] == ps[i]);
                    assert(ts.filter(keep)[i] == init[i]);
                }
            }
        } else {
            every_declared_trigger_is_performed(
                catalog,
                ps,
                ts.drop_last(),
                kind,
                db,
                target,
                event,
            );
        }
    }
}

/// Whether a statement of a trigger body compiles at all: it is of one of the four forms, and what
/// was compiled before did compile.
pub open spec fn may_act(catalog: Catalog, s: ActionStatement<'_>, width: usize) -> bool {
    match s {
        ActionStatement::Insert(a) | ActionStatement::Delete(a) => a is Ok,
        ActionStatement::Other => false,
        _ => action_error(catalog, s, width) is None,
    }
}

/// Whether a trigger stands in the way of a statement on its target: its text does not read back,
/// or the statement fires it and it stands instead of a change to a table, its condition does not
/// bind, or a statement of its body does not compile.
pub open spec fn obstructs(
    catalog: Catalog,
    t: TriggerDef<'_>,
    kind: TargetKind,
    db: DbIndex,
    target: TableShape,
    event: DmlView,
) -> bool {
    &&& stands_on(t, db, target)
    &&& reads_back(t) ==> fires(t, kind, db, target, event) && {
        ||| kind is Table && declaration(t).timing == Some(TriggerTiming::InsteadOf)
        ||| declaration(t).when matches Some(w) && w is Err
        ||| exists|i: int|
            0 <= i < declaration(t).body@.len() && !may_act(
                catalog,
                #[trigger] declaration(t).body@[i],
                (target.columns.len() + target.columns.len() + 2) as usize,
            )
    }
}

proof fn a_body_compiles_statement_by_statement(
    catalog: Catalog,
    body: Seq<ActionStatement<'_>>,
    width: usize,
)
    ensures
        body_error(catalog, body, width) is None <==> forall|i: int|
            0 <= i < body.len() ==> may_act(catalog, #[trigger] body[i], width),
    decreases body.len(),
{
    if body.len() > 0 {
        let init = body.drop_last();
        a_body_compiles_statement_by_statement(catalog, init, width);
        assert(body.last() == body[body.len() - 1]);
        assert forall|i: int| 0 <= i < init.len() implies init[i] == body[i] by {}
        if body_error(catalog, body, width) is None {
            assert forall|i: int| 0 <= i < body.len() implies may_act(
                catalog,
                #[trigger] body[i],
                width,
            ) by {
                if i < init.len() {
                    assert(may_act(catalog, init[i], width));
                }
            }
        } else if body_error(catalog, init, width) is Some {
            let i = choose|i: int|
                0 <= i < init.len() && !may_act(catalog, #[trigger] init[i], width);
            assert(!may_act(catalog, body[i], width));
        }
    }
}

/// The triggers of a statement compile exactly where none of them stands in its way.
pub proof fn triggers_compile_unless_one_obstructs(
    catalog: Catalog,
    ts: Seq<TriggerDef<'_>>,
    kind: TargetKind,
    db: DbIndex,
    target: TableShape,
    event: DmlView,
)
    ensures
        triggers_error(catalog, ts, kind, db, target, event) is None <==> forall|i: int|
            0 <= i < ts.len() ==> !obstructs(catalog, #[trigger] ts[i], kind, db, target, event),
    decreases ts.len(),
{
    if ts.len() > 0 {
        let init = ts.drop_last();
        let t = ts.last();
        triggers_compile_unless_one_obstructs(catalog, init, kind, db, target, event);
        if reads_back(t) {
            a_trigger_fires_on_what_it_is_declared_for(declaration(t).event, event, target);
            a_body_compiles_statement_by_statement(
                catalog,
                declaration(t).body@,
                frame_width(target),
            );
        }
        let here = triggers_error(catalog, seq![t], kind, db, target, event);
        assert(seq![t].drop_last() =~= seq![]);
        reveal_with_fuel(triggers_error, 2);
        assert(here is Some <==> obstructs(catalog, t, kind, db, target, event));
        assert(ts[ts.len() - 1] == t);
        assert forall|i: int| 0 <= i < init.len() implies init[i] == ts[i] by {}
        if triggers_error(catalog, ts, kind, db, target, event) is None {
            assert forall|i: int| 0 <= i < ts.len() implies !obstructs(
                catalog,
                #[trigger] ts[i],
                kind,
                db,
                target,
                event,
            ) by {
                if i < init.len() {
                    assert(!obstructs(catalog, init[i], kind, db, target, event));
                }
            }
        } else if triggers_error(catalog, init, kind, db, target, event) is Some {
            let i = choose|i: int|
                0 <= i < init.len() && obstructs(
                    catalog,
                    #[trigger] init[i],
                    kind,
                    db,
                    target,
                    event,
                );
            assert(obstructs(catalog, ts[i], kind, db, target, event));
        }
    }
}

} // verus!
