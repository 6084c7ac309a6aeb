//! Schema text read back: what parsing a stored `CREATE TRIGGER` or `CREATE VIEW` gave.

#[allow(unused_imports)]
use vstd::prelude::*;
use vstd::string::StringExecFns;
use crate::compile::select::Select;
use crate::compile::update::TargetedUpdate;
use crate::error::Error;
use crate::expr::Bound;
use crate::plan::{CtePlan, PlanNode, SubPlan, TriggerTiming};
use crate::plan_ctx::PlanCtx;

verus! {

/// The event a trigger is declared for. `columns` are those of `UPDATE OF`, none where it is
/// declared for every update.
#[derive(Debug)]
pub enum TriggerEvent {
    Insert,
    Update { columns: Vec<String> },
    Delete,
}

/// The parts of a compiled statement of a trigger body.
#[derive(Debug)]
pub struct ActionPlan {
    pub root: PlanNode,
    pub result_columns: Vec<String>,
    pub ctes: Vec<CtePlan>,
    pub subqueries: Vec<SubPlan>,
}

/// A select of a trigger body and the state that binding it left. Its own columns are bound
/// after the row of old and new values.
#[derive(Debug)]
pub struct SelectAction<'a> {
    pub ctx: PlanCtx,
    pub select: Select<'a>,
}

/// An update of a trigger body and the state that binding it left. Its own columns are bound
/// after the row of old and new values.
#[derive(Debug)]
pub struct UpdateAction<'a> {
    pub ctx: PlanCtx,
    pub update: TargetedUpdate<'a>,
}

/// A statement of a trigger body. An insert or a delete comes with what compiling it under the
/// row of old and new values gave.
#[derive(Debug)]
pub enum ActionStatement<'a> {
    Insert(Result<ActionPlan, Error>),
    Update(UpdateAction<'a>),
    Delete(Result<ActionPlan, Error>),
    Select(SelectAction<'a>),
    Other,
}

/// A `CREATE TRIGGER` with its condition and its body bound.
#[derive(Debug)]
pub struct CreateTrigger<'a> {
    pub name: String,
    pub timing: Option<TriggerTiming>,
    pub event: TriggerEvent,
    pub when: Option<Bound>,
    pub body: Vec<ActionStatement<'a>>,
}

/// A `CREATE VIEW`: the names of its column list, where it has one.
#[derive(Debug)]
pub struct CreateView {
    pub columns: Option<Vec<String>>,
}

/// One statement of parsed schema text.
#[derive(Debug)]
pub enum ParsedStatement<'a> {
    CreateTrigger(CreateTrigger<'a>),
    CreateView(CreateView),
    Other,
}

/// What parsing schema text gave.
pub type ParsedText<'a> = Result<Vec<ParsedStatement<'a>>, Error>;

pub open spec fn not_one_trigger_message(name: Seq<char>) -> Seq<char> {
    "stored trigger "@ + name + " did not re-parse to a single statement"@
}

pub open spec fn not_a_trigger_message(name: Seq<char>) -> Seq<char> {
    "stored trigger "@ + name + " did not re-parse to a CREATE TRIGGER"@
}

/// The trigger that stored text holds, or why it holds none.
pub open spec fn stored_trigger<'a>(text: ParsedText<'a>, name: Seq<char>) -> Result<
    CreateTrigger<'a>,
    Seq<char>,
> {
    match text {
        Err(e) => Err(e.text()),
        Ok(statements) => if statements@.len() != 1 {
            Err(not_one_trigger_message(name))
        } else {
            match statements@[0] {
                ParsedStatement::CreateTrigger(ct) => Ok(ct),
                _ => Err(not_a_trigger_message(name)),
            }
        },
    }
}

/// The trigger that stored text holds: exactly one `CREATE TRIGGER`.
pub fn reparse_trigger<'a>(text: ParsedText<'a>, name: &str) -> (r: Result<
    CreateTrigger<'a>,
    Error,
>)
    ensures
        match (r, stored_trigger(text, name@)) {
            (Ok(ct), Ok(want)) => ct == want,
            (Err(e), Err(t)) => e.text() == t,
            _ => false,
        },
{
    let mut statements: Vec<ParsedStatement<'_>> = match text {
        Ok(s) => s,
        Err(e) => {
            return Err(e);
        },
    };
    if statements.len() != 1 {
        let mut s: String = String::from_str("stored trigger ");
        s.append(name);
        s.append(" did not re-parse to a single statement");
        return Err(Error::Sql(s));
    }
    match statements.pop() {
        Some(ParsedStatement::CreateTrigger(ct)) => Ok(ct),
        _ => {
            let mut s: String = String::from_str("stored trigger ");
            s.append(name);
            s.append(" did not re-parse to a CREATE TRIGGER");
            Err(Error::Sql(s))
        },
    }
}

pub open spec fn not_one_view_message(name: Seq<char>) -> Seq<char> {
    "internal error: view "@ + name + " does not store a single CREATE VIEW statement"@
}

pub open spec fn not_a_view_message(name: Seq<char>) -> Seq<char> {
    "internal error: view "@ + name + " stored SQL is not a CREATE VIEW statement"@
}

/// The view that stored text holds, or why it holds none.
pub open spec fn stored_view(text: ParsedText<'_>, name: Seq<char>) -> Result<CreateView, Seq<char>> {
    match text {
        Err(e) => Err(e.text()),
        Ok(statements) => if statements@.len() != 1 {
            Err(not_one_view_message(name))
        } else {
            match statements@[0] {
                ParsedStatement::CreateView(cv) => Ok(cv),
                _ => Err(not_a_view_message(name)),
            }
        },
    }
}

/// The view that stored text holds: exactly one `CREATE VIEW`.
pub fn parse_view_sql(text: ParsedText<'_>, view_name: &str) -> (r: Result<CreateView, Error>)
    ensures
        match (r, stored_view(text, view_name@)) {
            (Ok(cv), Ok(want)) => cv == want,
            (Err(e), Err(t)) => e.text() == t,
            _ => false,
        },
{
    let mut statements: Vec<ParsedStatement<'_>> = match text {
        Ok(s) => s,
        Err(e) => {
            return Err(e);
        },
    };
    if statements.len() != 1 {
        let mut s: String = String::from_str("internal error: view ");
        s.append(view_name);
        s.append(" does not store a single CREATE VIEW statement");
        return Err(Error::Sql(s));
    }
    match statements.pop() {
        Some(ParsedStatement::CreateView(cv)) => Ok(cv),
        _ => {
            let mut s: String = String::from_str("internal error: view ");
            s.append(view_name);
            s.append(" stored SQL is not a CREATE VIEW statement");
            Err(Error::Sql(s))
        },
    }
}

/// A stored text reads back as a trigger exactly where it is one statement that declares one, and
/// as a view exactly where it is one statement that declares one; what it declares is read as it
/// stands.
pub proof fn one_declaration_reads_back(text: ParsedText<'_>, name: Seq<char>)
    ensures
        stored_trigger(text, name) is Ok <==> text is Ok && text->Ok_0@.len() == 1
            && text->Ok_0@[0] is CreateTrigger,
        stored_trigger(text, name) matches Ok(ct) ==> text->Ok_0@[0] == ParsedStatement::CreateTrigger(
            ct,
        ),
        stored_view(text, name) is Ok <==> text is Ok && text->Ok_0@.len() == 1
            && text->Ok_0@[0] is CreateView,
        stored_view(text, name) matches Ok(cv) ==> text->Ok_0@[0] == ParsedStatement::CreateView(cv),
        text matches Err(e) ==> stored_trigger(text, name) == Err::<CreateTrigger<'_>, Seq<char>>(
            e.text(),
        ) && stored_view(text, name) == Err::<CreateView, Seq<char>>(e.text()),
{
}

} // verus!
