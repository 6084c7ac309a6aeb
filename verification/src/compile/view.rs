//! Views: a view in a `FROM` clause is a materialized body.
//!
//! A view may name other views. The views being expanded are kept on a stack, so that one that
//! comes to name itself is found.

#[allow(unused_imports)]
use vstd::prelude::*;
use vstd::string::StringExecFns;
use crate::catalog::Catalog;
use crate::compile::select::{
    compile_select, is_select, select_error, select_width, select_wf, Select,
};
use crate::compile::stored::{parse_view_sql, stored_view, ParsedText};
use crate::error::{error_of, failure, first_error, Error};
use crate::plan::{CtePlan, PlanNode};
use crate::plan_ctx::{CtxView, PlanCtx};
use crate::scope::SynthCol;
use crate::text::{decimal, eq_ignore_ascii_case, fold, push_decimal, same_name};

verus! {

/// How many views may be expanded inside one another.
pub const MAX_VIEW_DEPTH: usize = 1000;

/// The names of the views being expanded, the innermost last.
pub struct ViewStack {
    names: Vec<String>,
}

/// Whether a view of that name is being expanded.
pub open spec fn expanding(stack: Seq<Seq<char>>, name: Seq<char>) -> bool {
    exists|i: int| 0 <= i < stack.len() && same_name(#[trigger] stack[i], name)
}

/// Whether no view is expanded inside itself, and the stack is no deeper than allowed.
pub open spec fn stack_wf(stack: Seq<Seq<char>>) -> bool {
    &&& stack.len() <= MAX_VIEW_DEPTH
    &&& forall|i: int, j: int|
        0 <= i < j < stack.len() ==> !same_name(#[trigger] stack[i], #[trigger] stack[j])
}

pub open spec fn circular_view_message(name: Seq<char>) -> Seq<char> {
    "view "@ + name + " is circularly defined"@
}

/// Whether the result, and the stack after it, are those of beginning to expand a view.
pub open spec fn is_entered(
    r: Result<(), Error>,
    before: Seq<Seq<char>>,
    after: Seq<Seq<char>>,
    name: Seq<char>,
) -> bool {
    match r {
        Ok(_) => !expanding(before, name) && before.len() < MAX_VIEW_DEPTH && after == before.push(
            name,
        ),
        Err(e) => (expanding(before, name) || before.len() >= MAX_VIEW_DEPTH) && e.text()
            == circular_view_message(name) && after == before,
    }
}

/// Whether the stack after it is that of leaving the innermost view.
pub open spec fn is_left(before: Seq<Seq<char>>, after: Seq<Seq<char>>) -> bool {
    after == before.drop_last()
}

/// Leaving a view that was entered undoes entering it.
pub proof fn leaving_undoes_entering(
    before: Seq<Seq<char>>,
    during: Seq<Seq<char>>,
    after: Seq<Seq<char>>,
    name: Seq<char>,
)
    requires
        is_entered(Ok(()), before, during, name),
        is_left(during, after),
    ensures
        after == before,
{
    assert(before.push(name).drop_last() =~= before);
}

/// A view is entered exactly where no view of its name, in any case, is being expanded and fewer
/// than a thousand are. Then it is the innermost, and the others stay; else nothing changes.
pub proof fn a_view_is_entered_once(
    r: Result<(), Error>,
    before: Seq<Seq<char>>,
    after: Seq<Seq<char>>,
    name: Seq<char>,
)
    requires
        is_entered(r, before, after, name),
    ensures
        r is Ok <==> before.len() < 1000 && forall|i: int|
            0 <= i < before.len() ==> fold(#[trigger] before[i]) != fold(name),
        r is Ok ==> after.len() == before.len() + 1 && after.last() == name && after.drop_last()
            == before,
        r is Err ==> after == before,
{
    assert(before.push(name).drop_last() =~= before);
    if expanding(before, name) {
        let i = choose|i: int| 0 <= i < before.len() && same_name(#[trigger] before[i], name);
        assert(fold(before[i]) == fold(name));
    }
}

impl ViewStack {
    /// The names of the views being expanded, the innermost last.
    pub closed spec fn view(self) -> Seq<Seq<char>> {
        self.names@.map_values(|s: String| s@)
    }

    pub open spec fn wf(self) -> bool {
        stack_wf(self@)
    }

    /// No view is being expanded.
    pub fn new() -> (r: ViewStack)
        ensures
            r.wf(),
            r@ == Seq::<Seq<char>>::empty(),
    {
        let r = ViewStack { names: Vec::new() };
        assert(r@ =~= Seq::<Seq<char>>::empty());
        r
    }

    /// Begin to expand a view. It is an error where the view is being expanded already, or
    /// where views are nested too deep.
    pub fn enter(&mut self, name: &str) -> (r: Result<(), Error>)
        requires
            old(self).wf(),
        ensures
            final(self).wf(),
            is_entered(r, old(self)@, final(self)@, name@),
    {
        let mut found: bool = false;
        let mut i: usize = 0;
        while i < self.names.len()
            invariant
                i <= self.names.len(),
                *self == *old(self),
                found == exists|k: int| 0 <= k < i && same_name(#[trigger] self@[k], name@),
            decreases self.names.len() - i,
        {
            assert(self@[i as int] == self.names@[i as int]@);
            if eq_ignore_ascii_case(self.names[i].as_str(), name) {
                found = true;
            }
            i = i + 1;
        }
        assert(found == expanding(self@, name@));
        if found || self.names.len() >= MAX_VIEW_DEPTH {
            let mut s: String = String::from_str("view ");
            s.append(name);
            s.append(" is circularly defined");
            return Err(Error::Sql(s));
        }
        let ghost before = self@;
        self.names.push(name.to_owned());
        proof {
            assert(self@ =~= before.push(name@));
            assert forall|i: int, j: int| 0 <= i < j < self@.len() implies !same_name(
                #[trigger] self@[i],
                #[trigger] self@[j],
            ) by {
                if j == before.len() {
                    assert(!same_name(before[i], name@));
                } else {
                    assert(!same_name(before[i], before[j]));
                }
            }
        }
        Ok(())
    }

    /// Leave the view that is being expanded.
    pub fn leave(&mut self)
        requires
            old(self).wf(),
            old(self)@.len() > 0,
        ensures
            final(self).wf(),
            is_left(old(self)@, final(self)@),
    {
        let ghost before = self@;
        let _ = self.names.pop();
        proof {
            assert(self@ =~= before.drop_last());
            assert forall|i: int, j: int| 0 <= i < j < self@.len() implies !same_name(
                #[trigger] self@[i],
                #[trigger] self@[j],
            ) by {
                assert(!same_name(before[i], before[j]));
            }
        }
    }
}

pub open spec fn view_arity_message(declared: nat, view: Seq<char>, actual: nat) -> Seq<char> {
    "expected "@ + decimal(declared) + " columns for '"@ + view + "' but got "@ + decimal(actual)
}

/// The error of a view whose column list does not fit its select.
pub fn view_arity(declared: usize, view: &str, actual: usize) -> (r: Error)
    ensures
        r.text() == view_arity_message(declared as nat, view@, actual as nat),
{
    let mut s: String = String::from_str("expected ");
    push_decimal(&mut s, declared);
    s.append(" columns for '");
    s.append(view);
    s.append("' but got ");
    push_decimal(&mut s, actual);
    Error::Sql(s)
}

/// The columns of a view: those of its select, under the names of the column list where there
/// is one. A column that is renamed is visible.
pub open spec fn named_columns(
    base: Seq<SynthCol>,
    columns: Option<Vec<String>>,
) -> Seq<SynthCol> {
    match columns {
        None => base,
        Some(list) => Seq::new(
            base.len(),
            |i: int|
                SynthCol {
                    name: list@[i],
                    affinity: base[i].affinity,
                    collation: base[i].collation,
                    hidden: false,
                },
        ),
    }
}

/// Whether a column list, where there is one, has as many names as the select has columns.
pub open spec fn list_fits(columns: Option<Vec<String>>, width: nat) -> bool {
    match columns {
        None => true,
        Some(list) => list@.len() == width,
    }
}

/// Name the columns of a view's select by its column list.
pub fn apply_view_columns(
    base: Vec<SynthCol>,
    columns: Option<Vec<String>>,
    view_name: &str,
) -> (r: Result<Vec<SynthCol>, Error>)
    ensures
        match r {
            Ok(out) => list_fits(columns, base@.len()) && out@ == named_columns(base@, columns),
            Err(e) => columns matches Some(list) && list@.len() != base@.len() && e.text()
                == view_arity_message(list@.len(), view_name@, base@.len()),
        },
{
    let list: Vec<String> = match columns {
        Some(l) => l,
        None => {
            return Ok(base);
        },
    };
    if list.len() != base.len() {
        return Err(view_arity(list.len(), view_name, base.len()));
    }
    let ghost names = list@;
    let mut out: Vec<SynthCol> = Vec::new();
    for name in it: list
        invariant
            it.seq() == names,
            names.len() == base@.len(),
            out@.len() == it.index(),
            forall|k: int|
                0 <= k < out@.len() ==> #[trigger] out@[k] == (SynthCol {
                    name: names[k],
                    affinity: base@[k].affinity,
                    collation: base@[k].collation,
                    hidden: false,
                }),
    {
        let i: usize = out.len();
        out.push(
            SynthCol {
                name,
                affinity: base[i].affinity,
                collation: base[i].collation,
                hidden: false,
            },
        );
    }
    proof {
        assert(out@ =~= named_columns(base@, columns));
    }
    Ok(out)
}

/// Why the columns of a view are not known: it is circular, its text is not a view's, its
/// select has none, or its column list does not fit.
pub open spec fn schema_error(
    entered: Result<(), Error>,
    text: ParsedText<'_>,
    base: Result<Vec<SynthCol>, Error>,
    name: Seq<char>,
) -> Option<Seq<char>> {
    match (entered, stored_view(text, name), base) {
        (Err(e), _, _) => Some(e.text()),
        (_, Err(t), _) => Some(t),
        (_, _, Err(e)) => Some(e.text()),
        (_, Ok(cv), Ok(cols)) => match cv.columns {
            Some(list) => if list@.len() != cols@.len() {
                Some(view_arity_message(list@.len(), name, cols@.len()))
            } else {
                None
            },
            None => None,
        },
    }
}

/// The columns of a view. `entered` is what entering it on the [`ViewStack`] gave, `text` what
/// parsing its stored text gave, and `base` the columns of its select.
pub fn view_schema(
    entered: Result<(), Error>,
    text: ParsedText<'_>,
    base: Result<Vec<SynthCol>, Error>,
    name: &str,
) -> (r: Result<Vec<SynthCol>, Error>)
    ensures
        match (r, schema_error(entered, text, base, name@)) {
            (Ok(out), None) => out@ == named_columns(
                base->Ok_0@,
                stored_view(text, name@)->Ok_0.columns,
            ),
            (Err(e), Some(t)) => e.text() == t,
            _ => false,
        },
{
    match entered {
        Ok(_) => {},
        Err(e) => {
            return Err(e);
        },
    }
    match parse_view_sql(text, name) {
        Err(e) => Err(e),
        Ok(cv) => match base {
            Err(e) => Err(e),
            Ok(cols) => apply_view_columns(cols, cv.columns, name),
        },
    }
}

pub open spec fn view_width_message(view: Seq<char>, schema: nat, body: nat) -> Seq<char> {
    "internal error: view "@ + view + " Phase-1 schema width ("@ + decimal(schema)
        + ") != compiled body width ("@ + decimal(body) + ")"@
}

/// Why a view cannot be scanned: it is circular, its text is not a view's, its select does not
/// compile, or its select has not as many columns as its schema.
pub open spec fn expansion_error(
    entered: Result<(), Error>,
    text: ParsedText<'_>,
    body: Select<'_>,
    name: Seq<char>,
    column_count: nat,
) -> Option<Seq<char>> {
    first_error(
        failure(entered),
        first_error(
            error_of(stored_view(text, name)),
            first_error(
                select_error(body),
                if select_width(body) != column_count {
                    Some(view_width_message(name, column_count, select_width(body)))
                } else {
                    None
                },
            ),
        ),
    )
}

/// Whether the compiled select of the view was added to the plan's materialized bodies, and
/// `node` scans it.
pub open spec fn is_view_scan(
    catalog: Catalog,
    before: CtxView,
    after: CtxView,
    node: PlanNode,
    body: Select<'_>,
    exposed_name: String,
    column_count: usize,
) -> bool {
    &&& node == (PlanNode::CteScan { id: before.ctes.len() as usize, column_count })
    &&& after == (CtxView { ctes: before.ctes.push(after.ctes.last()), ..before })
    &&& after.ctes.last() matches CtePlan::Materialized { name, column_count: n, body: plan }
    &&& name == exposed_name
    &&& n == column_count
    &&& exists|names: Vec<String>| #[trigger] is_select(catalog, Ok((plan, names)), body, 0)
}

/// Compile a view in a `FROM` clause. `column_count` is the width of its schema, against which
/// the query is bound. The position of its body is taken after the bodies inside it have
/// theirs.
pub fn compile_view(
    ctx: &mut PlanCtx,
    catalog: &Catalog,
    entered: Result<(), Error>,
    text: ParsedText<'_>,
    body: Select<'_>,
    name: &str,
    exposed_name: String,
    column_count: usize,
) -> (r: Result<PlanNode, Error>)
    requires
        select_wf(body),
    ensures
        match (r, expansion_error(entered, text, body, name@, column_count as nat)) {
            (Ok(node), None) => is_view_scan(
                *catalog,
                old(ctx)@,
                final(ctx)@,
                node,
                body,
                exposed_name,
                column_count,
            ),
            (Err(e), Some(t)) => e.text() == t && *final(ctx) == *old(ctx),
            _ => false,
        },
        final(ctx).wf() == old(ctx).wf(),
{
    match entered {
        Ok(_) => {},
        Err(e) => {
            return Err(e);
        },
    }
    match parse_view_sql(text, name) {
        Ok(_) => {},
        Err(e) => {
            return Err(e);
        },
    }
    let (node, names): (PlanNode, Vec<String>) = match compile_select(catalog, body) {
        Ok(b) => b,
        Err(e) => {
            return Err(e);
        },
    };
    if names.len() != column_count {
        let mut s: String = String::from_str("internal error: view ");
        s.append(name);
        s.append(" Phase-1 schema width (");
        push_decimal(&mut s, column_count);
        s.append(") != compiled body width (");
        push_decimal(&mut s, names.len());
        s.append(")");
        return Err(Error::Sql(s));
    }
    let id: usize = ctx.register_cte(
        CtePlan::Materialized { name: exposed_name, column_count, body: node },
    );
    Ok(PlanNode::CteScan { id, column_count })
}

/// A view that is being expanded cannot be entered again, in any spelling, until it is left.
pub proof fn an_open_view_is_not_entered(stack: Seq<Seq<char>>, i: int, name: Seq<char>)
    requires
        stack_wf(stack),
        0 <= i < stack.len(),
        same_name(stack[i], name),
    ensures
        expanding(stack, name),
        forall|k: int| 0 <= k < stack.len() && k != i ==> !same_name(#[trigger] stack[k], name),
{
    assert forall|k: int| 0 <= k < stack.len() && k != i implies !same_name(
        #[trigger] stack[k],
        name,
    ) by {
        if k < i {
            assert(!same_name(stack[k], stack[i]));
        } else {
            assert(!same_name(stack[i], stack[k]));
        }
    }
}

/// Views nest no deeper than there are views: a chain of expansions that only names views of
/// the schema ends.
pub proof fn expansions_end(stack: Seq<Seq<char>>, views: Seq<Seq<char>>)
    requires
        stack_wf(stack),
        forall|i: int| 0 <= i < stack.len() ==> expanding(views, #[trigger] stack[i]),
    ensures
        stack.len() <= views.len(),
    decreases stack.len(),
{
    if stack.len() > 0 {
        let last = stack.last();
        assert(expanding(views, stack[stack.len() - 1]));
        let j = choose|j: int| 0 <= j < views.len() && same_name(#[trigger] views[j], last);
        let others = views.remove(j);
        let outer = stack.drop_last();
        assert forall|i: int, k: int| 0 <= i < k < outer.len() implies !same_name(
            #[trigger] outer[i],
            #[trigger] outer[k],
        ) by {
            assert(!same_name(stack[i], stack[k]));
        }
        assert forall|i: int| 0 <= i < outer.len() implies expanding(others, #[trigger] outer[i]) by {
            assert(expanding(views, stack[i]));
            let k = choose|k: int| 0 <= k < views.len() && same_name(#[trigger] views[k], stack[i]);
            assert(!same_name(stack[i], stack[stack.len() - 1]));
            assert(k != j);
            if k < j {
                assert(others[k] == views[k]);
            } else {
                assert(others[k - 1] == views[k]);
            }
        }
        expansions_end(outer, others);
    }
}

} // verus!
