//! Statements on views.
//!
//! A view has no rows of its own to change. An `INSERT`, `UPDATE` or `DELETE` on it fires the
//! triggers that stand instead of the change, once for each row of the view that it affects;
//! without such a trigger the view cannot be modified. The plan emits one frame per affected
//! row: the old row and the new row, each with a NULL in the place of a rowid.

#[allow(unused_imports)]
use vstd::prelude::*;
use vstd::string::StringExecFns;
use crate::catalog::{Catalog, ColumnDef, TableDef, TableShape};
use crate::compile::assignments::SetClause;
use crate::compile::returning::{
    bind_returning, item_outputs, output_exprs, output_names, outputs, star_outputs, star_over,
    ReturningColumn, StarColumns,
};
use crate::compile::select::{
    are_columns, compile_select_with_parent, is_select, select_error, select_width, select_wf,
    Select,
};
use crate::compile::stored::{parse_view_sql, stored_view, ParsedText};
use crate::compile::trigger::{
    are_programs, compile_instead_of_triggers, frame_fits, triggers_error, triggers_wf, DmlView,
    TargetKind, TriggerDef, TriggerDmlEvent,
};
use crate::compile::values::{compile_values, holds_rows, values_error};
use crate::compile::view::{
    compile_view, expansion_error, is_view_scan, view_arity, view_arity_message,
};
use crate::error::{error_of, failure, first_error, Error};
use crate::expr::{predicate_error, predicate_of, take_predicate, Bound, EvalExpr};
use crate::plan::{filter_by, filtered, InsteadOf, InsteadOfEvent, PlanNode, TriggerProgram};
use crate::plan_ctx::{lemma_extends_itself, CtxView, PlanCtx};
use crate::scope::SynthCol;
use crate::search::{least, least_from, lemma_least_from};
use crate::text::{decimal, eq_ignore_ascii_case, push_decimal, same_name};
use crate::types::{Affinity, Collation, DbIndex, Value};

verus! {

/// A column of a view.
#[derive(Debug)]
pub struct ViewCol {
    pub name: String,
    pub affinity: Affinity,
}

/// A view that a statement is on: its name and namespace, what parsing its stored text gave,
/// and the columns of its select.
#[derive(Debug)]
pub struct ViewTarget<'a> {
    pub name: String,
    pub db: DbIndex,
    pub text: ParsedText<'a>,
    pub select_columns: Result<Vec<ViewCol>, Error>,
}

/// The columns of a view: those of its select, under the names of its column list where it has
/// one.
pub open spec fn columns_of(view: ViewTarget<'_>) -> Result<Seq<ViewCol>, Seq<char>> {
    match (stored_view(view.text, view.name@), view.select_columns) {
        (Err(text), _) => Err(text),
        (Ok(_), Err(e)) => Err(e.text()),
        (Ok(cv), Ok(cols)) => match cv.columns {
            None => Ok(cols@),
            Some(names) => if names@.len() != cols@.len() {
                Err(view_arity_message(names@.len(), view.name@, cols@.len()))
            } else {
                Ok(
                    Seq::new(
                        cols@.len(),
                        |i: int| ViewCol { name: names@[i], affinity: cols@[i].affinity },
                    ),
                )
            },
        },
    }
}

/// The columns of a view.
pub fn view_columns(
    text: ParsedText<'_>,
    select_columns: Result<Vec<ViewCol>, Error>,
    name: &String,
) -> (r: Result<Vec<ViewCol>, Error>)
    ensures
        forall|db: DbIndex|
            match (r, #[trigger] columns_of(ViewTarget { name: *name, db, text, select_columns })) {
                (Ok(v), Ok(s)) => v@ == s,
                (Err(e), Err(t)) => e.text() == t,
                _ => false,
            },
{
    let explicit: Option<Vec<String>> = match parse_view_sql(text, name.as_str()) {
        Ok(cv) => cv.columns,
        Err(e) => {
            return Err(e);
        },
    };
    let cols: Vec<ViewCol> = match select_columns {
        Ok(c) => c,
        Err(e) => {
            return Err(e);
        },
    };
    match explicit {
        None => Ok(cols),
        Some(names) => {
            if names.len() != cols.len() {
                return Err(view_arity(names.len(), name.as_str(), cols.len()));
            }
            let ghost list = names@;
            let mut out: Vec<ViewCol> = Vec::new();
            for n in it: names
                invariant
                    it.seq() == list,
                    list.len() == cols@.len(),
                    out@.len() == it.index(),
                    forall|k: int|
                        0 <= k < out@.len() ==> #[trigger] out@[k] == (ViewCol {
                            name: list[k],
                            affinity: cols@[k].affinity,
                        }),
            {
                let i: usize = out.len();
                out.push(ViewCol { name: n, affinity: cols[i].affinity });
            }
            proof {
                assert(out@ =~= Seq::new(
                    cols@.len(),
                    |i: int| ViewCol { name: list[i], affinity: cols@[i].affinity },
                ));
            }
            Ok(out)
        },
    }
}

/// The columns of the table that stands for a view.
pub open spec fn synth_columns(cols: Seq<ViewCol>) -> Seq<ColumnDef> {
    Seq::new(
        cols.len(),
        |i: int|
            ColumnDef {
                name: cols[i].name,
                affinity: cols[i].affinity,
                collation: Collation::Binary,
                generated: None,
            },
    )
}

/// Whether `td` stands for a view: its columns, a rowid, and no column that is an alias of it.
pub open spec fn stands_for(td: TableDef, name: String, db: DbIndex, cols: Seq<ViewCol>) -> bool {
    &&& td.name == name
    &&& td.db == db
    &&& td.columns@ == synth_columns(cols)
    &&& !td.without_rowid
    &&& td.rowid_alias is None
}

/// A table that stands for a view where its triggers are compiled.
pub fn synth_table(name: &String, db: DbIndex, cols: &Vec<ViewCol>) -> (r: TableDef)
    ensures
        stands_for(r, *name, db, cols@),
{
    let mut columns: Vec<ColumnDef> = Vec::new();
    let mut i: usize = 0;
    while i < cols.len()
        invariant
            i <= cols.len(),
            columns@ == synth_columns(cols@).subrange(0, i as int),
        decreases cols.len() - i,
    {
        columns.push(
            ColumnDef {
                name: cols[i].name.clone(),
                affinity: cols[i].affinity,
                collation: Collation::Binary,
                generated: None,
            },
        );
        proof {
            assert(columns@ =~= synth_columns(cols@).subrange(0, i + 1));
        }
        i = i + 1;
    }
    assert(columns@ =~= synth_columns(cols@));
    TableDef { name: name.clone(), db, columns, without_rowid: false, rowid_alias: None }
}

/// The columns that the clauses of a statement on a view are bound against.
pub open spec fn scan_columns(cols: Seq<ViewCol>) -> Seq<SynthCol> {
    Seq::new(
        cols.len(),
        |i: int|
            SynthCol {
                name: cols[i].name,
                affinity: cols[i].affinity,
                collation: Collation::Binary,
                hidden: false,
            },
    )
}

/// The columns that the clauses of a statement on a view are bound against.
pub fn scan_synth_cols(cols: &Vec<ViewCol>) -> (r: Vec<SynthCol>)
    ensures
        r@ == scan_columns(cols@),
{
    let mut out: Vec<SynthCol> = Vec::new();
    let mut i: usize = 0;
    while i < cols.len()
        invariant
            i <= cols.len(),
            out@ == scan_columns(cols@).subrange(0, i as int),
        decreases cols.len() - i,
    {
        out.push(
            SynthCol {
                name: cols[i].name.clone(),
                affinity: cols[i].affinity,
                collation: Collation::Binary,
                hidden: false,
            },
        );
        proof {
            assert(out@ =~= scan_columns(cols@).subrange(0, i + 1));
        }
        i = i + 1;
    }
    assert(out@ =~= scan_columns(cols@));
    out
}

pub open spec fn null() -> EvalExpr {
    EvalExpr::Literal(Value::Null)
}

/// One half of a frame: the values of the columns, NULLs where there are none, and a NULL in
/// the place of a rowid.
pub open spec fn half(values: Option<Seq<EvalExpr>>, c: nat) -> Seq<EvalExpr> {
    match values {
        Some(v) => v.push(null()),
        None => Seq::new(c + 1, |i: int| null()),
    }
}

/// Whether `node` emits, for each row of `input`, a frame of the old and the new values.
pub open spec fn is_frame(
    node: PlanNode,
    input: PlanNode,
    c: nat,
    old_values: Option<Seq<EvalExpr>>,
    new_values: Option<Seq<EvalExpr>>,
) -> bool {
    &&& node matches PlanNode::Project { input: i, exprs }
    &&& *i == input
    &&& exprs@ == half(old_values, c) + half(new_values, c)
}

pub open spec fn values_of(v: Option<Vec<EvalExpr>>) -> Option<Seq<EvalExpr>> {
    match v {
        Some(x) => Some(x@),
        None => None,
    }
}

fn push_half_exprs(exprs: &mut Vec<EvalExpr>, values: Option<Vec<EvalExpr>>, c: usize)
    ensures
        final(exprs)@ == old(exprs)@ + half(values_of(values), c as nat),
{
    let ghost start = exprs@;
    match values {
        Some(v) => {
            let mut v: Vec<EvalExpr> = v;
            let ghost vals = v@;
            exprs.append(&mut v);
            exprs.push(EvalExpr::Literal(Value::Null));
            assert(exprs@ =~= start + vals.push(null()));
        },
        None => {
            let mut i: usize = 0;
            while i < c
                invariant
                    i <= c,
                    exprs@ == start + Seq::new(i as nat, |k: int| null()),
                decreases c - i,
            {
                exprs.push(EvalExpr::Literal(Value::Null));
                i = i + 1;
                assert(exprs@ =~= start + Seq::new(i as nat, |k: int| null()));
            }
            exprs.push(EvalExpr::Literal(Value::Null));
            assert(exprs@ =~= start + half(None, c as nat));
        },
    }
}

/// Emit a frame for each row of `input`. A half that is absent is all NULL.
pub fn frame_project(
    input: PlanNode,
    c: usize,
    old_values: Option<Vec<EvalExpr>>,
    new_values: Option<Vec<EvalExpr>>,
) -> (r: PlanNode)
    ensures
        is_frame(r, input, c as nat, values_of(old_values), values_of(new_values)),
{
    let mut exprs: Vec<EvalExpr> = Vec::new();
    push_half_exprs(&mut exprs, old_values, c);
    push_half_exprs(&mut exprs, new_values, c);
    proof {
        assert(exprs@ =~= half(values_of(old_values), c as nat) + half(
            values_of(new_values),
            c as nat,
        ));
    }
    PlanNode::Project { input: Box::new(input), exprs }
}

fn row_columns(n: usize) -> (r: Vec<EvalExpr>)
    ensures
        are_columns(r@, n as nat),
{
    let mut out: Vec<EvalExpr> = Vec::new();
    let mut i: usize = 0;
    while i < n
        invariant
            i <= n,
            are_columns(out@, i as nat),
        decreases n - i,
    {
        out.push(EvalExpr::Column(i));
        i = i + 1;
    }
    out
}

/// The first `n` columns of a row.
pub open spec fn own_columns(n: nat) -> Seq<EvalExpr> {
    Seq::new(n, |i: int| EvalExpr::Column(i as usize))
}

pub open spec fn not_updatable_message(view: Seq<char>) -> Seq<char> {
    "cannot modify "@ + view + " because it is a view"@
}

fn not_updatable(view: &str) -> (r: Error)
    ensures
        r.text() == not_updatable_message(view@),
{
    let mut s: String = String::from_str("cannot modify ");
    s.append(view);
    s.append(" because it is a view");
    Error::Sql(s)
}

pub open spec fn unsupported_message(clause: Seq<char>, view: Seq<char>) -> Seq<char> {
    clause + " on a view ("@ + view + ") INSTEAD OF trigger is not yet supported"@
}

fn unsupported(clause: &str, view: &str) -> (r: Error)
    ensures
        r.text() == unsupported_message(clause@, view@),
{
    let mut s: String = String::from_str(clause);
    s.append(" on a view (");
    s.append(view);
    s.append(") INSTEAD OF trigger is not yet supported");
    Error::Sql(s)
}

pub open spec fn no_view_column_message(view: Seq<char>, name: Seq<char>) -> Seq<char> {
    "table "@ + view + " has no column named "@ + name
}

/// The position of the first view column named `name`.
pub open spec fn view_column(cols: Seq<ViewCol>, name: Seq<char>) -> Option<int> {
    least(|i: int| same_name(cols[i].name@, name), cols.len() as int)
}

fn view_position(cols: &Vec<ViewCol>, name: &str) -> (r: Option<usize>)
    ensures
        match (r, view_column(cols@, name@)) {
            (Some(i), Some(k)) => i == k && i < cols@.len(),
            (None, None) => true,
            _ => false,
        },
{
    let ghost p = |i: int| same_name(cols@[i].name@, name@);
    let mut i: usize = 0;
    while i < cols.len()
        invariant
            i <= cols.len(),
            p == (|i: int| same_name(cols@[i].name@, name@)),
            least(p, cols@.len() as int) == least_from(p, i as int, cols@.len() as int),
        decreases cols.len() - i,
    {
        if eq_ignore_ascii_case(cols[i].name.as_str(), name) {
            assert(p(i as int));
            return Some(i);
        }
        assert(!p(i as int));
        i = i + 1;
    }
    None
}

/// The position of the view column named `name`.
pub fn view_col_index(cols: &Vec<ViewCol>, name: &str, view: &str) -> (r: Result<usize, Error>)
    ensures
        match (r, view_column(cols@, name@)) {
            (Ok(i), Some(k)) => i == k && i < cols@.len(),
            (Err(e), None) => e.text() == no_view_column_message(view@, name@),
            _ => false,
        },
{
    match view_position(cols, name) {
        Some(i) => Ok(i),
        None => {
            let mut s: String = String::from_str("table ");
            s.append(view);
            s.append(" has no column named ");
            s.append(name);
            Err(Error::Sql(s))
        },
    }
}

/// The triggers that a statement on a view fires. One that is itself the action of a trigger
/// fires none.
pub fn select_programs(
    catalog: &Catalog,
    triggers: Vec<TriggerDef<'_>>,
    db: DbIndex,
    synth: &TableDef,
    event: TriggerDmlEvent<'_>,
    nested: bool,
) -> (r: Result<Vec<TriggerProgram>, Error>)
    requires
        triggers_wf(triggers@),
        frame_fits(synth.shape()),
    ensures
        if nested {
            r matches Ok(ps) && ps@.len() == 0
        } else {
            match (
                r,
                triggers_error(
                    *catalog,
                    triggers@,
                    TargetKind::View,
                    db,
                    synth.shape(),
                    event@,
                ),
            ) {
                (Ok(ps), None) => are_programs(
                    *catalog,
                    ps@,
                    triggers@,
                    TargetKind::View,
                    db,
                    synth.shape(),
                    event@,
                ),
                (Err(e), Some(text)) => e.text() == text,
                _ => false,
            }
        },
{
    if nested {
        return Ok(Vec::new());
    }
    compile_instead_of_triggers(catalog, triggers, db, synth, event)
}

/// Whether some trigger of the list is compiled for the statement on the view.
pub open spec fn some_fires(
    ts: Seq<TriggerDef<'_>>,
    db: DbIndex,
    synth: TableShape,
    event: DmlView,
) -> bool {
    exists|i: int|
        0 <= i < ts.len() && crate::compile::trigger::compiled_for(
            #[trigger] ts[i],
            TargetKind::View,
            db,
            synth,
            event,
        )
}

/// There are programs exactly where some trigger fires.
pub proof fn programs_iff_some_fires(
    catalog: Catalog,
    ps: Seq<TriggerProgram>,
    ts: Seq<TriggerDef<'_>>,
    db: DbIndex,
    synth: TableShape,
    event: DmlView,
)
    requires
        are_programs(catalog, ps, ts, TargetKind::View, db, synth, event),
    ensures
        (ps.len() > 0) == some_fires(ts, db, synth, event),
    decreases ts.len(),
{
    if ts.len() > 0 {
        let last = ts.len() - 1;
        if crate::compile::trigger::compiled_for(ts.last(), TargetKind::View, db, synth, event) {
            assert(ts[last] == ts.last());
        } else {
            programs_iff_some_fires(catalog, ps, ts.drop_last(), db, synth, event);
            if some_fires(ts.drop_last(), db, synth, event) {
                let i = choose|i: int|
                    0 <= i < ts.drop_last().len() && crate::compile::trigger::compiled_for(
                        #[trigger] ts.drop_last()[i],
                        TargetKind::View,
                        db,
                        synth,
                        event,
                    );
                assert(ts[i] == ts.drop_last()[i]);
            }
            if some_fires(ts, db, synth, event) {
                let i = choose|i: int|
                    0 <= i < ts.len() && crate::compile::trigger::compiled_for(
                        #[trigger] ts[i],
                        TargetKind::View,
                        db,
                        synth,
                        event,
                    );
                assert(ts.drop_last()[i] == ts[i]);
            }
        }
    }
}

/// Where the rows of an `INSERT` come from.
#[derive(Debug)]
pub enum InsertSource<'a> {
    DefaultValues,
    Values(Vec<Vec<Bound>>),
    Select(Select<'a>),
}

/// The columns that the positions of an inserted row go to: all in order, or those that are
/// named.
pub open spec fn insert_columns(
    cols: Seq<ViewCol>,
    names: Option<Vec<String>>,
    view: Seq<char>,
) -> Result<Seq<usize>, Seq<char>> {
    match names {
        None => Ok(Seq::new(cols.len(), |i: int| i as usize)),
        Some(list) => named_positions(cols, list@, view),
    }
}

/// The positions of the named columns.
pub open spec fn named_positions(cols: Seq<ViewCol>, names: Seq<String>, view: Seq<char>) -> Result<
    Seq<usize>,
    Seq<char>,
>
    decreases names.len(),
{
    if names.len() == 0 {
        Ok(seq![])
    } else {
        match named_positions(cols, names.drop_last(), view) {
            Err(text) => Err(text),
            Ok(before) => match view_column(cols, names.last()@) {
                Some(k) => Ok(before.push(k as usize)),
                None => Err(no_view_column_message(view, names.last()@)),
            },
        }
    }
}

proof fn lemma_named_prefix(cols: Seq<ViewCol>, names: Seq<String>, view: Seq<char>, k: int)
    requires
        0 <= k <= names.len(),
        named_positions(cols, names.subrange(0, k), view) is Err,
    ensures
        named_positions(cols, names, view) == named_positions(cols, names.subrange(0, k), view),
    decreases names.len() - k,
{
    if k == names.len() {
        assert(names.subrange(0, k) =~= names);
    } else {
        assert(names.subrange(0, k + 1).drop_last() =~= names.subrange(0, k));
        lemma_named_prefix(cols, names, view, k + 1);
    }
}

/// The columns that the positions of an inserted row go to.
pub fn resolve_insert_columns(cols: &Vec<ViewCol>, names: &Option<Vec<String>>, view: &str) -> (r:
    Result<Vec<usize>, Error>)
    ensures
        crate::error::agrees(r, insert_columns(cols@, *names, view@)),
{
    let mut out: Vec<usize> = Vec::new();
    let mut i: usize = 0;
    match names {
        None => {
            while i < cols.len()
                invariant
                    i <= cols.len(),
                    out@ == Seq::new(i as nat, |k: int| k as usize),
                decreases cols.len() - i,
            {
                out.push(i);
                i = i + 1;
                assert(out@ =~= Seq::new(i as nat, |k: int| k as usize));
            }
            Ok(out)
        },
        Some(list) => {
            proof {
                assert(list@.subrange(0, 0) =~= seq![]);
            }
            while i < list.len()
                invariant
                    i <= list.len(),
                    *names == Some(*list),
                    named_positions(cols@, list@.subrange(0, i as int), view@) == Ok::<
                        Seq<usize>,
                        Seq<char>,
                    >(out@),
                decreases list.len() - i,
            {
                proof {
                    assert(list@.subrange(0, i + 1).drop_last() =~= list@.subrange(0, i as int));
                    assert(list@.subrange(0, i + 1).last() == list@[i as int]);
                }
                match view_col_index(cols, list[i].as_str(), view) {
                    Ok(k) => {
                        out.push(k);
                    },
                    Err(e) => {
                        proof {
                            lemma_named_prefix(cols@, list@, view@, i + 1);
                        }
                        return Err(e);
                    },
                }
                i = i + 1;
            }
            proof {
                assert(list@.subrange(0, list@.len() as int) =~= list@);
            }
            Ok(out)
        },
    }
}

/// Whether every row has as many terms as the first.
pub open spec fn rows_even(rows: Seq<Vec<Bound>>) -> bool {
    forall|i: int| 0 <= i < rows.len() ==> (#[trigger] rows[i])@.len() == rows[0]@.len()
}

/// The number of terms of the rows; 0 where there are none.
pub open spec fn row_width(rows: Seq<Vec<Bound>>) -> nat {
    if rows.len() == 0 {
        0
    } else {
        rows[0]@.len()
    }
}

/// The number of terms of the rows, which all have as many as the first.
pub fn row_arity(rows: &Vec<Vec<Bound>>) -> (r: Result<usize, Error>)
    ensures
        match r {
            Ok(width) => rows_even(rows@) && width == row_width(rows@),
            Err(e) => !rows_even(rows@) && e.text()
                == "all VALUES must have the same number of terms"@,
        },
{
    let width: usize = if rows.len() == 0 {
        0
    } else {
        rows[0].len()
    };
    let mut i: usize = 0;
    while i < rows.len()
        invariant
            i <= rows.len(),
            width == row_width(rows@),
            forall|k: int| 0 <= k < i ==> (#[trigger] rows@[k])@.len() == width,
        decreases rows.len() - i,
    {
        if rows[i].len() != width {
            return Err(Error::sql("all VALUES must have the same number of terms"));
        }
        i = i + 1;
    }
    Ok(width)
}

/// Whether the columns are `0`, `1`, `2`, and so on.
pub open spec fn positional(col_map: Seq<usize>) -> bool {
    forall|i: int| 0 <= i < col_map.len() ==> #[trigger] col_map[i] == i
}

/// Whether the columns are `0`, `1`, `2`, and so on.
pub fn matches_positional(col_map: &[usize]) -> (r: bool)
    ensures
        r == positional(col_map@),
{
    let mut i: usize = 0;
    while i < col_map.len()
        invariant
            i <= col_map.len(),
            forall|k: int| 0 <= k < i ==> #[trigger] col_map@[k] == k,
        decreases col_map.len() - i,
    {
        if col_map[i] != i {
            return false;
        }
        i = i + 1;
    }
    true
}

pub open spec fn positional_arity_message(view: Seq<char>, c: nat, width: nat) -> Seq<char> {
    "table "@ + view + " has "@ + decimal(c) + " columns but "@ + decimal(width)
        + " values were supplied"@
}

pub open spec fn listed_arity_message(width: nat, columns: nat) -> Seq<char> {
    decimal(width) + " values for "@ + decimal(columns) + " columns"@
}

/// Why a row of `width` values does not fit its target columns, by the columns alone: every
/// column in order, or some of them.
pub open spec fn arity_error(col_map: Seq<usize>, c: nat, width: nat, view: Seq<char>) -> Option<
    Seq<char>,
> {
    if width == col_map.len() {
        None
    } else if col_map.len() == c && positional(col_map) {
        Some(positional_arity_message(view, c, width))
    } else {
        Some(listed_arity_message(width, col_map.len()))
    }
}

/// Why a row of `width` values does not fit the target columns of an `INSERT`. With a column
/// list there is one value for each listed column, without one a value for each column of the
/// view.
pub open spec fn insert_arity_error(
    listed: bool,
    col_map: Seq<usize>,
    c: nat,
    width: nat,
    view: Seq<char>,
) -> Option<Seq<char>> {
    if width == col_map.len() {
        None
    } else if listed {
        Some(listed_arity_message(width, col_map.len()))
    } else {
        Some(positional_arity_message(view, c, width))
    }
}

/// Check that a row of `source_width` values fits its target columns, by the columns alone.
pub fn check_insert_arity(col_map: &Vec<usize>, c: usize, source_width: usize, view: &str) -> (r:
    Result<(), Error>)
    ensures
        match (r, arity_error(col_map@, c as nat, source_width as nat, view@)) {
            (Ok(_), None) => true,
            (Err(e), Some(text)) => e.text() == text,
            _ => false,
        },
{
    if source_width == col_map.len() {
        return Ok(());
    }
    if col_map.len() == c && matches_positional(col_map.as_slice()) {
        let mut s: String = String::from_str("table ");
        s.append(view);
        s.append(" has ");
        push_decimal(&mut s, c);
        s.append(" columns but ");
        push_decimal(&mut s, source_width);
        s.append(" values were supplied");
        Err(Error::Sql(s))
    } else {
        Err(listed_arity(source_width, col_map.len()))
    }
}

/// The error of a row that does not fit its column list.
fn listed_arity(width: usize, columns: usize) -> (r: Error)
    ensures
        r.text() == listed_arity_message(width as nat, columns as nat),
{
    let mut s: String = String::new();
    push_decimal(&mut s, width);
    s.append(" values for ");
    push_decimal(&mut s, columns);
    s.append(" columns");
    proof {
        assert(Seq::<char>::empty() + decimal(width as nat) =~= decimal(width as nat));
    }
    Error::Sql(s)
}

/// Check that a row of `width` values fits the target columns of an `INSERT`, which are every
/// column in order where it has no column list.
fn check_row_width(listed: bool, col_map: &Vec<usize>, c: usize, width: usize, view: &str) -> (r:
    Result<(), Error>)
    requires
        !listed ==> col_map@.len() == c && positional(col_map@),
    ensures
        match (r, insert_arity_error(listed, col_map@, c as nat, width as nat, view@)) {
            (Ok(_), None) => true,
            (Err(e), Some(text)) => e.text() == text,
            _ => false,
        },
{
    if !listed {
        return check_insert_arity(col_map, c, width, view);
    }
    if width == col_map.len() {
        Ok(())
    } else {
        Err(listed_arity(width, col_map.len()))
    }
}

/// Why the rows of an `INSERT` cannot be compiled, given their target columns and whether it
/// lists them.
pub open spec fn source_error(
    source: InsertSource<'_>,
    listed: bool,
    col_map: Seq<usize>,
    c: nat,
    view: Seq<char>,
) -> Option<Seq<char>> {
    match source {
        InsertSource::DefaultValues => None,
        InsertSource::Values(rows) => if !rows_even(rows@) {
            Some("all VALUES must have the same number of terms"@)
        } else {
            match insert_arity_error(listed, col_map, c, row_width(rows@), view) {
                Some(text) => Some(text),
                None => values_error(rows@),
            }
        },
        InsertSource::Select(sel) => first_error(
            select_error(sel),
            insert_arity_error(listed, col_map, c, select_width(sel), view),
        ),
    }
}

/// Whether `node` emits the rows of an `INSERT`, with the target columns of their positions;
/// default values are one row of none.
pub open spec fn is_source(
    catalog: Catalog,
    node: PlanNode,
    used: Seq<usize>,
    source: InsertSource<'_>,
    col_map: Seq<usize>,
) -> bool {
    match source {
        InsertSource::DefaultValues => node is SingleRow && used.len() == 0,
        InsertSource::Values(rows) => holds_rows(node, rows@) && used == col_map,
        InsertSource::Select(sel) => {
            &&& used == col_map
            &&& exists|names: Vec<String>| #[trigger] is_select(catalog, Ok((node, names)), sel, 0)
        },
    }
}

/// The rows of an `INSERT` and the target columns of their positions.
fn compile_insert_source(
    catalog: &Catalog,
    source: InsertSource<'_>,
    listed: bool,
    col_map: Vec<usize>,
    c: usize,
    view: &str,
) -> (r: Result<(PlanNode, Vec<usize>), Error>)
    requires
        !listed ==> col_map@.len() == c && positional(col_map@),
        source matches InsertSource::Select(sel) ==> select_wf(sel),
    ensures
        match (r, source_error(source, listed, col_map@, c as nat, view@)) {
            (Ok((node, used)), None) => is_source(*catalog, node, used@, source, col_map@),
            (Err(e), Some(text)) => e.text() == text,
            _ => false,
        },
{
    match source {
        InsertSource::DefaultValues => Ok((PlanNode::SingleRow, Vec::new())),
        InsertSource::Values(rows) => {
            let width: usize = match row_arity(&rows) {
                Ok(w) => w,
                Err(e) => {
                    return Err(e);
                },
            };
            match check_row_width(listed, &col_map, c, width, view) {
                Ok(_) => {},
                Err(e) => {
                    return Err(e);
                },
            }
            match compile_values(rows) {
                Ok((node, _)) => Ok((node, col_map)),
                Err(e) => Err(e),
            }
        },
        InsertSource::Select(sel) => match compile_select_with_parent(catalog, sel, None) {
            Ok((node, names)) => match check_row_width(listed, &col_map, c, names.len(), view) {
                Ok(_) => Ok((node, col_map)),
                Err(e) => Err(e),
            },
            Err(e) => Err(e),
        },
    }
}

/// Whether a position goes to column `i`.
pub open spec fn goes_to(used: Seq<usize>, i: int) -> spec_fn(int) -> bool {
    |p: int| used[p] == i
}

/// The value of column `i` of an inserted row: that of the first position that goes to it, else
/// NULL.
pub open spec fn inserted_value(used: Seq<usize>, i: int) -> EvalExpr {
    match least(goes_to(used, i), used.len() as int) {
        Some(p) => EvalExpr::Column(p as usize),
        None => null(),
    }
}

/// The new values of an inserted row.
pub open spec fn inserted_values(used: Seq<usize>, c: nat) -> Seq<EvalExpr> {
    Seq::new(c, |i: int| inserted_value(used, i))
}

fn inserted_row(used: &Vec<usize>, c: usize) -> (r: Vec<EvalExpr>)
    ensures
        r@ == inserted_values(used@, c as nat),
{
    let mut out: Vec<EvalExpr> = Vec::new();
    let mut i: usize = 0;
    while i < c
        invariant
            i <= c,
            out@.len() == i,
            forall|k: int| 0 <= k < i ==> #[trigger] out@[k] == inserted_value(used@, k),
        decreases c - i,
    {
        let ghost p = goes_to(used@, i as int);
        let mut found: Option<usize> = None;
        let mut j: usize = 0;
        while j < used.len() && found.is_none()
            invariant
                j <= used.len(),
                p == goes_to(used@, i as int),
                match found {
                    None => least(p, used@.len() as int) == least_from(
                        p,
                        j as int,
                        used@.len() as int,
                    ),
                    Some(k) => least(p, used@.len() as int) == Some(k as int),
                },
            decreases used.len() - j,
        {
            if used[j] == i {
                assert(p(j as int));
                found = Some(j);
            } else {
                assert(!p(j as int));
            }
            j = j + 1;
        }
        let value: EvalExpr = match found {
            Some(k) => EvalExpr::Column(k),
            None => EvalExpr::Literal(Value::Null),
        };
        assert(value == inserted_value(used@, i as int));
        out.push(value);
        i = i + 1;
    }
    assert(out@ =~= inserted_values(used@, c as nat));
    out
}

/// Why the frames of an `INSERT` cannot be compiled.
pub open spec fn insert_frame_error(
    cols: Seq<ViewCol>,
    names: Option<Vec<String>>,
    source: InsertSource<'_>,
    view: Seq<char>,
) -> Option<Seq<char>> {
    match insert_columns(cols, names, view) {
        Err(text) => Some(text),
        Ok(col_map) => source_error(source, names is Some, col_map, cols.len(), view),
    }
}

/// Whether `node` emits the frames of an `INSERT`: no old row, and the inserted row.
pub open spec fn is_insert_frame(
    catalog: Catalog,
    node: PlanNode,
    cols: Seq<ViewCol>,
    names: Option<Vec<String>>,
    source: InsertSource<'_>,
    view: Seq<char>,
) -> bool {
    &&& insert_columns(cols, names, view) matches Ok(col_map)
    &&& exists|rows: PlanNode, used: Seq<usize>|
        #![trigger is_source(catalog, rows, used, source, col_map)]
        is_source(catalog, rows, used, source, col_map) && is_frame(
            node,
            rows,
            cols.len(),
            None,
            Some(inserted_values(used, cols.len())),
        )
}

fn build_insert_frame(
    catalog: &Catalog,
    cols: &Vec<ViewCol>,
    names: Option<Vec<String>>,
    source: InsertSource<'_>,
    view: &str,
) -> (r: Result<PlanNode, Error>)
    requires
        source matches InsertSource::Select(sel) ==> select_wf(sel),
    ensures
        match (r, insert_frame_error(cols@, names, source, view@)) {
            (Ok(node), None) => is_insert_frame(*catalog, node, cols@, names, source, view@),
            (Err(e), Some(text)) => e.text() == text,
            _ => false,
        },
{
    let col_map: Vec<usize> = match resolve_insert_columns(cols, &names, view) {
        Ok(m) => m,
        Err(e) => {
            return Err(e);
        },
    };
    let ghost map = col_map@;
    let listed: bool = names.is_some();
    match compile_insert_source(catalog, source, listed, col_map, cols.len(), view) {
        Ok((rows, used)) => {
            let new_values: Vec<EvalExpr> = inserted_row(&used, cols.len());
            assert(is_source(*catalog, rows, used@, source, map));
            Ok(frame_project(rows, cols.len(), None, Some(new_values)))
        },
        Err(e) => Err(e),
    }
}

/// An `INSERT` into a view, with its parts bound. `upsert` says whether it has an
/// `ON CONFLICT` clause, and `with` what registering its `WITH` clause gave.
#[derive(Debug)]
pub struct ViewInsert<'a> {
    pub upsert: bool,
    pub with: Result<(), Error>,
    pub columns: Option<Vec<String>>,
    pub source: InsertSource<'a>,
    pub returning: Vec<ReturningColumn>,
}

/// The table that stands for the view.
pub open spec fn view_shape(view: ViewTarget<'_>, cols: Seq<ViewCol>) -> TableShape {
    TableShape { name: view.name@, columns: synth_columns(cols) }
}

/// Whether the registers of an old and a new row of the view can be numbered.
pub open spec fn view_fits(view: ViewTarget<'_>) -> bool {
    columns_of(view) matches Ok(cols) ==> frame_fits(view_shape(view, cols))
}

/// Why a view cannot be modified: its triggers do not compile, or none of them fires.
pub open spec fn firing_error(
    catalog: Catalog,
    triggers: Seq<TriggerDef<'_>>,
    view: ViewTarget<'_>,
    cols: Seq<ViewCol>,
    event: DmlView,
    nested: bool,
) -> Option<Seq<char>> {
    let shape = view_shape(view, cols);
    if nested {
        Some(not_updatable_message(view.name@))
    } else {
        match triggers_error(catalog, triggers, TargetKind::View, view.db, shape, event) {
            Some(text) => Some(text),
            None => if some_fires(triggers, view.db, shape, event) {
                None
            } else {
                Some(not_updatable_message(view.name@))
            },
        }
    }
}

proof fn lemma_star_over_scan(cols: Seq<ViewCol>)
    requires
        cols.len() <= usize::MAX,
    ensures
        star_over(scan_columns(cols), 0).len() == cols.len(),
        forall|i: int|
            0 <= i < cols.len() ==> #[trigger] star_over(scan_columns(cols), 0)[i] == (
                i as usize,
                cols[i].name,
            ),
    decreases cols.len(),
{
    if cols.len() > 0 {
        lemma_star_over_scan(cols.drop_last());
        assert(scan_columns(cols).drop_last() =~= scan_columns(cols.drop_last()));
    }
}

/// The columns that a `*` stands for in a statement on a view.
pub fn view_star(cols: &Vec<ViewCol>) -> (r: Vec<(usize, String)>)
    ensures
        r@ == star_over(scan_columns(cols@), 0),
{
    let mut out: Vec<(usize, String)> = Vec::new();
    let mut i: usize = 0;
    while i < cols.len()
        invariant
            i <= cols.len(),
            out@.len() == i,
            forall|k: int| 0 <= k < i ==> #[trigger] out@[k] == (k as usize, cols@[k].name),
        decreases cols.len() - i,
    {
        out.push((i, cols[i].name.clone()));
        i = i + 1;
    }
    proof {
        lemma_star_over_scan(cols@);
        assert(out@ =~= star_over(scan_columns(cols@), 0));
    }
    out
}

/// The output columns of one item of the `RETURNING` of a statement on a view: a `*` stands for
/// the columns of the view, whatever it was bound to.
pub open spec fn view_item_outputs(cols: Seq<ViewCol>, c: ReturningColumn) -> Result<
    Seq<(EvalExpr, String)>,
    Seq<char>,
> {
    match c {
        ReturningColumn::Star(_) => Ok(star_outputs(star_over(scan_columns(cols), 0))),
        _ => item_outputs(c),
    }
}

/// The output columns of the `RETURNING` of a statement on a view, or the message of the first
/// item that has none.
pub open spec fn view_outputs(cols: Seq<ViewCol>, list: Seq<ReturningColumn>) -> Result<
    Seq<(EvalExpr, String)>,
    Seq<char>,
>
    decreases list.len(),
{
    if list.len() == 0 {
        Ok(seq![])
    } else {
        match view_outputs(cols, list.drop_last()) {
            Err(text) => Err(text),
            Ok(before) => match view_item_outputs(cols, list.last()) {
                Err(text) => Err(text),
                Ok(more) => Ok(before + more),
            },
        }
    }
}

proof fn lemma_filled_outputs(
    cols: Seq<ViewCol>,
    list: Seq<ReturningColumn>,
    filled: Seq<ReturningColumn>,
)
    requires
        filled.len() == list.len(),
        forall|i: int|
            0 <= i < list.len() ==> item_outputs(#[trigger] filled[i]) == view_item_outputs(
                cols,
                list[i],
            ),
    ensures
        outputs(filled) == view_outputs(cols, list),
    decreases list.len(),
{
    if list.len() > 0 {
        let last = list.len() - 1;
        assert(item_outputs(filled[last]) == view_item_outputs(cols, list[last]));
        lemma_filled_outputs(cols, list.drop_last(), filled.drop_last());
    }
}

/// The expressions and the names of the output columns of the `RETURNING` of a statement on a
/// view.
pub fn compile_view_returning(list: Vec<ReturningColumn>, cols: &Vec<ViewCol>) -> (r: Result<
    (Vec<EvalExpr>, Vec<String>),
    Error,
>)
    ensures
        match (r, view_outputs(cols@, list@)) {
            (Ok((exprs, names)), Ok(outs)) => exprs@ == output_exprs(outs) && names@
                == output_names(outs),
            (Err(e), Err(text)) => e.text() == text,
            _ => false,
        },
{
    let ghost all = list@;
    let mut filled: Vec<ReturningColumn> = Vec::new();
    for c in it: list
        invariant
            it.seq() == all,
            filled@.len() == it.index(),
            forall|i: int|
                0 <= i < filled@.len() ==> item_outputs(#[trigger] filled@[i])
                    == view_item_outputs(cols@, all[i]),
    {
        match c {
            ReturningColumn::Star(_) => {
                filled.push(ReturningColumn::Star(Ok(view_star(cols))));
            },
            other => {
                filled.push(other);
            },
        }
    }
    proof {
        lemma_filled_outputs(cols@, all, filled@);
    }
    bind_returning(filled)
}

/// A `*` in the `RETURNING` of a statement on a view returns every column of the view, in order
/// and under its name.
pub proof fn a_star_returns_the_columns_of_the_view(
    cols: Seq<ViewCol>,
    bound: StarColumns,
    i: int,
)
    requires
        0 <= i < cols.len() <= usize::MAX,
    ensures
        view_outputs(cols, seq![ReturningColumn::Star(bound)]) matches Ok(outs) && outs.len()
            == cols.len() && outs[i] == (EvalExpr::Column(i as usize), cols[i].name),
{
    lemma_star_over_scan(cols);
    let star = star_over(scan_columns(cols), 0);
    let list = seq![ReturningColumn::Star(bound)];
    assert(list.drop_last() =~= seq![]);
    reveal_with_fuel(view_outputs, 2);
    assert(star[i] == (i as usize, cols[i].name));
    assert(Seq::<(EvalExpr, String)>::empty() + star_outputs(star) =~= star_outputs(star));
}

/// Whether `node` fires the view's triggers on the frames of `frame_source`.
pub open spec fn is_instead_of(
    catalog: Catalog,
    node: PlanNode,
    event: InsteadOfEvent,
    fired_by: DmlView,
    view: ViewTarget<'_>,
    cols: Seq<ViewCol>,
    triggers: Seq<TriggerDef<'_>>,
    returning: Seq<ReturningColumn>,
) -> bool {
    &&& node matches PlanNode::InsteadOf(n)
    &&& n.view == view.name
    &&& n.event == event
    &&& n.column_count == cols.len()
    &&& are_programs(
        catalog,
        n.programs@,
        triggers,
        TargetKind::View,
        view.db,
        view_shape(view, cols),
        fired_by,
    )
    &&& n.programs@.len() > 0
    &&& view_outputs(cols, returning) matches Ok(outs) && n.returning@ == output_exprs(outs)
}

/// Why an `INSERT` into a view cannot be compiled.
pub open spec fn view_insert_error(
    catalog: Catalog,
    triggers: Seq<TriggerDef<'_>>,
    view: ViewTarget<'_>,
    stmt: ViewInsert<'_>,
    nested: bool,
) -> Option<Seq<char>> {
    match columns_of(view) {
        Err(text) => Some(text),
        Ok(cols) => first_error(
            firing_error(catalog, triggers, view, cols, DmlView::Insert, nested),
            if stmt.upsert {
                Some(unsupported_message("ON CONFLICT (upsert)"@, view.name@))
            } else {
                first_error(
                    failure(stmt.with),
                    first_error(
                        insert_frame_error(cols, stmt.columns, stmt.source, view.name@),
                        error_of(view_outputs(cols, stmt.returning@)),
                    ),
                )
            },
        ),
    }
}

fn instead_of_node(
    view: String,
    event: InsteadOfEvent,
    column_count: usize,
    frame_source: PlanNode,
    programs: Vec<TriggerProgram>,
    returning: Vec<EvalExpr>,
) -> (r: PlanNode)
    ensures
        r == PlanNode::InsteadOf(
            InsteadOf {
                view,
                event,
                column_count,
                frame_source: Box::new(frame_source),
                programs,
                returning,
            },
        ),
{
    PlanNode::InsteadOf(
        InsteadOf {
            view,
            event,
            column_count,
            frame_source: Box::new(frame_source),
            programs,
            returning,
        },
    )
}

/// The triggers that a statement fires on a view, which has to fire some.
fn fired_programs(
    catalog: &Catalog,
    triggers: Vec<TriggerDef<'_>>,
    name: &String,
    db: DbIndex,
    cols: &Vec<ViewCol>,
    event: TriggerDmlEvent<'_>,
    nested: bool,
) -> (r: Result<Vec<TriggerProgram>, Error>)
    requires
        triggers_wf(triggers@),
        2 * (cols@.len() + 1) <= usize::MAX,
    ensures
        forall|text: ParsedText<'_>, select_columns: Result<Vec<ViewCol>, Error>|
            match (
                r,
                #[trigger] firing_error(
                    *catalog,
                    triggers@,
                    ViewTarget { name: *name, db, text, select_columns },
                    cols@,
                    event@,
                    nested,
                ),
            ) {
                (Ok(ps), None) => ps@.len() > 0 && are_programs(
                    *catalog,
                    ps@,
                    triggers@,
                    TargetKind::View,
                    db,
                    TableShape { name: name@, columns: synth_columns(cols@) },
                    event@,
                ),
                (Err(e), Some(t)) => e.text() == t,
                _ => false,
            },
{
    let ghost ts = triggers@;
    let synth: TableDef = synth_table(name, db, cols);
    let programs: Vec<TriggerProgram> = match select_programs(
        catalog,
        triggers,
        db,
        &synth,
        event,
        nested,
    ) {
        Ok(p) => p,
        Err(e) => {
            return Err(e);
        },
    };
    proof {
        if !nested {
            programs_iff_some_fires(*catalog, programs@, ts, db, synth.shape(), event@);
        }
    }
    if programs.len() == 0 {
        return Err(not_updatable(name.as_str()));
    }
    Ok(programs)
}

/// Whether `node` and `names` are the compiled `INSERT` into a view.
pub open spec fn is_view_insert(
    catalog: Catalog,
    node: PlanNode,
    names: Seq<String>,
    triggers: Seq<TriggerDef<'_>>,
    view: ViewTarget<'_>,
    stmt: ViewInsert<'_>,
) -> bool {
    &&& columns_of(view) matches Ok(cols)
    &&& is_instead_of(
        catalog,
        node,
        InsteadOfEvent::Insert,
        DmlView::Insert,
        view,
        cols,
        triggers,
        stmt.returning@,
    )
    &&& is_insert_frame(
        catalog,
        *node->InsteadOf_0.frame_source,
        cols,
        stmt.columns,
        stmt.source,
        view.name@,
    )
    &&& view_outputs(cols, stmt.returning@) matches Ok(outs) && names == output_names(outs)
}

/// Compile an `INSERT` into a view. `nested` says whether the statement is itself the action of
/// a trigger.
pub fn compile_view_insert(
    catalog: &Catalog,
    triggers: Vec<TriggerDef<'_>>,
    view: ViewTarget<'_>,
    stmt: ViewInsert<'_>,
    nested: bool,
) -> (r: Result<(PlanNode, Vec<String>), Error>)
    requires
        triggers_wf(triggers@),
        view_fits(view),
        stmt.source matches InsertSource::Select(sel) ==> select_wf(sel),
    ensures
        match (r, view_insert_error(*catalog, triggers@, view, stmt, nested)) {
            (Ok((node, names)), None) => is_view_insert(
                *catalog,
                node,
                names@,
                triggers@,
                view,
                stmt,
            ),
            (Err(e), Some(text)) => e.text() == text,
            _ => false,
        },
{
    let ViewTarget { name, db, text, select_columns } = view;
    let cols: Vec<ViewCol> = match view_columns(text, select_columns, &name) {
        Ok(c) => c,
        Err(e) => {
            return Err(e);
        },
    };
    assert(columns_of(view) matches Ok(s) && s == cols@);
    let programs: Vec<TriggerProgram> = match fired_programs(
        catalog,
        triggers,
        &name,
        db,
        &cols,
        TriggerDmlEvent::Insert,
        nested,
    ) {
        Ok(p) => p,
        Err(e) => {
            return Err(e);
        },
    };
    if stmt.upsert {
        return Err(unsupported("ON CONFLICT (upsert)", name.as_str()));
    }
    match stmt.with {
        Ok(_) => {},
        Err(e) => {
            return Err(e);
        },
    }
    let frame_source: PlanNode = match build_insert_frame(
        catalog,
        &cols,
        stmt.columns,
        stmt.source,
        name.as_str(),
    ) {
        Ok(f) => f,
        Err(e) => {
            return Err(e);
        },
    };
    match compile_view_returning(stmt.returning, &cols) {
        Ok((returning, names)) => Ok(
            (
                instead_of_node(
                    name,
                    InsteadOfEvent::Insert,
                    cols.len(),
                    frame_source,
                    programs,
                    returning,
                ),
                names,
            ),
        ),
        Err(e) => Err(e),
    }
}

/// What scanning a view needs: what entering it gave, what parsing its stored text gave, and
/// its select.
#[derive(Debug)]
pub struct ViewScan<'a> {
    pub entered: Result<(), Error>,
    pub text: ParsedText<'a>,
    pub body: Select<'a>,
}

/// Whether `out` scans the rows of the view that the predicate keeps.
pub open spec fn is_kept_scan(
    catalog: Catalog,
    before: CtxView,
    after: CtxView,
    out: PlanNode,
    scan: ViewScan<'_>,
    exposed_name: String,
    column_count: usize,
    predicate: Option<EvalExpr>,
) -> bool {
    let input = match predicate {
        Some(_) => *out->Filter_input,
        None => out,
    };
    &&& out == filtered(input, predicate)
    &&& is_view_scan(
        catalog,
        before,
        after,
        input,
        scan.body,
        exposed_name,
        column_count,
    )
}

fn compile_view_scan(
    ctx: &mut PlanCtx,
    catalog: &Catalog,
    scan: ViewScan<'_>,
    name: &str,
    exposed_name: String,
    column_count: usize,
    predicate: Option<EvalExpr>,
) -> (r: Result<PlanNode, Error>)
    requires
        select_wf(scan.body),
    ensures
        match (
            r,
            expansion_error(scan.entered, scan.text, scan.body, name@, column_count as nat),
        ) {
            (Ok(node), None) => is_kept_scan(
                *catalog,
                old(ctx)@,
                final(ctx)@,
                node,
                scan,
                exposed_name,
                column_count,
                predicate,
            ),
            (Err(e), Some(text)) => e.text() == text && *final(ctx) == *old(ctx),
            _ => false,
        },
        final(ctx).wf() == old(ctx).wf(),
{
    match compile_view(
        ctx,
        catalog,
        scan.entered,
        scan.text,
        scan.body,
        name,
        exposed_name,
        column_count,
    ) {
        Ok(node) => Ok(filter_by(node, predicate)),
        Err(e) => Err(e),
    }
}

/// A `DELETE` from a view, with its parts bound. `exposed_name` is its alias, or the name of
/// the view.
#[derive(Debug)]
pub struct ViewDelete<'a> {
    pub with: Result<(), Error>,
    pub exposed_name: String,
    pub where_clause: Option<Bound>,
    pub scan: ViewScan<'a>,
    pub returning: Vec<ReturningColumn>,
}

/// Why a view with `c` columns cannot be scanned for the rows that a clause keeps.
pub open spec fn scan_error(
    where_clause: Option<Bound>,
    scan: ViewScan<'_>,
    view: Seq<char>,
    c: nat,
) -> Option<Seq<char>> {
    first_error(
        predicate_error(where_clause),
        expansion_error(scan.entered, scan.text, scan.body, view, c),
    )
}

/// Whether the state after a statement on a view of `c` columns is what it should be: where the
/// statement got to its scan, that scan is the last of the materialized bodies, else nothing was
/// added.
pub open spec fn is_scanned(
    catalog: Catalog,
    before: CtxView,
    after: CtxView,
    scan: ViewScan<'_>,
    exposed_name: String,
    c: usize,
    reached: bool,
) -> bool {
    if reached {
        exists|node: PlanNode| #[trigger]
            is_view_scan(catalog, before, after, node, scan.body, exposed_name, c)
    } else {
        after == before
    }
}

/// Why a `DELETE` from a view does not get to its `RETURNING` list.
pub open spec fn view_delete_early(
    catalog: Catalog,
    triggers: Seq<TriggerDef<'_>>,
    view: ViewTarget<'_>,
    stmt: ViewDelete<'_>,
    nested: bool,
) -> Option<Seq<char>> {
    match columns_of(view) {
        Err(text) => Some(text),
        Ok(cols) => first_error(
            firing_error(catalog, triggers, view, cols, DmlView::Delete, nested),
            first_error(
                failure(stmt.with),
                scan_error(stmt.where_clause, stmt.scan, view.name@, cols.len()),
            ),
        ),
    }
}

/// Why a `DELETE` from a view cannot be compiled.
pub open spec fn view_delete_error(
    catalog: Catalog,
    triggers: Seq<TriggerDef<'_>>,
    view: ViewTarget<'_>,
    stmt: ViewDelete<'_>,
    nested: bool,
) -> Option<Seq<char>> {
    first_error(
        view_delete_early(catalog, triggers, view, stmt, nested),
        match columns_of(view) {
            Ok(cols) => error_of(view_outputs(cols, stmt.returning@)),
            Err(_) => None,
        },
    )
}

/// How many columns a view has, where they can be found.
pub open spec fn column_count(view: ViewTarget<'_>) -> usize {
    match columns_of(view) {
        Ok(cols) => cols.len() as usize,
        Err(_) => 0,
    }
}

/// Whether `node` and `names` are the compiled `DELETE` from a view.
pub open spec fn is_view_delete(
    catalog: Catalog,
    before: CtxView,
    after: CtxView,
    node: PlanNode,
    names: Seq<String>,
    triggers: Seq<TriggerDef<'_>>,
    view: ViewTarget<'_>,
    stmt: ViewDelete<'_>,
) -> bool {
    &&& columns_of(view) matches Ok(cols)
    &&& is_instead_of(
        catalog,
        node,
        InsteadOfEvent::Delete,
        DmlView::Delete,
        view,
        cols,
        triggers,
        stmt.returning@,
    )
    &&& exists|scan: PlanNode|
        #![trigger is_frame(*node->InsteadOf_0.frame_source, scan, cols.len(), Some(own_columns(cols.len())), None)]
        is_frame(
            *node->InsteadOf_0.frame_source,
            scan,
            cols.len(),
            Some(own_columns(cols.len())),
            None,
        ) && is_kept_scan(
            catalog,
            before,
            after,
            scan,
            stmt.scan,
            stmt.exposed_name,
            cols.len() as usize,
            predicate_of(stmt.where_clause),
        )
    &&& view_outputs(cols, stmt.returning@) matches Ok(outs) && names == output_names(outs)
}

/// Compile a `DELETE` from a view: the old row of a frame is a row of the view that the `WHERE`
/// keeps, and there is no new row.
pub fn compile_view_delete(
    ctx: &mut PlanCtx,
    catalog: &Catalog,
    triggers: Vec<TriggerDef<'_>>,
    view: ViewTarget<'_>,
    stmt: ViewDelete<'_>,
    nested: bool,
) -> (r: Result<(PlanNode, Vec<String>), Error>)
    requires
        triggers_wf(triggers@),
        view_fits(view),
        select_wf(stmt.scan.body),
    ensures
        final(ctx)@.extends(old(ctx)@),
        final(ctx).wf() == old(ctx).wf(),
        is_scanned(
            *catalog,
            old(ctx)@,
            final(ctx)@,
            stmt.scan,
            stmt.exposed_name,
            column_count(view),
            view_delete_early(*catalog, triggers@, view, stmt, nested) is None,
        ),
        match (r, view_delete_error(*catalog, triggers@, view, stmt, nested)) {
            (Ok((node, names)), None) => is_view_delete(
                *catalog,
                old(ctx)@,
                final(ctx)@,
                node,
                names@,
                triggers@,
                view,
                stmt,
            ),
            (Err(e), Some(text)) => e.text() == text,
            _ => false,
        },
{
    proof {
        lemma_extends_itself(ctx@);
    }
    let ViewTarget { name, db, text, select_columns } = view;
    let cols: Vec<ViewCol> = match view_columns(text, select_columns, &name) {
        Ok(c) => c,
        Err(e) => {
            return Err(e);
        },
    };
    assert(columns_of(view) matches Ok(s) && s == cols@);
    let programs: Vec<TriggerProgram> = match fired_programs(
        catalog,
        triggers,
        &name,
        db,
        &cols,
        TriggerDmlEvent::Delete,
        nested,
    ) {
        Ok(p) => p,
        Err(e) => {
            return Err(e);
        },
    };
    match stmt.with {
        Ok(_) => {},
        Err(e) => {
            return Err(e);
        },
    }
    let (scan, c): (PlanNode, usize) = match view_scan(
        ctx,
        catalog,
        stmt.where_clause,
        stmt.scan,
        name.as_str(),
        stmt.exposed_name,
        cols.len(),
    ) {
        Ok(s) => s,
        Err(e) => {
            return Err(e);
        },
    };
    let old_values: Vec<EvalExpr> = row_columns(c);
    proof {
        assert(old_values@ =~= own_columns(c as nat));
    }
    let frame_source: PlanNode = frame_project(scan, c, Some(old_values), None);
    match compile_view_returning(stmt.returning, &cols) {
        Ok((returning, names)) => Ok(
            (
                instead_of_node(
                    name,
                    InsteadOfEvent::Delete,
                    c,
                    frame_source,
                    programs,
                    returning,
                ),
                names,
            ),
        ),
        Err(e) => Err(e),
    }
}

/// The rows of the view that a `WHERE` keeps, and how many columns they have.
fn view_scan(
    ctx: &mut PlanCtx,
    catalog: &Catalog,
    where_clause: Option<Bound>,
    scan: ViewScan<'_>,
    name: &str,
    exposed_name: String,
    c: usize,
) -> (r: Result<(PlanNode, usize), Error>)
    requires
        select_wf(scan.body),
    ensures
        match (r, scan_error(where_clause, scan, name@, c as nat)) {
            (Ok((node, width)), None) => width == c && is_kept_scan(
                *catalog,
                old(ctx)@,
                final(ctx)@,
                node,
                scan,
                exposed_name,
                c,
                predicate_of(where_clause),
            ),
            (Err(e), Some(text)) => e.text() == text && *final(ctx) == *old(ctx),
            _ => false,
        },
        final(ctx)@.extends(old(ctx)@),
        final(ctx).wf() == old(ctx).wf(),
{
    proof {
        lemma_extends_itself(ctx@);
    }
    let predicate: Option<EvalExpr> = match take_predicate(where_clause) {
        Ok(p) => p,
        Err(e) => {
            return Err(e);
        },
    };
    match compile_view_scan(ctx, catalog, scan, name, exposed_name, c, predicate) {
        Ok(node) => {
            proof {
                let before = old(ctx)@;
                assert(ctx@.ctes.subrange(0, before.ctes.len() as int) =~= before.ctes);
            }
            Ok((node, c))
        },
        Err(e) => Err(e),
    }
}

/// The names that one assignment assigns.
pub open spec fn assigned_names(c: SetClause) -> Seq<String> {
    match c {
        SetClause::Column { name, .. } => seq![name],
        SetClause::Columns { names, .. } => names@,
    }
}

/// The view columns of a list of names; a name that is none is passed over.
pub open spec fn known_columns(cols: Seq<ViewCol>, names: Seq<String>) -> Seq<usize>
    decreases names.len(),
{
    if names.len() == 0 {
        seq![]
    } else {
        let before = known_columns(cols, names.drop_last());
        match view_column(cols, names.last()@) {
            Some(k) => before.push(k as usize),
            None => before,
        }
    }
}

/// The view columns that a `SET` list assigns.
pub open spec fn set_columns(cols: Seq<ViewCol>, set: Seq<SetClause>) -> Seq<usize>
    decreases set.len(),
{
    if set.len() == 0 {
        seq![]
    } else {
        set_columns(cols, set.drop_last()) + known_columns(cols, assigned_names(set.last()))
    }
}

/// The view columns that a `SET` list assigns. A name that is no column is passed over here: it
/// is an error only where the view can be modified.
pub fn assigned_columns(cols: &Vec<ViewCol>, set: &Vec<SetClause>) -> (r: Vec<usize>)
    ensures
        r@ == set_columns(cols@, set@),
{
    let mut out: Vec<usize> = Vec::new();
    let mut i: usize = 0;
    proof {
        assert(set@.subrange(0, 0) =~= seq![]);
    }
    while i < set.len()
        invariant
            i <= set.len(),
            out@ == set_columns(cols@, set@.subrange(0, i as int)),
        decreases set.len() - i,
    {
        proof {
            assert(set@.subrange(0, i + 1).drop_last() =~= set@.subrange(0, i as int));
            assert(set@.subrange(0, i + 1).last() == set@[i as int]);
        }
        match &set[i] {
            SetClause::Column { name, .. } => {
                proof {
                    let names = assigned_names(set@[i as int]);
                    assert(names.drop_last() =~= seq![]);
                    assert(known_columns(cols@, names.drop_last()) =~= seq![]);
                }
                match view_position(cols, name.as_str()) {
                    Some(k) => {
                        out.push(k);
                    },
                    None => {},
                }
                assert(out@ =~= set_columns(cols@, set@.subrange(0, i + 1)));
            },
            SetClause::Columns { names, .. } => {
                let ghost start = out@;
                let mut j: usize = 0;
                proof {
                    assert(names@.subrange(0, 0) =~= seq![]);
                    assert(start + known_columns(cols@, names@.subrange(0, 0)) =~= start);
                }
                while j < names.len()
                    invariant
                        j <= names.len(),
                        out@ == start + known_columns(cols@, names@.subrange(0, j as int)),
                    decreases names.len() - j,
                {
                    proof {
                        assert(names@.subrange(0, j + 1).drop_last() =~= names@.subrange(
                            0,
                            j as int,
                        ));
                        assert(names@.subrange(0, j + 1).last() == names@[j as int]);
                    }
                    match view_position(cols, names[j].as_str()) {
                        Some(k) => {
                            out.push(k);
                        },
                        None => {},
                    }
                    assert(out@ =~= start + known_columns(cols@, names@.subrange(0, j + 1)));
                    j = j + 1;
                }
                proof {
                    assert(names@.subrange(0, names@.len() as int) =~= names@);
                }
            },
        }
        i = i + 1;
    }
    proof {
        assert(set@.subrange(0, set@.len() as int) =~= set@);
    }
    out
}

pub open spec fn column_list_message(view: Seq<char>) -> Seq<char> {
    "column-list SET on view "@ + view + " is not yet supported"@
}

/// The new row of an update: the old one with the assigned values over it, in order.
pub open spec fn updated_values(
    cols: Seq<ViewCol>,
    set: Seq<SetClause>,
    view: Seq<char>,
) -> Result<Seq<EvalExpr>, Seq<char>>
    decreases set.len(),
{
    if set.len() == 0 {
        Ok(own_columns(cols.len()))
    } else {
        match updated_values(cols, set.drop_last(), view) {
            Err(text) => Err(text),
            Ok(before) => match set.last() {
                SetClause::Columns { .. } => Err(column_list_message(view)),
                SetClause::Column { name, value } => match view_column(cols, name@) {
                    None => Err(no_view_column_message(view, name@)),
                    Some(k) => match value {
                        Err(e) => Err(e.text()),
                        Ok(e) => Ok(before.update(k, e)),
                    },
                },
            },
        }
    }
}

proof fn lemma_updated_prefix(cols: Seq<ViewCol>, set: Seq<SetClause>, view: Seq<char>, k: int)
    requires
        0 <= k <= set.len(),
        updated_values(cols, set.subrange(0, k), view) is Err,
    ensures
        updated_values(cols, set, view) == updated_values(cols, set.subrange(0, k), view),
    decreases set.len() - k,
{
    if k == set.len() {
        assert(set.subrange(0, k) =~= set);
    } else {
        assert(set.subrange(0, k + 1).drop_last() =~= set.subrange(0, k));
        lemma_updated_prefix(cols, set, view, k + 1);
    }
}

fn updated_row(cols: &Vec<ViewCol>, set: Vec<SetClause>, view: &str) -> (r: Result<
    Vec<EvalExpr>,
    Error,
>)
    ensures
        crate::error::agrees(r, updated_values(cols@, set@, view@)),
{
    let ghost all = set@;
    let mut out: Vec<EvalExpr> = row_columns(cols.len());
    proof {
        assert(all.subrange(0, 0) =~= seq![]);
        assert(out@ =~= own_columns(cols@.len()));
    }
    for clause in it: set
        invariant
            it.seq() == all,
            out@.len() == cols@.len(),
            updated_values(cols@, all.subrange(0, it.index() as int), view@) == Ok::<
                Seq<EvalExpr>,
                Seq<char>,
            >(out@),
    {
        proof {
            let next = all.subrange(0, it.index() + 1);
            assert(next.drop_last() =~= all.subrange(0, it.index() as int));
            assert(next.last() == clause);
        }
        match overlay(cols, clause, view) {
            Ok((k, e)) => {
                out.set(k, e);
            },
            Err(e) => {
                proof {
                    lemma_updated_prefix(cols@, all, view@, it.index() + 1);
                }
                return Err(e);
            },
        }
    }
    proof {
        assert(all.subrange(0, all.len() as int) =~= all);
    }
    Ok(out)
}

/// The view column that an assignment assigns, and the value.
fn overlay(cols: &Vec<ViewCol>, clause: SetClause, view: &str) -> (r: Result<
    (usize, EvalExpr),
    Error,
>)
    ensures
        match clause {
            SetClause::Columns { .. } => r matches Err(e) && e.text() == column_list_message(view@),
            SetClause::Column { name, value } => match (view_column(cols@, name@), value) {
                (None, _) => r matches Err(e) && e.text() == no_view_column_message(view@, name@),
                (Some(_), Err(f)) => r == Err::<(usize, EvalExpr), Error>(f),
                (Some(k), Ok(e)) => r matches Ok(p) && p.0 == k && p.1 == e && k < cols@.len(),
            },
        },
{
    match clause {
        SetClause::Columns { .. } => {
            let mut s: String = String::from_str("column-list SET on view ");
            s.append(view);
            s.append(" is not yet supported");
            Err(Error::Sql(s))
        },
        SetClause::Column { name, value } => match view_col_index(cols, name.as_str(), view) {
            Ok(k) => match value {
                Ok(e) => Ok((k, e)),
                Err(e) => Err(e),
            },
            Err(e) => Err(e),
        },
    }
}

/// An `UPDATE` of a view, with its parts bound. `from` says whether it has a `FROM` clause.
#[derive(Debug)]
pub struct ViewUpdate<'a> {
    pub from: bool,
    pub with: Result<(), Error>,
    pub exposed_name: String,
    pub set: Vec<SetClause>,
    pub where_clause: Option<Bound>,
    pub scan: ViewScan<'a>,
    pub returning: Vec<ReturningColumn>,
}

/// Why an `UPDATE` of a view does not get to its `RETURNING` list.
pub open spec fn view_update_early(
    catalog: Catalog,
    triggers: Seq<TriggerDef<'_>>,
    view: ViewTarget<'_>,
    stmt: ViewUpdate<'_>,
    nested: bool,
) -> Option<Seq<char>> {
    match columns_of(view) {
        Err(text) => Some(text),
        Ok(cols) => first_error(
            firing_error(
                catalog,
                triggers,
                view,
                cols,
                DmlView::Update(set_columns(cols, stmt.set@)),
                nested,
            ),
            if stmt.from {
                Some(unsupported_message("FROM"@, view.name@))
            } else {
                first_error(
                    failure(stmt.with),
                    first_error(
                        error_of(updated_values(cols, stmt.set@, view.name@)),
                        scan_error(stmt.where_clause, stmt.scan, view.name@, cols.len()),
                    ),
                )
            },
        ),
    }
}

/// Why an `UPDATE` of a view cannot be compiled.
pub open spec fn view_update_error(
    catalog: Catalog,
    triggers: Seq<TriggerDef<'_>>,
    view: ViewTarget<'_>,
    stmt: ViewUpdate<'_>,
    nested: bool,
) -> Option<Seq<char>> {
    first_error(
        view_update_early(catalog, triggers, view, stmt, nested),
        match columns_of(view) {
            Ok(cols) => error_of(view_outputs(cols, stmt.returning@)),
            Err(_) => None,
        },
    )
}

/// Whether `node` and `names` are the compiled `UPDATE` of a view.
pub open spec fn is_view_update(
    catalog: Catalog,
    before: CtxView,
    after: CtxView,
    node: PlanNode,
    names: Seq<String>,
    triggers: Seq<TriggerDef<'_>>,
    view: ViewTarget<'_>,
    stmt: ViewUpdate<'_>,
) -> bool {
    &&& columns_of(view) matches Ok(cols)
    &&& is_instead_of(
        catalog,
        node,
        InsteadOfEvent::Update,
        DmlView::Update(set_columns(cols, stmt.set@)),
        view,
        cols,
        triggers,
        stmt.returning@,
    )
    &&& updated_values(cols, stmt.set@, view.name@) matches Ok(new_values)
    &&& exists|scan: PlanNode|
        #![trigger is_frame(*node->InsteadOf_0.frame_source, scan, cols.len(), Some(own_columns(cols.len())), Some(new_values))]
        is_frame(
            *node->InsteadOf_0.frame_source,
            scan,
            cols.len(),
            Some(own_columns(cols.len())),
            Some(new_values),
        ) && is_kept_scan(
            catalog,
            before,
            after,
            scan,
            stmt.scan,
            stmt.exposed_name,
            cols.len() as usize,
            predicate_of(stmt.where_clause),
        )
    &&& view_outputs(cols, stmt.returning@) matches Ok(outs) && names == output_names(outs)
}

/// Compile an `UPDATE` of a view: the old row of a frame is a row of the view that the `WHERE`
/// keeps, and the new row is that row with the assigned values over it.
pub fn compile_view_update(
    ctx: &mut PlanCtx,
    catalog: &Catalog,
    triggers: Vec<TriggerDef<'_>>,
    view: ViewTarget<'_>,
    stmt: ViewUpdate<'_>,
    nested: bool,
) -> (r: Result<(PlanNode, Vec<String>), Error>)
    requires
        triggers_wf(triggers@),
        view_fits(view),
        select_wf(stmt.scan.body),
    ensures
        final(ctx)@.extends(old(ctx)@),
        final(ctx).wf() == old(ctx).wf(),
        is_scanned(
            *catalog,
            old(ctx)@,
            final(ctx)@,
            stmt.scan,
            stmt.exposed_name,
            column_count(view),
            view_update_early(*catalog, triggers@, view, stmt, nested) is None,
        ),
        match (r, view_update_error(*catalog, triggers@, view, stmt, nested)) {
            (Ok((node, names)), None) => is_view_update(
                *catalog,
                old(ctx)@,
                final(ctx)@,
                node,
                names@,
                triggers@,
                view,
                stmt,
            ),
            (Err(e), Some(text)) => e.text() == text,
            _ => false,
        },
{
    proof {
        lemma_extends_itself(ctx@);
    }
    let ViewTarget { name, db, text, select_columns } = view;
    let cols: Vec<ViewCol> = match view_columns(text, select_columns, &name) {
        Ok(c) => c,
        Err(e) => {
            return Err(e);
        },
    };
    assert(columns_of(view) matches Ok(s) && s == cols@);
    let changed: Vec<usize> = assigned_columns(&cols, &stmt.set);
    let programs: Vec<TriggerProgram> = match fired_programs(
        catalog,
        triggers,
        &name,
        db,
        &cols,
        TriggerDmlEvent::Update { changed_cols: changed.as_slice() },
        nested,
    ) {
        Ok(p) => p,
        Err(e) => {
            return Err(e);
        },
    };
    if stmt.from {
        return Err(unsupported("FROM", name.as_str()));
    }
    match stmt.with {
        Ok(_) => {},
        Err(e) => {
            return Err(e);
        },
    }
    let new_values: Vec<EvalExpr> = match updated_row(&cols, stmt.set, name.as_str()) {
        Ok(v) => v,
        Err(e) => {
            return Err(e);
        },
    };
    let (scan, c): (PlanNode, usize) = match view_scan(
        ctx,
        catalog,
        stmt.where_clause,
        stmt.scan,
        name.as_str(),
        stmt.exposed_name,
        cols.len(),
    ) {
        Ok(s) => s,
        Err(e) => {
            return Err(e);
        },
    };
    let old_values: Vec<EvalExpr> = row_columns(c);
    proof {
        assert(old_values@ =~= own_columns(c as nat));
    }
    let ghost g = scan;
    let frame_source: PlanNode = frame_project(scan, c, Some(old_values), Some(new_values));
    assert(is_frame(
        frame_source,
        g,
        cols@.len(),
        Some(own_columns(cols@.len())),
        Some(new_values@),
    ));
    match compile_view_returning(stmt.returning, &cols) {
        Ok((returning, names)) => Ok(
            (
                instead_of_node(
                    name,
                    InsteadOfEvent::Update,
                    c,
                    frame_source,
                    programs,
                    returning,
                ),
                names,
            ),
        ),
        Err(e) => Err(e),
    }
}

/// Why an update of a view that is the action of a trigger is refused: such an update fires no
/// triggers.
pub open spec fn nested_view_error(view: ViewTarget<'_>) -> Seq<char> {
    match columns_of(view) {
        Err(text) => text,
        Ok(_) => not_updatable_message(view.name@),
    }
}

/// The refusal of an update of a view that is the action of a trigger.
pub fn refuse_nested_update(view: ViewTarget<'_>) -> (r: Error)
    ensures
        r.text() == nested_view_error(view),
{
    let ViewTarget { name, db, text, select_columns } = view;
    match view_columns(text, select_columns, &name) {
        Ok(cols) => {
            assert(columns_of(view) is Ok);
            not_updatable(name.as_str())
        },
        Err(e) => {
            assert(columns_of(view) is Err);
            e
        },
    }
}

/// A frame has two halves of one more value than the view has columns: the old value of column
/// `k` in register `k`, the new value in register `W + k`, and a NULL in the place of each
/// rowid.
pub proof fn frames_have_two_halves(
    node: PlanNode,
    input: PlanNode,
    c: nat,
    old_values: Option<Seq<EvalExpr>>,
    new_values: Option<Seq<EvalExpr>>,
)
    requires
        is_frame(node, input, c, old_values, new_values),
        old_values matches Some(v) ==> v.len() == c,
        new_values matches Some(v) ==> v.len() == c,
    ensures
        ({
            let exprs = node->Project_exprs@;
            let w = c as int + 1;
            &&& exprs.len() == 2 * w
            &&& exprs[c as int] == null()
            &&& exprs[w + c] == null()
            &&& forall|k: int|
                0 <= k < c ==> #[trigger] exprs[k] == match old_values {
                    Some(v) => v[k],
                    None => null(),
                }
            &&& forall|k: int|
                #![trigger exprs[w + k]]
                0 <= k < c ==> exprs[w + k] == match new_values {
                    Some(v) => v[k],
                    None => null(),
                }
        }),
{
}

/// An update of a view that assigns nothing to a column keeps its value in the new row.
pub proof fn unassigned_columns_keep_their_value(
    cols: Seq<ViewCol>,
    set: Seq<SetClause>,
    view: Seq<char>,
    k: int,
)
    requires
        0 <= k < cols.len() <= usize::MAX,
        updated_values(cols, set, view) is Ok,
        !set_columns(cols, set).contains(k as usize),
    ensures
        updated_values(cols, set, view)->Ok_0.len() == cols.len(),
        updated_values(cols, set, view)->Ok_0[k] == EvalExpr::Column(k as usize),
    decreases set.len(),
{
    if set.len() > 0 {
        let before = set_columns(cols, set.drop_last());
        let added = known_columns(cols, assigned_names(set.last()));
        let whole = set_columns(cols, set);
        assert(!before.contains(k as usize)) by {
            if before.contains(k as usize) {
                let i = choose|i: int| 0 <= i < before.len() && before[i] == k as usize;
                assert(whole[i] == k as usize);
            }
        }
        unassigned_columns_keep_their_value(cols, set.drop_last(), view, k);
        if let SetClause::Column { name, value } = set.last() {
            let j = view_column(cols, name@)->Some_0;
            lemma_least_from(
                |i: int| same_name(cols[i].name@, name@),
                0,
                cols.len() as int,
            );
            let names = assigned_names(set.last());
            assert(names.drop_last() =~= seq![]);
            reveal_with_fuel(known_columns, 2);
            assert(added =~= seq![j as usize]);
            assert(whole[before.len() as int] == j as usize);
            assert(j != k);
        }
    }
}

} // verus!
