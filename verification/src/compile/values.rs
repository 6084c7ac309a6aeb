//! `VALUES` lists.

#[allow(unused_imports)]
use vstd::prelude::*;
use vstd::string::StringExecFns;
use crate::error::Error;
use crate::expr::{bound_exprs, take_exprs, Bound, EvalExpr};
use crate::plan::PlanNode;
use crate::text::{decimal, push_decimal};

verus! {

/// The name of output column `i` of a `VALUES` list.
pub open spec fn column_name(i: nat) -> Seq<char> {
    "column"@ + decimal(i + 1)
}

pub open spec fn row_arity_message(width: nat) -> Seq<char> {
    "all VALUES rows must have the same number of terms ("@ + decimal(width) + ")"@
}

/// The expressions of one row, which must have `width` terms.
pub open spec fn row_exprs(row: Seq<Bound>, width: nat) -> Result<Seq<EvalExpr>, Seq<char>> {
    if row.len() != width {
        Err(row_arity_message(width))
    } else {
        bound_exprs(row)
    }
}

/// The message of the first row that cannot be compiled.
pub open spec fn rows_error(rows: Seq<Vec<Bound>>, width: nat) -> Option<Seq<char>>
    decreases rows.len(),
{
    if rows.len() == 0 {
        None
    } else {
        match rows_error(rows.drop_last(), width) {
            Some(text) => Some(text),
            None => match row_exprs(rows.last()@, width) {
                Err(text) => Some(text),
                Ok(_) => None,
            },
        }
    }
}

/// Why a `VALUES` list cannot be compiled.
pub open spec fn values_error(rows: Seq<Vec<Bound>>) -> Option<Seq<char>> {
    if rows.len() == 0 {
        Some("VALUES must have at least one row"@)
    } else {
        rows_error(rows, rows[0]@.len())
    }
}

/// Whether `node` holds exactly the given rows.
pub open spec fn holds_rows(node: PlanNode, rows: Seq<Vec<Bound>>) -> bool {
    &&& node matches PlanNode::Values { rows: out }
    &&& out@.len() == rows.len()
    &&& forall|i: int|
        0 <= i < rows.len() ==> Ok::<Seq<EvalExpr>, Seq<char>>((#[trigger] out@[i])@) == bound_exprs(
            rows[i]@,
        )
}

/// The texts of a list of names.
pub open spec fn texts(names: Seq<String>) -> Seq<Seq<char>> {
    names.map_values(|s: String| s@)
}

/// The names `column1`, `column2`, and so on.
pub open spec fn column_name_list(width: nat) -> Seq<Seq<char>> {
    Seq::new(width, |i: int| column_name(i as nat))
}

proof fn lemma_rows_error_prefix(rows: Seq<Vec<Bound>>, width: nat, k: int)
    requires
        0 <= k <= rows.len(),
        rows_error(rows.subrange(0, k), width) is Some,
    ensures
        rows_error(rows, width) == rows_error(rows.subrange(0, k), width),
    decreases rows.len() - k,
{
    if k == rows.len() {
        assert(rows.subrange(0, k) =~= rows);
    } else {
        assert(rows.subrange(0, k + 1).drop_last() =~= rows.subrange(0, k));
        lemma_rows_error_prefix(rows, width, k + 1);
    }
}

/// Compile a `VALUES` list. All rows have as many terms as the first, and the columns are
/// named `column1`, `column2`, and so on.
pub fn compile_values(rows: Vec<Vec<Bound>>) -> (r: Result<(PlanNode, Vec<String>), Error>)
    ensures
        match (r, values_error(rows@)) {
            (Ok((node, names)), None) => holds_rows(node, rows@) && texts(names@)
                == column_name_list(rows@[0]@.len()),
            (Err(e), Some(text)) => e.text() == text,
            _ => false,
        },
{
    if rows.len() == 0 {
        return Err(Error::sql("VALUES must have at least one row"));
    }
    let width: usize = rows[0].len();
    let mut out: Vec<Vec<EvalExpr>> = Vec::new();
    proof {
        assert(rows@.subrange(0, 0) =~= seq![]);
    }
    let ghost all = rows@;
    for row in it: rows
        invariant
            it.seq() == all,
            width == all[0]@.len(),
            all.len() > 0,
            out@.len() == it.index(),
            rows_error(all.subrange(0, it.index() as int), width as nat) is None,
            forall|i: int|
                0 <= i < out@.len() ==> Ok::<Seq<EvalExpr>, Seq<char>>((#[trigger] out@[i])@)
                    == bound_exprs(all[i]@),
    {
        proof {
            assert(all.subrange(0, it.index() + 1).drop_last() =~= all.subrange(
                0,
                it.index() as int,
            ));
            assert(all.subrange(0, it.index() + 1).last() == row);
        }
        if row.len() != width {
            proof {
                lemma_rows_error_prefix(all, width as nat, it.index() + 1);
            }
            return Err(row_arity(width));
        }
        match take_exprs(row) {
            Ok(exprs) => {
                out.push(exprs);
            },
            Err(e) => {
                proof {
                    lemma_rows_error_prefix(all, width as nat, it.index() + 1);
                }
                return Err(e);
            },
        }
    }
    proof {
        assert(all.subrange(0, all.len() as int) =~= all);
    }
    Ok((PlanNode::Values { rows: out }, column_names(width)))
}

fn row_arity(width: usize) -> (r: Error)
    ensures
        r.text() == row_arity_message(width as nat),
{
    let mut s: String = String::from_str("all VALUES rows must have the same number of terms (");
    push_decimal(&mut s, width);
    s.append(")");
    Error::Sql(s)
}

fn column_names(width: usize) -> (r: Vec<String>)
    ensures
        texts(r@) == column_name_list(width as nat),
{
    let mut names: Vec<String> = Vec::new();
    let mut i: usize = 0;
    while i < width
        invariant
            i <= width,
            names@.len() == i,
            forall|k: int| 0 <= k < i ==> (#[trigger] names@[k])@ == column_name(k as nat),
        decreases width - i,
    {
        let mut name: String = String::from_str("column");
        push_decimal(&mut name, i + 1);
        names.push(name);
        i = i + 1;
    }
    assert(texts(names@) =~= column_name_list(width as nat));
    names
}

} // verus!
