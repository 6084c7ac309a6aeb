//! `RETURNING`: the output columns of a statement that changes data.

#[allow(unused_imports)]
use vstd::prelude::*;
use crate::error::Error;
use crate::expr::{Bound, EvalExpr};
use crate::scope::SynthCol;

verus! {

/// The columns that a `*` stands for: the register and the name of each.
pub type StarColumns = Result<Vec<(usize, String)>, Error>;

/// One column of a `RETURNING` list. `source_text` is the name of the expression where it has
/// no alias. A star holds what it was found to stand for where the statement is on a table; in
/// one on a view a plain `*` stands for the columns of the view.
#[derive(Debug)]
pub enum ReturningColumn {
    Expr { expr: Bound, alias: Option<String>, source_text: String },
    Star(StarColumns),
    TableStar(StarColumns),
}

/// The columns that a `*` over a derived source stands for, where its first column is in register
/// `base`: each that is not hidden, with its register and its name.
pub open spec fn star_over(columns: Seq<SynthCol>, base: nat) -> Seq<(usize, String)>
    decreases columns.len(),
{
    if columns.len() == 0 {
        seq![]
    } else {
        let before = star_over(columns.drop_last(), base);
        if columns.last().hidden {
            before
        } else {
            before.push(((base + columns.len() - 1) as usize, columns.last().name))
        }
    }
}

/// The name of an output column: its alias, else the text of its expression.
pub open spec fn output_name(alias: Option<String>, source_text: String) -> String {
    match alias {
        Some(a) => a,
        None => source_text,
    }
}

/// The output columns of a `*`: one per column, in order.
pub open spec fn star_outputs(cols: Seq<(usize, String)>) -> Seq<(EvalExpr, String)> {
    cols.map_values(|c: (usize, String)| (EvalExpr::Column(c.0), c.1))
}

/// The output columns of one item of the list, or why it has none.
pub open spec fn item_outputs(c: ReturningColumn) -> Result<Seq<(EvalExpr, String)>, Seq<char>> {
    match c {
        ReturningColumn::Expr { expr, alias, source_text } => match expr {
            Ok(e) => Ok(seq![(e, output_name(alias, source_text))]),
            Err(e) => Err(e.text()),
        },
        ReturningColumn::Star(cols) => match cols {
            Ok(v) => Ok(star_outputs(v@)),
            Err(e) => Err(e.text()),
        },
        ReturningColumn::TableStar(cols) => match cols {
            Ok(v) => Ok(star_outputs(v@)),
            Err(e) => Err(e.text()),
        },
    }
}

/// The output columns of a list, or the message of the first item that has none.
pub open spec fn outputs(list: Seq<ReturningColumn>) -> Result<Seq<(EvalExpr, String)>, Seq<char>>
    decreases list.len(),
{
    if list.len() == 0 {
        Ok(seq![])
    } else {
        match outputs(list.drop_last()) {
            Err(text) => Err(text),
            Ok(before) => match item_outputs(list.last()) {
                Err(text) => Err(text),
                Ok(more) => Ok(before + more),
            },
        }
    }
}

pub open spec fn output_exprs(outs: Seq<(EvalExpr, String)>) -> Seq<EvalExpr> {
    outs.map_values(|o: (EvalExpr, String)| o.0)
}

pub open spec fn output_names(outs: Seq<(EvalExpr, String)>) -> Seq<String> {
    outs.map_values(|o: (EvalExpr, String)| o.1)
}

/// Whether `names` are the output names of a `RETURNING` list.
pub open spec fn are_returned(names: Seq<String>, returning: Seq<ReturningColumn>) -> bool {
    outputs(returning) matches Ok(outs) && names == output_names(outs)
}

proof fn lemma_outputs_prefix(list: Seq<ReturningColumn>, k: int)
    requires
        0 <= k <= list.len(),
        outputs(list.subrange(0, k)) is Err,
    ensures
        outputs(list) == outputs(list.subrange(0, k)),
    decreases list.len() - k,
{
    if k == list.len() {
        assert(list.subrange(0, k) =~= list);
    } else {
        assert(list.subrange(0, k + 1).drop_last() =~= list.subrange(0, k));
        lemma_outputs_prefix(list, k + 1);
    }
}

/// The expressions and the names of the output columns of a `RETURNING` list.
pub fn bind_returning(list: Vec<ReturningColumn>) -> (r: Result<(Vec<EvalExpr>, Vec<String>), Error>)
    ensures
        match (r, outputs(list@)) {
            (Ok((exprs, names)), Ok(outs)) => exprs@ == output_exprs(outs) && names@
                == output_names(outs),
            (Err(e), Err(text)) => e.text() == text,
            _ => false,
        },
{
    let ghost all = list@;
    let mut exprs: Vec<EvalExpr> = Vec::new();
    let mut names: Vec<String> = Vec::new();
    let ghost mut outs: Seq<(EvalExpr, String)> = seq![];
    proof {
        assert(all.subrange(0, 0) =~= seq![]);
        assert(output_exprs(outs) =~= seq![]);
        assert(output_names(outs) =~= seq![]);
    }
    for c in it: list
        invariant
            it.seq() == all,
            outputs(all.subrange(0, it.index() as int)) == Ok::<
                Seq<(EvalExpr, String)>,
                Seq<char>,
            >(outs),
            exprs@ == output_exprs(outs),
            names@ == output_names(outs),
    {
        proof {
            let next = all.subrange(0, it.index() + 1);
            assert(next.drop_last() =~= all.subrange(0, it.index() as int));
            assert(next.last() == c);
        }
        match push_item(c, &mut exprs, &mut names) {
            Ok(_) => {
                proof {
                    let more = item_outputs(c)->Ok_0;
                    outs = outs + more;
                    assert(exprs@ =~= output_exprs(outs));
                    assert(names@ =~= output_names(outs));
                }
            },
            Err(e) => {
                proof {
                    lemma_outputs_prefix(all, it.index() + 1);
                }
                return Err(e);
            },
        }
    }
    proof {
        assert(all.subrange(0, all.len() as int) =~= all);
    }
    Ok((exprs, names))
}

/// Add the output columns of one item.
fn push_item(c: ReturningColumn, exprs: &mut Vec<EvalExpr>, names: &mut Vec<String>) -> (r: Result<
    (),
    Error,
>)
    ensures
        match (r, item_outputs(c)) {
            (Ok(_), Ok(outs)) => {
                &&& final(exprs)@ == old(exprs)@ + output_exprs(outs)
                &&& final(names)@ == old(names)@ + output_names(outs)
            },
            (Err(e), Err(text)) => e.text() == text,
            _ => false,
        },
{
    match c {
        ReturningColumn::Expr { expr, alias, source_text } => match expr {
            Ok(e) => {
                let name: String = match alias {
                    Some(a) => a,
                    None => source_text,
                };
                exprs.push(e);
                names.push(name);
                proof {
                    let outs = item_outputs(c)->Ok_0;
                    assert(exprs@ =~= old(exprs)@ + output_exprs(outs));
                    assert(names@ =~= old(names)@ + output_names(outs));
                }
                Ok(())
            },
            Err(e) => Err(e),
        },
        ReturningColumn::Star(cols) => match cols {
            Ok(v) => {
                push_star(v, exprs, names);
                Ok(())
            },
            Err(e) => Err(e),
        },
        ReturningColumn::TableStar(cols) => match cols {
            Ok(v) => {
                push_star(v, exprs, names);
                Ok(())
            },
            Err(e) => Err(e),
        },
    }
}

/// Add the columns of a `*`.
fn push_star(cols: Vec<(usize, String)>, exprs: &mut Vec<EvalExpr>, names: &mut Vec<String>)
    ensures
        final(exprs)@ == old(exprs)@ + output_exprs(star_outputs(cols@)),
        final(names)@ == old(names)@ + output_names(star_outputs(cols@)),
{
    let ghost all = cols@;
    let ghost e0 = exprs@;
    let ghost n0 = names@;
    proof {
        assert(e0 + output_exprs(star_outputs(all)).subrange(0, 0) =~= e0);
        assert(n0 + output_names(star_outputs(all)).subrange(0, 0) =~= n0);
    }
    for c in it: cols
        invariant
            it.seq() == all,
            exprs@ == e0 + output_exprs(star_outputs(all)).subrange(0, it.index() as int),
            names@ == n0 + output_names(star_outputs(all)).subrange(0, it.index() as int),
    {
        exprs.push(EvalExpr::Column(c.0));
        names.push(c.1);
        proof {
            assert(exprs@ =~= e0 + output_exprs(star_outputs(all)).subrange(0, it.index() + 1));
            assert(names@ =~= n0 + output_names(star_outputs(all)).subrange(0, it.index() + 1));
        }
    }
    proof {
        assert(output_exprs(star_outputs(all)).subrange(0, all.len() as int) =~= output_exprs(
            star_outputs(all),
        ));
        assert(output_names(star_outputs(all)).subrange(0, all.len() as int) =~= output_names(
            star_outputs(all),
        ));
    }
}

/// How many columns are not hidden.
pub open spec fn visible(columns: Seq<SynthCol>) -> nat
    decreases columns.len(),
{
    if columns.len() == 0 {
        0
    } else if columns[0].hidden {
        visible(columns.drop_first())
    } else {
        1 + visible(columns.drop_first())
    }
}

proof fn lemma_visible_push(columns: Seq<SynthCol>, c: SynthCol)
    ensures
        visible(columns.push(c)) == visible(columns) + if c.hidden {
            0nat
        } else {
            1nat
        },
    decreases columns.len(),
{
    reveal_with_fuel(visible, 2);
    if columns.len() == 0 {
        assert(columns.push(c).drop_first() =~= columns);
    } else {
        assert(columns.push(c).drop_first() =~= columns.drop_first().push(c));
        lemma_visible_push(columns.drop_first(), c);
    }
}

/// A `*` stands for each column that is not hidden, once, with its own register and its own name,
/// in ascending order of registers.
pub proof fn a_star_is_every_visible_column(columns: Seq<SynthCol>, base: nat, i: int)
    requires
        base + columns.len() <= usize::MAX,
    ensures
        star_over(columns, base).len() == visible(columns),
        0 <= i < columns.len() && !columns[i].hidden ==> star_over(columns, base).contains(
            ((base + i) as usize, columns[i].name),
        ),
        forall|k: int|
            0 <= k < star_over(columns, base).len() ==> base <= (#[trigger] star_over(
                columns,
                base,
            )[k]).0 < base + columns.len() && !columns[star_over(columns, base)[k].0 - base].hidden,
        forall|j: int, k: int|
            0 <= j < k < star_over(columns, base).len() ==> (#[trigger] star_over(columns, base)[j]).0
                < (#[trigger] star_over(columns, base)[k]).0,
    decreases columns.len(),
{
    if columns.len() > 0 {
        let init = columns.drop_last();
        let before = star_over(init, base);
        let all = star_over(columns, base);
        a_star_is_every_visible_column(init, base, i);
        assert(init.push(columns.last()) =~= columns);
        lemma_visible_push(init, columns.last());
        assert(columns[columns.len() - 1] == columns.last());
        if 0 <= i < columns.len() && !columns[i].hidden {
            let want = ((base + i) as usize, columns[i].name);
            if i < init.len() {
                assert(init[i] == columns[i]);
                let k = choose|k: int| 0 <= k < before.len() && before[k] == want;
                assert(all[k] == want);
            } else {
                assert(all[before.len() as int] == want);
            }
        }
        assert forall|k: int| 0 <= k < all.len() implies base <= (#[trigger] all[k]).0 < base
            + columns.len() && !columns[all[k].0 - base].hidden by {
            if k < before.len() {
                assert(all[k] == before[k]);
                assert(init[before[k].0 - base] == columns[before[k].0 - base]);
            }
        }
        assert forall|j: int, k: int| 0 <= j < k < all.len() implies (#[trigger] all[j]).0 < (
        #[trigger] all[k]).0 by {
            assert(all[j] == before[j]);
            if k < before.len() {
                assert(all[k] == before[k]);
            }
        }
    }
}

} // verus!
