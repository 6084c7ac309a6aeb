//! The `pragma_*` table functions of a `FROM` clause, such as `pragma_table_info('t')`.
//!
//! The columns of such a function are fixed. Its arguments are the name of an object and the
//! name of a schema; both may be left out, and both may read the tables before it.

#[allow(unused_imports)]
use vstd::prelude::*;
use vstd::string::StringExecFns;
use crate::catalog::PragmaFunction;
use crate::error::Error;
use crate::expr::{bound_exprs, Bound, EvalExpr};
use crate::plan::PlanNode;
use crate::scope::SynthCol;
use crate::types::{Affinity, Collation};

verus! {

/// The pragma function that a name stands for: the one of that name, unless the name is qualified.
pub open spec fn classified(
    schema: Option<String>,
    found: Option<PragmaFunction>,
) -> Option<PragmaFunction> {
    match schema {
        Some(_) => None,
        None => found,
    }
}

/// The pragma function that a table function is. `found` is the one of that name, if there is
/// one; a name with a schema before it is none.
pub fn classify(schema: &Option<String>, found: Option<PragmaFunction>) -> (r: Option<
    PragmaFunction,
>)
    ensures
        r == classified(*schema, found),
{
    match schema {
        Some(_) => None,
        None => found,
    }
}

/// A column of a pragma function: visible, with no affinity, ordered bytewise.
pub open spec fn pragma_column(name: String) -> SynthCol {
    SynthCol { name, affinity: Affinity::Blob, collation: Collation::Binary, hidden: false }
}

fn pragma_synth_col(name: &String) -> (r: SynthCol)
    ensures
        r == pragma_column(*name),
{
    SynthCol {
        name: name.clone(),
        affinity: Affinity::Blob,
        collation: Collation::Binary,
        hidden: false,
    }
}

/// The columns of a pragma function, in order.
pub open spec fn columns_of(kind: PragmaFunction) -> Seq<SynthCol> {
    kind.columns@.map_values(|name: String| pragma_column(name))
}

/// The columns of a pragma function.
pub fn pragma_columns(kind: &PragmaFunction) -> (r: Vec<SynthCol>)
    ensures
        r@ == columns_of(*kind),
{
    let mut out: Vec<SynthCol> = Vec::new();
    let mut i: usize = 0;
    while i < kind.columns.len()
        invariant
            i <= kind.columns.len(),
            out@ == kind.columns@.subrange(0, i as int).map_values(
                |name: String| pragma_column(name),
            ),
        decreases kind.columns.len() - i,
    {
        out.push(pragma_synth_col(&kind.columns[i]));
        i = i + 1;
    }
    proof {
        assert(kind.columns@.subrange(0, kind.columns@.len() as int) =~= kind.columns@);
    }
    out
}

pub open spec fn wrong_args_message(name: Seq<char>) -> Seq<char> {
    "wrong number of arguments to function "@ + name + "()"@
}

/// Why a pragma function cannot be compiled: too many arguments, else the first argument that
/// does not bind.
pub open spec fn pragma_error(name: Seq<char>, args: Seq<Bound>) -> Option<Seq<char>> {
    if args.len() > 2 {
        Some(wrong_args_message(name))
    } else {
        match bound_exprs(args) {
            Err(text) => Some(text),
            Ok(_) => None,
        }
    }
}

/// The argument at a position, if there are that many.
pub open spec fn argument(args: Seq<Bound>, i: int) -> Option<EvalExpr> {
    if i < args.len() {
        match args[i] {
            Ok(e) => Some(e),
            Err(_) => None,
        }
    } else {
        None
    }
}

/// Whether `r` is what compiling a pragma function gives.
pub open spec fn is_pragma_scan(
    r: Result<PlanNode, Error>,
    name: Seq<char>,
    kind: PragmaFunction,
    args: Seq<Bound>,
) -> bool {
    match (r, pragma_error(name, args)) {
        (Ok(node), None) => node == (PlanNode::PragmaFunctionScan {
            kind,
            name_arg: argument(args, 0),
            schema_arg: argument(args, 1),
            column_count: kind.columns@.len() as usize,
        }),
        (Err(e), Some(text)) => e.text() == text,
        _ => false,
    }
}

/// A pragma function compiles exactly where it has at most two arguments and both bind. The first
/// names what it is asked about and the second the namespace; its rows have a visible column for
/// each name that the function lists, in that order, and no other. A name that is qualified by a
/// schema is never one of a pragma function.
pub proof fn a_pragma_function_is_asked_by_name_and_schema(
    r: Result<PlanNode, Error>,
    name: Seq<char>,
    kind: PragmaFunction,
    args: Seq<Bound>,
    schema: Option<String>,
    i: int,
)
    requires
        is_pragma_scan(r, name, kind, args),
    ensures
        r is Ok <==> args.len() <= 2 && forall|k: int|
            0 <= k < args.len() ==> (#[trigger] args[k]) is Ok,
        r matches Ok(node) ==> {
            &&& node matches PlanNode::PragmaFunctionScan {
                kind: function,
                name_arg,
                schema_arg,
                column_count,
            }
            &&& function == kind
            &&& name_arg is Some <==> args.len() >= 1
            &&& schema_arg is Some <==> args.len() >= 2
            &&& args.len() >= 1 ==> args[0] == Ok::<EvalExpr, Error>(name_arg->Some_0)
            &&& args.len() >= 2 ==> args[1] == Ok::<EvalExpr, Error>(schema_arg->Some_0)
            &&& column_count == kind.columns@.len()
        },
        columns_of(kind).len() == kind.columns@.len(),
        0 <= i < kind.columns@.len() ==> columns_of(kind)[i].name@ == kind.columns@[i]@
            && !columns_of(kind)[i].hidden,
        schema is Some ==> classified(schema, Some(kind)) is None,
        schema is None ==> classified(schema, Some(kind)) == Some(kind),
        classified(schema, None) is None,
{
    assert(kind.columns@.len() == kind.columns.len());
    if args.len() <= 2 {
        reveal_with_fuel(bound_exprs, 3);
        if args.len() == 1 {
            assert(args.drop_last() =~= seq![]);
        } else if args.len() == 2 {
            assert(args.drop_last()[0] == args[0]);
            assert(args.drop_last().drop_last() =~= seq![]);
        }
        if r is Ok {
            assert forall|k: int| 0 <= k < args.len() implies (#[trigger] args[k]) is Ok by {}
        }
        if forall|k: int| 0 <= k < args.len() ==> (#[trigger] args[k]) is Ok {
            if args.len() >= 1 {
                assert(args[0] is Ok);
            }
            if args.len() == 2 {
                assert(args[1] is Ok);
            }
        }
    }
}

/// Compile a pragma function of a `FROM` clause: its rows have its columns and no others.
pub fn compile(name: &str, kind: PragmaFunction, args: Vec<Bound>) -> (r: Result<PlanNode, Error>)
    ensures
        is_pragma_scan(r, name@, kind, args@),
{
    if args.len() > 2 {
        let mut s: String = String::from_str("wrong number of arguments to function ");
        s.append(name);
        s.append("()");
        return Err(Error::Sql(s));
    }
    proof {
        reveal_with_fuel(bound_exprs, 3);
    }
    let ghost all = args@;
    let mut name_arg: Option<EvalExpr> = None;
    let mut schema_arg: Option<EvalExpr> = None;
    for a in it: args
        invariant
            it.seq() == all,
            all.len() <= 2,
            bound_exprs(all.subrange(0, it.index() as int)) is Ok,
            name_arg == argument(all.subrange(0, it.index() as int), 0),
            schema_arg == argument(all.subrange(0, it.index() as int), 1),
    {
        proof {
            let next = all.subrange(0, it.index() + 1);
            assert(next.drop_last() =~= all.subrange(0, it.index() as int));
            assert(next.last() == a);
        }
        match a {
            Ok(e) => {
                if name_arg.is_none() {
                    name_arg = Some(e);
                } else {
                    schema_arg = Some(e);
                }
            },
            Err(e) => {
                proof {
                    crate::expr::lemma_bound_exprs_prefix(all, it.index() + 1);
                }
                return Err(e);
            },
        }
    }
    proof {
        assert(all.subrange(0, all.len() as int) =~= all);
    }
    let column_count: usize = kind.columns.len();
    Ok(PlanNode::PragmaFunctionScan { kind, name_arg, schema_arg, column_count })
}

} // verus!
