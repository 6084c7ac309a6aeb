//! Named windows and the windows that extend them.

#[allow(unused_imports)]
use vstd::prelude::*;
use vstd::string::StringExecFns;
use crate::error::Error;
use crate::search::{least, least_from, lemma_least_from};
use crate::text::{eq_ignore_ascii_case, same_name};

verus! {

/// A window specification. Its clauses are named by their positions in the statement; `base`
/// is the window it extends, if it extends one.
#[derive(Debug)]
pub struct WindowSpec {
    pub base: Option<String>,
    pub partition_by: Vec<usize>,
    pub order_by: Vec<usize>,
    pub frame: Option<usize>,
}

/// One definition of a `WINDOW` clause.
#[derive(Debug)]
pub struct WindowDef {
    pub name: String,
    pub spec: WindowSpec,
}

/// What follows `OVER`.
#[derive(Debug)]
pub enum OverClause {
    Spec(WindowSpec),
    WindowName(String),
}

/// What a [`WindowSpec`] says.
pub struct SpecView {
    pub base: Option<Seq<char>>,
    pub partition_by: Seq<usize>,
    pub order_by: Seq<usize>,
    pub frame: Option<usize>,
}

impl WindowSpec {
    pub open spec fn view(self) -> SpecView {
        SpecView {
            base: match self.base {
                Some(b) => Some(b@),
                None => None,
            },
            partition_by: self.partition_by@,
            order_by: self.order_by@,
            frame: self.frame,
        }
    }

    /// A second copy of this specification.
    pub fn dup(&self) -> (r: WindowSpec)
        ensures
            r@ == self@,
    {
        WindowSpec {
            base: crate::expr::dup_text(&self.base),
            partition_by: dup_positions(&self.partition_by),
            order_by: dup_positions(&self.order_by),
            frame: self.frame,
        }
    }
}

fn dup_positions(v: &Vec<usize>) -> (r: Vec<usize>)
    ensures
        r@ == v@,
{
    let mut out: Vec<usize> = Vec::new();
    let mut i: usize = 0;
    while i < v.len()
        invariant
            i <= v.len(),
            out@ == v@.subrange(0, i as int),
        decreases v.len() - i,
    {
        out.push(v[i]);
        i = i + 1;
    }
    assert(out@ =~= v@);
    out
}

/// The position of the first window named `name`.
pub open spec fn window_named(windows: Seq<WindowDef>, name: Seq<char>) -> Option<int> {
    least(|i: int| same_name(windows[i].name@, name), windows.len() as int)
}

/// Whether `name` is one of the names passed on the way.
pub open spec fn passed(visited: Seq<Seq<char>>, name: Seq<char>) -> bool {
    exists|i: int| 0 <= i < visited.len() && same_name(#[trigger] visited[i], name)
}

/// How many windows have not been passed.
pub open spec fn ahead(windows: Seq<WindowDef>, visited: Seq<Seq<char>>) -> nat
    decreases windows.len(),
{
    if windows.len() == 0 {
        0
    } else {
        ahead(windows.drop_last(), visited) + if passed(visited, windows.last().name@) {
            0nat
        } else {
            1nat
        }
    }
}

/// Passing a window leaves fewer ahead.
proof fn lemma_passing(windows: Seq<WindowDef>, visited: Seq<Seq<char>>, name: Seq<char>)
    ensures
        ahead(windows, visited.push(name)) <= ahead(windows, visited),
        !passed(visited, name) && (exists|k: int|
            0 <= k < windows.len() && same_name((#[trigger] windows[k]).name@, name)) ==> ahead(
            windows,
            visited.push(name),
        ) < ahead(windows, visited),
    decreases windows.len(),
{
    if windows.len() > 0 {
        lemma_passing(windows.drop_last(), visited, name);
        let more = visited.push(name);
        let last = windows.last().name@;
        if passed(visited, last) {
            let i = choose|i: int| 0 <= i < visited.len() && same_name(#[trigger] visited[i], last);
            assert(more[i] == visited[i]);
            assert(passed(more, last));
        }
        if same_name(last, name) {
            assert(more[visited.len() as int] == name);
            assert(passed(more, last));
            if passed(visited, last) {
                let i = choose|i: int|
                    0 <= i < visited.len() && same_name(#[trigger] visited[i], last);
                assert(same_name(visited[i], name));
            }
        }
        if exists|k: int| 0 <= k < windows.len() && same_name((#[trigger] windows[k]).name@, name) {
            let k = choose|k: int|
                0 <= k < windows.len() && same_name((#[trigger] windows[k]).name@, name);
            if k < windows.len() - 1 {
                assert(windows.drop_last()[k] == windows[k]);
            }
        }
    }
}

/// Going on to the window that is named, where its name was not passed before, leaves fewer
/// windows ahead.
pub proof fn lemma_named_is_passed(windows: Seq<WindowDef>, visited: Seq<Seq<char>>, name: Seq<char>)
    requires
        !passed(visited, name),
        window_named(windows, name) is Some,
    ensures
        ahead(windows, visited.push(name)) < ahead(windows, visited),
{
    lemma_least_from(
        |i: int| same_name(windows[i].name@, name),
        0,
        windows.len() as int,
    );
    let k = window_named(windows, name)->Some_0;
    assert(same_name(windows[k].name@, name));
    lemma_passing(windows, visited, name);
}

pub open spec fn circular_message(name: Seq<char>) -> Seq<char> {
    "circular reference: "@ + name
}

pub open spec fn no_window_message(name: Seq<char>) -> Seq<char> {
    "no such window: "@ + name
}

/// A specification that extends a resolved base: the partitions are the base's, so is the
/// order where the base has one, and the frame is the extending window's. The base may have no
/// frame, the extending window no partitions, and not both an order.
pub open spec fn extended(spec: SpecView, base: SpecView) -> Result<SpecView, Seq<char>> {
    if spec.partition_by.len() > 0 {
        Err("PARTITION BY clause is not allowed in a window that references a base window"@)
    } else if base.frame is Some {
        Err("a base window definition may not specify a frame"@)
    } else if base.order_by.len() > 0 && spec.order_by.len() > 0 {
        Err(
            "ORDER BY clause is not allowed in a window that references a base window with ORDER BY"@,
        )
    } else {
        Ok(
            SpecView {
                base: None,
                partition_by: base.partition_by,
                order_by: if base.order_by.len() == 0 {
                    spec.order_by
                } else {
                    base.order_by
                },
                frame: spec.frame,
            },
        )
    }
}

/// A specification with the windows it extends worked in. A chain that comes back to a window
/// it has passed is an error.
pub open spec fn chained(
    windows: Seq<WindowDef>,
    spec: SpecView,
    visited: Seq<Seq<char>>,
) -> Result<SpecView, Seq<char>>
    decreases ahead(windows, visited),
{
    match spec.base {
        None => Ok(spec),
        Some(b) => if passed(visited, b) {
            Err(circular_message(b))
        } else {
            match window_named(windows, b) {
                None => Err(no_window_message(b)),
                Some(k) => {
                    proof {
                        lemma_named_is_passed(windows, visited, b);
                    }
                    match chained(windows, windows[k].spec@, visited.push(b)) {
                        Err(text) => Err(text),
                        Ok(base) => extended(spec, base),
                    }
                },
            }
        },
    }
}

/// The window that an `OVER` clause stands for.
pub open spec fn over_window(over: OverClause, windows: Seq<WindowDef>) -> Result<
    SpecView,
    Seq<char>,
> {
    match over {
        OverClause::Spec(spec) => chained(windows, spec@, seq![]),
        OverClause::WindowName(name) => match window_named(windows, name@) {
            None => Err(no_window_message(name@)),
            Some(k) => chained(windows, windows[k].spec@, seq![name@]),
        },
    }
}

/// The window that an `OVER` clause stands for: the one it writes out or names, with the
/// windows it extends worked in.
pub fn effective_spec(over: &OverClause, windows: &Vec<WindowDef>) -> (r: Result<
    WindowSpec,
    Error,
>)
    ensures
        match (r, over_window(*over, windows@)) {
            (Ok(s), Ok(v)) => s@ == v,
            (Err(e), Err(text)) => e.text() == text,
            _ => false,
        },
{
    match over {
        OverClause::Spec(spec) => {
            let mut visited: Vec<String> = Vec::new();
            proof {
                assert(names_of(visited@) =~= seq![]);
            }
            resolve_chain(windows, spec.dup(), &mut visited)
        },
        OverClause::WindowName(name) => match lookup(windows, name.as_str()) {
            Some(k) => {
                let mut visited: Vec<String> = Vec::new();
                visited.push(name.clone());
                proof {
                    assert(names_of(visited@) =~= seq![name@]);
                }
                resolve_chain(windows, windows[k].spec.dup(), &mut visited)
            },
            None => Err(no_window(name.as_str())),
        },
    }
}

spec fn names_of(v: Seq<String>) -> Seq<Seq<char>> {
    v.map_values(|s: String| s@)
}

fn no_window(name: &str) -> (r: Error)
    ensures
        r.text() == no_window_message(name@),
{
    let mut s: String = String::from_str("no such window: ");
    s.append(name);
    Error::Sql(s)
}

fn lookup(windows: &Vec<WindowDef>, name: &str) -> (r: Option<usize>)
    ensures
        match (r, window_named(windows@, name@)) {
            (Some(i), Some(k)) => i == k && i < windows@.len(),
            (None, None) => true,
            _ => false,
        },
{
    let ghost p = |i: int| same_name(windows@[i].name@, name@);
    let mut i: usize = 0;
    while i < windows.len()
        invariant
            i <= windows.len(),
            p == (|i: int| same_name(windows@[i].name@, name@)),
            least(p, windows@.len() as int) == least_from(p, i as int, windows@.len() as int),
        decreases windows.len() - i,
    {
        if eq_ignore_ascii_case(windows[i].name.as_str(), name) {
            assert(p(i as int));
            return Some(i);
        }
        assert(!p(i as int));
        i = i + 1;
    }
    None
}

fn was_passed(visited: &Vec<String>, name: &str) -> (r: bool)
    ensures
        r == passed(names_of(visited@), name@),
{
    let mut i: usize = 0;
    while i < visited.len()
        invariant
            i <= visited.len(),
            forall|k: int| 0 <= k < i ==> !same_name(#[trigger] names_of(visited@)[k], name@),
        decreases visited.len() - i,
    {
        if eq_ignore_ascii_case(visited[i].as_str(), name) {
            assert(same_name(names_of(visited@)[i as int], name@));
            return true;
        }
        assert(!same_name(names_of(visited@)[i as int], name@));
        i = i + 1;
    }
    false
}

/// Work the windows that a specification extends into it. `visited` are the names passed on
/// the way, by which a circular chain is found.
fn resolve_chain(windows: &Vec<WindowDef>, spec: WindowSpec, visited: &mut Vec<String>) -> (r:
    Result<WindowSpec, Error>)
    ensures
        match (r, chained(windows@, spec@, names_of(old(visited)@))) {
            (Ok(s), Ok(v)) => s@ == v,
            (Err(e), Err(text)) => e.text() == text,
            _ => false,
        },
    decreases ahead(windows@, names_of(old(visited)@)),
{
    let WindowSpec { base, partition_by, order_by, frame } = spec;
    let base_name: String = match base {
        Some(b) => b,
        None => {
            return Ok(WindowSpec { base: None, partition_by, order_by, frame });
        },
    };
    if was_passed(visited, base_name.as_str()) {
        let mut s: String = String::from_str("circular reference: ");
        s.append(base_name.as_str());
        return Err(Error::Sql(s));
    }
    let k: usize = match lookup(windows, base_name.as_str()) {
        Some(k) => k,
        None => {
            return Err(no_window(base_name.as_str()));
        },
    };
    proof {
        lemma_named_is_passed(windows@, names_of(visited@), base_name@);
        assert(names_of(visited@.push(base_name)) =~= names_of(visited@).push(base_name@));
    }
    visited.push(base_name);
    let base: WindowSpec = match resolve_chain(windows, windows[k].spec.dup(), visited) {
        Ok(b) => b,
        Err(e) => {
            return Err(e);
        },
    };
    if partition_by.len() > 0 {
        return Err(
            Error::sql(
                "PARTITION BY clause is not allowed in a window that references a base window",
            ),
        );
    }
    if base.frame.is_some() {
        return Err(Error::sql("a base window definition may not specify a frame"));
    }
    if base.order_by.len() == 0 {
        Ok(WindowSpec { base: None, partition_by: base.partition_by, order_by, frame })
    } else {
        if order_by.len() > 0 {
            return Err(
                Error::sql(
                    "ORDER BY clause is not allowed in a window that references a base window with ORDER BY",
                ),
            );
        }
        Ok(WindowSpec { base: None, partition_by: base.partition_by, order_by: base.order_by, frame })
    }
}

/// A resolved window extends nothing: whatever it extended is worked in.
pub proof fn a_resolved_window_has_no_base(
    windows: Seq<WindowDef>,
    spec: SpecView,
    visited: Seq<Seq<char>>,
)
    ensures
        chained(windows, spec, visited) matches Ok(v) ==> v.base is None,
{
}

/// The window that window `k` extends.
pub open spec fn base_of(windows: Seq<WindowDef>, k: int) -> Option<int> {
    match windows[k].spec@.base {
        Some(b) => window_named(windows, b),
        None => None,
    }
}

/// The window reached from window `k` by going to the extended window `n` times.
pub open spec fn reached(windows: Seq<WindowDef>, k: int, n: nat) -> Option<int>
    decreases n,
{
    if n == 0 {
        Some(k)
    } else {
        match base_of(windows, k) {
            Some(j) => reached(windows, j, (n - 1) as nat),
            None => None,
        }
    }
}

proof fn lemma_reached(windows: Seq<WindowDef>, k: int, n: nat, visited: Seq<Seq<char>>) -> (later:
    Seq<Seq<char>>)
    requires
        n > 0,
        reached(windows, k, n) is Some,
        chained(windows, windows[k].spec@, visited) is Ok,
    ensures
        chained(windows, windows[reached(windows, k, n)->Some_0].spec@, later) is Ok,
        passed(later, windows[k].spec@.base->Some_0),
        forall|name: Seq<char>| #[trigger] passed(visited, name) ==> passed(later, name),
    decreases n,
{
    let b = windows[k].spec@.base->Some_0;
    let j = base_of(windows, k)->Some_0;
    let next = visited.push(b);
    assert(next[visited.len() as int] == b);
    assert(passed(next, b));
    assert forall|name: Seq<char>| #[trigger] passed(visited, name) implies passed(next, name) by {
        let i = choose|i: int| 0 <= i < visited.len() && same_name(#[trigger] visited[i], name);
        assert(next[i] == visited[i]);
    }
    lemma_named_is_passed(windows, visited, b);
    if n == 1 {
        assert(reached(windows, j, 0) == Some(j));
        next
    } else {
        lemma_reached(windows, j, (n - 1) as nat, next)
    }
}

/// A window that extends itself, directly or through others, is always an error.
pub proof fn a_window_cannot_extend_itself(
    windows: Seq<WindowDef>,
    k: int,
    n: nat,
    visited: Seq<Seq<char>>,
)
    requires
        n > 0,
        reached(windows, k, n) == Some(k),
    ensures
        chained(windows, windows[k].spec@, visited) is Err,
{
    if chained(windows, windows[k].spec@, visited) is Ok {
        let later = lemma_reached(windows, k, n, visited);
        assert(passed(later, windows[k].spec@.base->Some_0));
    }
}

} // verus!
