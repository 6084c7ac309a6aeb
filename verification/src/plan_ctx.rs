//! The per-statement planning state: the side tables a plan ends up with and the numbering
//! of its bind parameters.

#[allow(unused_imports)]
use vstd::prelude::*;
use crate::error::Error;
use crate::plan::{CtePlan, SubPlan};

verus! {

/// A bind parameter as written.
#[derive(Debug)]
pub enum BindParam {
    /// `?`
    Anonymous,
    /// `?N`
    Numbered(u32),
    /// `:name`, `@name` or `$name`, with its sigil.
    Named(String),
}

/// The state of planning one statement.
#[derive(Debug)]
pub struct PlanCtx {
    subqueries: Vec<SubPlan>,
    ctes: Vec<CtePlan>,
    next_max: u32,
    named: Vec<(String, u32)>,
}

/// The numbering of bind parameters: the largest number given so far, and the number of each
/// named parameter in the order of first use.
pub struct Numbering {
    pub largest: nat,
    pub named: Seq<(Seq<char>, nat)>,
}

/// The state of a [`PlanCtx`]: the subqueries and the materialized bodies so far, each named
/// by its position, and the numbering of parameters.
pub struct CtxView {
    pub subqueries: Seq<SubPlan>,
    pub ctes: Seq<CtePlan>,
    pub numbering: Numbering,
}

impl Numbering {
    /// Every number given is at least 1 and at most `largest`, no name has two, and a later
    /// name has a larger one.
    pub open spec fn wf(self) -> bool {
        &&& self.largest <= u32::MAX
        &&& forall|i: int|
            0 <= i < self.named.len() ==> 1 <= (#[trigger] self.named[i]).1 <= self.largest
        &&& forall|i: int, j: int|
            0 <= i < j < self.named.len() ==> (#[trigger] self.named[i]).0 != (
            #[trigger] self.named[j]).0
        &&& forall|i: int, j: int|
            0 <= i < j < self.named.len() ==> (#[trigger] self.named[i]).1 < (
            #[trigger] self.named[j]).1
    }

    /// Whether `name` has a number.
    pub open spec fn knows(self, name: Seq<char>) -> bool {
        exists|i: int| 0 <= i < self.named.len() && (#[trigger] self.named[i]).0 == name
    }

    /// The number of `name`.
    pub open spec fn number_of(self, name: Seq<char>) -> nat {
        self.named[choose|i: int|
            0 <= i < self.named.len() && (#[trigger] self.named[i]).0 == name].1
    }

    /// The number that parameter `p` gets and the numbering afterwards; the message where it
    /// gets none.
    ///
    /// `?` takes the number after the largest, `?N` takes `N`, and a name takes the number it
    /// already has or else the number after the largest.
    pub open spec fn assign(self, p: BindParam) -> Result<(nat, Numbering), Seq<char>> {
        match p {
            BindParam::Anonymous => if self.largest == u32::MAX {
                Err("too many SQL variables"@)
            } else {
                Ok(
                    (
                        self.largest + 1,
                        Numbering { largest: self.largest + 1, named: self.named },
                    ),
                )
            },
            BindParam::Numbered(n) => if n == 0 {
                Err("bind parameter ?0 is not allowed (parameters are 1-based)"@)
            } else {
                Ok(
                    (
                        n as nat,
                        Numbering {
                            largest: if n > self.largest {
                                n as nat
                            } else {
                                self.largest
                            },
                            named: self.named,
                        },
                    ),
                )
            },
            BindParam::Named(name) => if self.knows(name@) {
                Ok((self.number_of(name@), self))
            } else if self.largest == u32::MAX {
                Err("too many SQL variables"@)
            } else {
                Ok(
                    (
                        self.largest + 1,
                        Numbering {
                            largest: self.largest + 1,
                            named: self.named.push((name@, self.largest + 1)),
                        },
                    ),
                )
            },
        }
    }

    /// Whether `self` is `earlier` with parameters numbered since.
    pub open spec fn extends(self, earlier: Numbering) -> bool {
        &&& earlier.largest <= self.largest
        &&& earlier.named.len() <= self.named.len()
        &&& self.named.subrange(0, earlier.named.len() as int) == earlier.named
    }
}

impl CtxView {
    /// Whether `self` is `earlier` with subqueries, bodies and parameters added since.
    pub open spec fn extends(self, earlier: CtxView) -> bool {
        &&& earlier.subqueries.len() <= self.subqueries.len()
        &&& self.subqueries.subrange(0, earlier.subqueries.len() as int) == earlier.subqueries
        &&& earlier.ctes.len() <= self.ctes.len()
        &&& self.ctes.subrange(0, earlier.ctes.len() as int) == earlier.ctes
        &&& self.numbering.extends(earlier.numbering)
    }

    /// How far planning has come.
    pub open spec fn mark(self) -> Mark {
        Mark {
            subqueries: self.subqueries.len(),
            ctes: self.ctes.len(),
            largest: self.numbering.largest,
            named: self.numbering.named.len(),
        }
    }

    /// The state with everything beyond `m` dropped.
    pub open spec fn back_to(self, m: Mark) -> CtxView {
        CtxView {
            subqueries: first_of(self.subqueries, m.subqueries),
            ctes: first_of(self.ctes, m.ctes),
            numbering: Numbering {
                largest: m.largest,
                named: first_of(self.numbering.named, m.named),
            },
        }
    }
}

/// How far planning has come: how many subqueries, bodies and named parameters there are, and
/// the largest parameter number.
pub struct Mark {
    pub subqueries: nat,
    pub ctes: nat,
    pub largest: nat,
    pub named: nat,
}

/// The first `n` elements of `s`, or all of them where there are fewer.
pub open spec fn first_of<A>(s: Seq<A>, n: nat) -> Seq<A> {
    if n <= s.len() {
        s.subrange(0, n as int)
    } else {
        s
    }
}

/// A point of planning that [`PlanCtx::restore`] goes back to.
#[derive(Debug, Clone, Copy)]
pub struct Savepoint {
    subqueries: usize,
    ctes: usize,
    next_max: u32,
    named: usize,
}

impl Savepoint {
    /// The point it marks.
    pub closed spec fn view(self) -> Mark {
        Mark {
            subqueries: self.subqueries as nat,
            ctes: self.ctes as nat,
            largest: self.next_max as nat,
            named: self.named as nat,
        }
    }
}

impl PlanCtx {
    /// The state.
    pub closed spec fn view(self) -> CtxView {
        CtxView {
            subqueries: self.subqueries@,
            ctes: self.ctes@,
            numbering: Numbering {
                largest: self.next_max as nat,
                named: self.named@.map_values(|p: (String, u32)| (p.0@, p.1 as nat)),
            },
        }
    }

    /// Whether the numbering is well-formed.
    pub open spec fn wf(self) -> bool {
        self@.numbering.wf()
    }

    /// The subqueries so far.
    pub fn subqueries(&self) -> (r: &Vec<SubPlan>)
        ensures
            r@ == self@.subqueries,
    {
        &self.subqueries
    }

    /// The materialized bodies so far.
    pub fn ctes(&self) -> (r: &Vec<CtePlan>)
        ensures
            r@ == self@.ctes,
    {
        &self.ctes
    }

    /// The side tables, at the end of planning: the materialized bodies and the subqueries.
    pub fn into_tables(self) -> (r: (Vec<CtePlan>, Vec<SubPlan>))
        ensures
            r.0@ == self@.ctes,
            r.1@ == self@.subqueries,
    {
        (self.ctes, self.subqueries)
    }

    /// The state at the start of a statement.
    pub fn new() -> (r: PlanCtx)
        ensures
            r.wf(),
            r@ == (CtxView {
                subqueries: seq![],
                ctes: seq![],
                numbering: Numbering { largest: 0, named: seq![] },
            }),
    {
        let r = PlanCtx { subqueries: Vec::new(), ctes: Vec::new(), next_max: 0, named: Vec::new() };
        assert(r@.numbering.named =~= seq![]);
        assert(r@.subqueries =~= seq![]);
        assert(r@.ctes =~= seq![]);
        r
    }

    /// Add a subquery; its position is the id by which expressions name it.
    pub fn register_subquery(&mut self, sub: SubPlan) -> (id: usize)
        ensures
            id == old(self)@.subqueries.len(),
            final(self)@ == (CtxView {
                subqueries: old(self)@.subqueries.push(sub),
                ..old(self)@
            }),
            final(self).wf() == old(self).wf(),
    {
        let id: usize = self.subqueries.len();
        self.subqueries.push(sub);
        id
    }

    /// Add a materialized body; its position is the id by which scans name it.
    pub fn register_cte(&mut self, cte: CtePlan) -> (id: usize)
        ensures
            id == old(self)@.ctes.len(),
            final(self)@ == (CtxView { ctes: old(self)@.ctes.push(cte), ..old(self)@ }),
            final(self).wf() == old(self).wf(),
    {
        let id: usize = self.ctes.len();
        self.ctes.push(cte);
        id
    }

    /// A point to which [`PlanCtx::restore`] can go back.
    pub fn savepoint(&self) -> (r: Savepoint)
        ensures
            r@ == self@.mark(),
    {
        Savepoint {
            subqueries: self.subqueries.len(),
            ctes: self.ctes.len(),
            next_max: self.next_max,
            named: self.named.len(),
        }
    }

    /// Go back to a savepoint: whatever was added since is dropped.
    pub fn restore(&mut self, sp: Savepoint)
        ensures
            final(self)@ == old(self)@.back_to(sp@),
    {
        self.subqueries.truncate(sp.subqueries);
        self.ctes.truncate(sp.ctes);
        self.next_max = sp.next_max;
        self.named.truncate(sp.named);
        assert(self@.numbering.named =~= first_of(old(self)@.numbering.named, sp@.named));
    }

    /// The 1-based number of a bind parameter.
    pub fn param_index(&mut self, p: &BindParam) -> (r: Result<usize, Error>)
        requires
            old(self).wf(),
        ensures
            final(self).wf(),
            final(self)@.subqueries == old(self)@.subqueries,
            final(self)@.ctes == old(self)@.ctes,
            match (r, old(self)@.numbering.assign(*p)) {
                (Ok(n), Ok((m, after))) => n == m && final(self)@.numbering == after,
                (Err(e), Err(text)) => e.text() == text && final(self)@ == old(self)@,
                _ => false,
            },
    {
        match p {
            BindParam::Anonymous => {
                let num: u32 = self.bump_max()?;
                Ok(num as usize)
            },
            BindParam::Numbered(n) => {
                if *n == 0 {
                    return Err(
                        Error::sql("bind parameter ?0 is not allowed (parameters are 1-based)"),
                    );
                }
                if *n > self.next_max {
                    self.next_max = *n;
                }
                Ok(*n as usize)
            },
            BindParam::Named(name) => {
                let ghost before = self@.numbering;
                let mut i: usize = 0;
                while i < self.named.len()
                    invariant
                        i <= self.named.len(),
                        *self == *old(self),
                        *p == BindParam::Named(*name),
                        before == self@.numbering,
                        before.wf(),
                        forall|k: int| 0 <= k < i ==> (#[trigger] before.named[k]).0 != name@,
                    decreases self.named.len() - i,
                {
                    if self.named[i].0 == *name {
                        proof {
                            assert(before.named[i as int].0 == name@);
                            assert(before.knows(name@));
                            assert(before.number_of(name@) == before.named[i as int].1);
                        }
                        return Ok(self.named[i].1 as usize);
                    }
                    assert(before.named[i as int].0 != name@);
                    i = i + 1;
                }
                assert(!before.knows(name@));
                let num: u32 = self.bump_max()?;
                self.named.push((name.clone(), num));
                proof {
                    assert(self@.numbering.named =~= before.named.push((name@, num as nat)));
                }
                Ok(num as usize)
            },
        }
    }

    /// The next number after the largest.
    fn bump_max(&mut self) -> (r: Result<u32, Error>)
        ensures
            final(self).subqueries == old(self).subqueries,
            final(self).ctes == old(self).ctes,
            final(self).named == old(self).named,
            match r {
                Ok(n) => n == old(self).next_max + 1 && final(self).next_max == n,
                Err(e) => old(self).next_max == u32::MAX && e.text()
                    == "too many SQL variables"@ && *final(self) == *old(self),
            },
    {
        match self.next_max.checked_add(1) {
            Some(n) => {
                self.next_max = n;
                Ok(n)
            },
            None => Err(Error::sql("too many SQL variables")),
        }
    }
}

/// The numbers of a list of parameters, in order, and the numbering afterwards; the message
/// of the first that gets none.
pub open spec fn assign_all(n: Numbering, ps: Seq<BindParam>) -> Result<
    (Seq<nat>, Numbering),
    Seq<char>,
>
    decreases ps.len(),
{
    if ps.len() == 0 {
        Ok((seq![], n))
    } else {
        match assign_all(n, ps.drop_last()) {
            Err(text) => Err(text),
            Ok((numbers, mid)) => match mid.assign(ps.last()) {
                Err(text) => Err(text),
                Ok((number, after)) => Ok((numbers.push(number), after)),
            },
        }
    }
}

/// Numbering a parameter keeps the numbering well-formed, adds to it at most, and gives a
/// number between 1 and the largest.
pub proof fn assign_keeps_the_numbering(n: Numbering, p: BindParam)
    requires
        n.wf(),
    ensures
        n.assign(p) matches Ok((number, after)) ==> {
            &&& after.wf()
            &&& after.extends(n)
            &&& 1 <= number <= after.largest
        },
{
    if let BindParam::Named(name) = p {
        if n.knows(name@) {
            assert(n.named.subrange(0, n.named.len() as int) =~= n.named);
        } else if n.largest < u32::MAX {
            let after = n.named.push((name@, n.largest + 1));
            assert(after.subrange(0, n.named.len() as int) =~= n.named);
            assert forall|i: int, j: int| 0 <= i < j < after.len() implies (#[trigger] after[i]).0
                != (#[trigger] after[j]).0 by {
                if j == n.named.len() {
                    assert(n.named[i].0 != name@);
                }
            }
        }
    } else {
        assert(n.named.subrange(0, n.named.len() as int) =~= n.named);
    }
}

/// A fresh number is greater than every number given before: `?`, and a name at its first
/// use, never share a number with an earlier parameter.
pub proof fn fresh_numbers_are_new(n: Numbering, p: BindParam)
    requires
        n.wf(),
        p matches BindParam::Named(name) ==> !n.knows(name@),
        !(p is Numbered),
    ensures
        n.assign(p) matches Ok((number, _)) ==> number == n.largest + 1,
        n.assign(p) is Ok <==> n.largest < u32::MAX,
{
}

/// A name keeps its number: once it has one, every later use of the name gets that number
/// and changes nothing, whatever is numbered in between.
pub proof fn names_keep_their_number(n: Numbering, name: String, ps: Seq<BindParam>)
    requires
        n.wf(),
        n.knows(name@),
        assign_all(n, ps) is Ok,
    ensures
        ({
            let later = assign_all(n, ps)->Ok_0.1;
            &&& later.wf()
            &&& later.extends(n)
            &&& later.assign(BindParam::Named(name)) == Ok::<(nat, Numbering), Seq<char>>(
                (n.number_of(name@), later),
            )
        }),
    decreases ps.len(),
{
    if ps.len() == 0 {
        assert(n.named.subrange(0, n.named.len() as int) =~= n.named);
    } else {
        names_keep_their_number(n, name, ps.drop_last());
        let mid = assign_all(n, ps.drop_last())->Ok_0.1;
        let later = assign_all(n, ps)->Ok_0.1;
        assign_keeps_the_numbering(mid, ps.last());
        let i = choose|i: int| 0 <= i < n.named.len() && (#[trigger] n.named[i]).0 == name@;
        assert(later.named.subrange(0, n.named.len() as int) =~= n.named) by {
            assert(later.named.subrange(0, mid.named.len() as int) == mid.named);
            assert(mid.named.subrange(0, n.named.len() as int) == n.named);
            assert forall|k: int| 0 <= k < n.named.len() implies later.named[k] == n.named[k] by {
                assert(later.named.subrange(0, mid.named.len() as int)[k] == mid.named[k]);
                assert(mid.named.subrange(0, n.named.len() as int)[k] == n.named[k]);
            }
        }
        assert(later.named[i] == later.named.subrange(0, n.named.len() as int)[i]);
        assert(later.knows(name@));
        assert(later.number_of(name@) == later.named[i].1);
        assert(n.number_of(name@) == n.named[i].1);
    }
}

/// Two names have two numbers.
pub proof fn names_do_not_share_a_number(n: Numbering, a: Seq<char>, b: Seq<char>)
    requires
        n.wf(),
        n.knows(a),
        n.knows(b),
        a != b,
    ensures
        n.number_of(a) != n.number_of(b),
{
    let i = choose|i: int| 0 <= i < n.named.len() && (#[trigger] n.named[i]).0 == a;
    let j = choose|j: int| 0 <= j < n.named.len() && (#[trigger] n.named[j]).0 == b;
    if i < j {
        assert(n.named[i].1 < n.named[j].1);
    } else {
        assert(n.named[j].1 < n.named[i].1);
    }
}

/// Parameters are numbered clause by clause: those of a first clause as if there were no other,
/// and those of the rest from there on.
pub proof fn numbering_goes_clause_by_clause(
    n: Numbering,
    first: Seq<BindParam>,
    rest: Seq<BindParam>,
)
    ensures
        assign_all(n, first + rest) == match assign_all(n, first) {
            Err(text) => Err(text),
            Ok((numbers, mid)) => match assign_all(mid, rest) {
                Err(text) => Err(text),
                Ok((more, after)) => Ok((numbers + more, after)),
            },
        },
    decreases rest.len(),
{
    if rest.len() == 0 {
        assert(first + rest =~= first);
        if assign_all(n, first) is Ok {
            let numbers = assign_all(n, first)->Ok_0.0;
            assert(numbers + Seq::<nat>::empty() =~= numbers);
        }
    } else {
        let whole = first + rest;
        assert(whole.drop_last() =~= first + rest.drop_last());
        assert(whole.last() == rest.last());
        numbering_goes_clause_by_clause(n, first, rest.drop_last());
        if let Ok((numbers, mid)) = assign_all(n, first) {
            if let Ok((more, late)) = assign_all(mid, rest.drop_last()) {
                if let Ok((number, after)) = late.assign(rest.last()) {
                    assert((numbers + more).push(number) =~= numbers + more.push(number));
                }
            }
        }
    }
}

/// A name gets at its second use the number of its first.
pub proof fn a_name_is_numbered_once(n: Numbering, name: String)
    requires
        n.wf(),
    ensures
        n.assign(BindParam::Named(name)) matches Ok((number, after)) ==> after.assign(
            BindParam::Named(name),
        ) == Ok::<(nat, Numbering), Seq<char>>((number, after)),
{
    assign_keeps_the_numbering(n, BindParam::Named(name));
    if n.assign(BindParam::Named(name)) is Ok && !n.knows(name@) {
        let after = n.assign(BindParam::Named(name))->Ok_0.1;
        assert(after.named[n.named.len() as int].0 == name@);
        assert(after.knows(name@));
        assert(after.number_of(name@) == after.named[n.named.len() as int].1);
    }
}

/// Numbering a list of parameters only adds to the state it starts from, so a savepoint taken
/// before it can be restored after it.
pub proof fn numbering_a_list_extends(n: Numbering, ps: Seq<BindParam>)
    requires
        n.wf(),
    ensures
        assign_all(n, ps) matches Ok((numbers, after)) ==> {
            &&& after.wf()
            &&& after.extends(n)
            &&& numbers.len() == ps.len()
        },
    decreases ps.len(),
{
    if ps.len() == 0 {
        assert(n.named.subrange(0, n.named.len() as int) =~= n.named);
    } else {
        numbering_a_list_extends(n, ps.drop_last());
        if assign_all(n, ps.drop_last()) is Ok {
            let mid = assign_all(n, ps.drop_last())->Ok_0.1;
            assign_keeps_the_numbering(mid, ps.last());
            if mid.assign(ps.last()) is Ok {
                let after = mid.assign(ps.last())->Ok_0.1;
                assert(after.named.subrange(0, n.named.len() as int) =~= n.named) by {
                    assert forall|k: int| 0 <= k < n.named.len() implies after.named[k]
                        == n.named[k] by {
                        assert(after.named.subrange(0, mid.named.len() as int)[k] == mid.named[k]);
                        assert(mid.named.subrange(0, n.named.len() as int)[k] == n.named[k]);
                    }
                }
            }
        }
    }
}

/// A trial that is rolled back leaves no trace: from whatever it added, going back to where it
/// started gives the state it started from.
pub proof fn rolling_back_undoes_a_trial(start: CtxView, trial: CtxView)
    requires
        trial.extends(start),
    ensures
        trial.back_to(start.mark()) == start,
{
}

/// A retry gives the numbers and the ids that the trial gave: the parameters of a statement
/// are numbered alike, and subqueries and bodies are counted from the same positions.
pub proof fn a_retry_repeats_the_trial(start: CtxView, trial: CtxView, ps: Seq<BindParam>)
    requires
        trial.extends(start),
    ensures
        ({
            let again = trial.back_to(start.mark());
            &&& assign_all(again.numbering, ps) == assign_all(start.numbering, ps)
            &&& again.subqueries.len() == start.subqueries.len()
            &&& again.ctes.len() == start.ctes.len()
        }),
{
    rolling_back_undoes_a_trial(start, trial);
}

/// Every state extends itself.
pub proof fn lemma_extends_itself(s: CtxView)
    ensures
        s.extends(s),
{
    assert(s.subqueries.subrange(0, s.subqueries.len() as int) =~= s.subqueries);
    assert(s.ctes.subrange(0, s.ctes.len() as int) =~= s.ctes);
    assert(s.numbering.named.subrange(0, s.numbering.named.len() as int) =~= s.numbering.named);
}

/// `?N` is number `N` and nothing else changes its number; the next `?` comes after it and after
/// every number given before. Only `?0` is refused.
pub proof fn a_numbered_parameter_has_its_number(n: Numbering, number: u32)
    requires
        n.wf(),
    ensures
        n.assign(BindParam::Numbered(number)) is Ok <==> number >= 1,
        n.assign(BindParam::Numbered(number)) matches Ok((given, after)) ==> {
            &&& given == number
            &&& after.named == n.named
            &&& after.largest >= n.largest
            &&& after.largest >= number
            &&& after.largest == n.largest || after.largest == number
            &&& after.assign(BindParam::Anonymous) matches Ok((next, _)) ==> next > number && next
                > n.largest
        },
{
}

/// A name that is numbered for the first time is remembered with its number, behind the names
/// before it; `?` and `?N` are not remembered.
pub proof fn only_names_are_remembered(n: Numbering, p: BindParam)
    requires
        n.wf(),
    ensures
        n.assign(p) matches Ok((given, after)) ==> match p {
            BindParam::Named(name) => if n.knows(name@) {
                after == n
            } else {
                &&& after.named.len() == n.named.len() + 1
                &&& after.named.last() == (name@, given)
                &&& after.named.drop_last() == n.named
            },
            _ => after.named == n.named,
        },
{
    if let BindParam::Named(name) = p {
        assert(n.named.push((name@, n.largest + 1)).drop_last() =~= n.named);
    }
}

} // verus!
