//! The order in which the clauses of a statement are bound.
//!
//! Parameters are numbered as they are bound, so this order decides their numbers. An update is
//! bound in the order of its text: the first `?` is in its `SET` list, not in its `WHERE`. The
//! `LIMIT` of a query is bound after its `ORDER BY`.

#[allow(unused_imports)]
use vstd::prelude::*;
use crate::plan_ctx::{assign_all, numbering_goes_clause_by_clause, BindParam, Numbering};

verus! {

/// A clause of an `UPDATE` that is bound: its `SET` list, its `WHERE`, its `RETURNING` list.
#[derive(Debug, Clone, Copy, PartialEq, Eq, Structural)]
pub enum UpdateClause {
    Assignments,
    Filter,
    Returning,
}

impl UpdateClause {
    /// The clause that is bound first.
    pub open spec fn leader() -> UpdateClause {
        UpdateClause::Assignments
    }

    /// The clause that is bound after this one.
    pub open spec fn follower(self) -> Option<UpdateClause> {
        match self {
            UpdateClause::Assignments => Some(UpdateClause::Filter),
            UpdateClause::Filter => Some(UpdateClause::Returning),
            UpdateClause::Returning => None,
        }
    }

    /// The clause that is bound first.
    pub fn first() -> (r: UpdateClause)
        ensures
            r == UpdateClause::leader(),
    {
        UpdateClause::Assignments
    }

    /// The clause that is bound after this one.
    pub fn next(self) -> (r: Option<UpdateClause>)
        ensures
            r == self.follower(),
    {
        match self {
            UpdateClause::Assignments => Some(UpdateClause::Filter),
            UpdateClause::Filter => Some(UpdateClause::Returning),
            UpdateClause::Returning => None,
        }
    }
}

/// A clause of a query that is bound: its `WHERE`, the constraints of its joins, its result list
/// with its grouping, its `ORDER BY`, its `LIMIT`.
#[derive(Debug, Clone, Copy, PartialEq, Eq, Structural)]
pub enum QueryClause {
    Filter,
    Joins,
    Outputs,
    OrderBy,
    Limit,
}

impl QueryClause {
    /// The clause that is bound first.
    pub open spec fn leader() -> QueryClause {
        QueryClause::Filter
    }

    /// The clause that is bound after this one.
    pub open spec fn follower(self) -> Option<QueryClause> {
        match self {
            QueryClause::Filter => Some(QueryClause::Joins),
            QueryClause::Joins => Some(QueryClause::Outputs),
            QueryClause::Outputs => Some(QueryClause::OrderBy),
            QueryClause::OrderBy => Some(QueryClause::Limit),
            QueryClause::Limit => None,
        }
    }

    /// The clause that is bound first.
    pub fn first() -> (r: QueryClause)
        ensures
            r == QueryClause::leader(),
    {
        QueryClause::Filter
    }

    /// The clause that is bound after this one.
    pub fn next(self) -> (r: Option<QueryClause>)
        ensures
            r == self.follower(),
    {
        match self {
            QueryClause::Filter => Some(QueryClause::Joins),
            QueryClause::Joins => Some(QueryClause::Outputs),
            QueryClause::Outputs => Some(QueryClause::OrderBy),
            QueryClause::OrderBy => Some(QueryClause::Limit),
            QueryClause::Limit => None,
        }
    }
}

/// Where a clause of an `UPDATE` stands in its text.
pub open spec fn place_in_update(c: UpdateClause) -> int {
    match c {
        UpdateClause::Assignments => 0,
        UpdateClause::Filter => 1,
        UpdateClause::Returning => 2,
    }
}

/// How many clauses of a query are bound before a clause: its `FROM` and `WHERE` before its result
/// list, and its `LIMIT` after its `ORDER BY`.
pub open spec fn bound_before(c: QueryClause) -> int {
    match c {
        QueryClause::Filter => 0,
        QueryClause::Joins => 1,
        QueryClause::Outputs => 2,
        QueryClause::OrderBy => 3,
        QueryClause::Limit => 4,
    }
}

/// The clauses of an `UPDATE` are bound in the order of its text, from the first to the last, and
/// none is passed over; those of a query likewise, the `LIMIT` last.
pub proof fn clauses_are_bound_in_order(u: UpdateClause, q: QueryClause)
    ensures
        place_in_update(UpdateClause::leader()) == 0,
        u.follower() matches Some(next) ==> place_in_update(next) == place_in_update(u) + 1,
        u.follower() is None <==> place_in_update(u) == 2,
        bound_before(QueryClause::leader()) == 0,
        q.follower() matches Some(next) ==> bound_before(next) == bound_before(q) + 1,
        q.follower() is None <==> bound_before(q) == 4,
{
}

/// The parameters of the clauses of an `UPDATE`, in the order in which they are numbered.
pub open spec fn update_params(
    set: Seq<BindParam>,
    filter: Seq<BindParam>,
    returning: Seq<BindParam>,
) -> Seq<BindParam> {
    set + filter + returning
}

/// The parameters of an `UPDATE` are numbered in the order of the text: those of `SET` first,
/// those of `WHERE` from there on, and those of `RETURNING` last.
pub proof fn an_update_is_numbered_in_order(
    n: Numbering,
    set: Seq<BindParam>,
    filter: Seq<BindParam>,
    returning: Seq<BindParam>,
)
    requires
        assign_all(n, update_params(set, filter, returning)) is Ok,
    ensures
        ({
            let (numbers, last) = assign_all(n, update_params(set, filter, returning))->Ok_0;
            &&& assign_all(n, set) matches Ok((first, after_set))
            &&& assign_all(after_set, filter) matches Ok((second, after_filter))
            &&& assign_all(after_filter, returning) matches Ok((third, after_returning))
            &&& numbers == first + second + third
            &&& last == after_returning
        }),
{
    numbering_goes_clause_by_clause(n, set + filter, returning);
    numbering_goes_clause_by_clause(n, set, filter);
}

} // verus!
