//! The modifiers of an `ORDER BY` term.

#[allow(unused_imports)]
use vstd::prelude::*;

verus! {

#[derive(Debug, Clone, Copy, PartialEq, Eq, Structural)]
pub enum SortOrder {
    Asc,
    Desc,
}

#[derive(Debug, Clone, Copy, PartialEq, Eq, Structural)]
pub enum NullsOrder {
    First,
    Last,
}

/// Whether the direction is descending; ascending where nothing is written.
pub open spec fn sorts_desc(order: Option<SortOrder>) -> bool {
    order == Some(SortOrder::Desc)
}

/// Whether NULLs are asked for first, if anything is said.
pub open spec fn says_nulls_first(nulls: Option<NullsOrder>) -> Option<bool> {
    match nulls {
        Some(n) => Some(n == NullsOrder::First),
        None => None,
    }
}

/// Whether the direction is descending.
pub fn is_desc(order: Option<SortOrder>) -> (r: bool)
    ensures
        r == sorts_desc(order),
{
    match order {
        Some(SortOrder::Desc) => true,
        _ => false,
    }
}

/// Whether NULLs are asked for first, if anything is said.
pub fn nulls_first(nulls: Option<NullsOrder>) -> (r: Option<bool>)
    ensures
        r == says_nulls_first(nulls),
{
    match nulls {
        Some(NullsOrder::First) => Some(true),
        Some(NullsOrder::Last) => Some(false),
        None => None,
    }
}

} // verus!
