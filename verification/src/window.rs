//! Window functions: which function is computed, and the frame it is computed over.

#[allow(unused_imports)]
use vstd::prelude::*;
use crate::expr::{AggregateCall, EvalExpr};

verus! {

/// The function a window call computes: an aggregate over the frame, or one of the eleven
/// built-in window functions.
#[allow(inconsistent_fields)]
#[derive(Debug, Clone)]
pub enum WindowFuncKind {
    Aggregate(AggregateCall),
    RowNumber,
    Rank,
    DenseRank,
    PercentRank,
    CumeDist,
    Ntile(EvalExpr),
    /// `expr` on the row `offset` rows before the current one, or `default`.
    Lag { expr: EvalExpr, offset: EvalExpr, default: EvalExpr },
    /// `expr` on the row `offset` rows after the current one, or `default`.
    Lead { expr: EvalExpr, offset: EvalExpr, default: EvalExpr },
    FirstValue(EvalExpr),
    LastValue(EvalExpr),
    NthValue { expr: EvalExpr, n: EvalExpr },
}

/// What the boundaries of a frame count.
#[derive(Debug, Clone, Copy, PartialEq, Eq, Structural)]
pub enum FrameUnits {
    /// Rows.
    Rows,
    /// A band of values of the single `ORDER BY` term.
    Range,
    /// Groups of rows equal on every `ORDER BY` term.
    Groups,
}

/// One boundary of a frame.
#[derive(Debug, Clone)]
pub enum FrameBound {
    UnboundedPreceding,
    Preceding(EvalExpr),
    CurrentRow,
    Following(EvalExpr),
    UnboundedFollowing,
}

/// Which rows around the current one the frame leaves out.
#[derive(Debug, Clone, Copy, PartialEq, Eq, Structural)]
pub enum FrameExclude {
    NoOthers,
    CurrentRow,
    Group,
    Ties,
}

/// A window frame.
#[derive(Debug, Clone)]
pub struct WindowFrame {
    pub units: FrameUnits,
    pub start: FrameBound,
    pub end: FrameBound,
    pub exclude: FrameExclude,
}

impl WindowFrame {
    /// Whether this is the frame of a window that names none: from the start of the
    /// partition to the last peer of the current row, nothing left out.
    pub open spec fn is_default(self) -> bool {
        &&& self.units == FrameUnits::Range
        &&& self.start is UnboundedPreceding
        &&& self.end is CurrentRow
        &&& self.exclude == FrameExclude::NoOthers
    }

    /// The frame of a window that names none.
    pub fn default_frame() -> (r: WindowFrame)
        ensures
            r.is_default(),
    {
        WindowFrame {
            units: FrameUnits::Range,
            start: FrameBound::UnboundedPreceding,
            end: FrameBound::CurrentRow,
            exclude: FrameExclude::NoOthers,
        }
    }
}

} // verus!
