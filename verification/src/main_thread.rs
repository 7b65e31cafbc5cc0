//! Outcomes exchanged between the request side and the widget side for one
//! evaluation of a wait condition.

use vstd::prelude::*;

verus! {

/// Result of evaluating a wait condition for one tick.
#[derive(Debug, Clone, Copy, PartialEq, Eq, Structural)]
pub enum WaitTickOutcome {
    Matched,
    NotYet,
}

/// Permanent failures while evaluating a wait condition; a selector that
/// matches nothing is not one of them (it is retried).
#[derive(Debug, Clone, PartialEq, Eq)]
pub enum WaitEvalError {
    InvalidSelector(String),
    UnsupportedPropertyType(String),
    Internal(String),
}

/// Outcome of one wait tick.
#[derive(Debug, Clone, PartialEq, Eq)]
pub enum WaitTickResult {
    Outcome(WaitTickOutcome),
    SelectorNotFound,
    PermanentFailure(WaitEvalError),
}

} // verus!
