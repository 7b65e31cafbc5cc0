//! Evaluation of wait conditions and the decisions of the polling loop.
//!
//! A wait request is polled: each tick evaluates the condition once; a match
//! ends the wait, a permanent failure ends it with an error, anything else is
//! retried every `POLL_INTERVAL_MS` until the timeout.

use vstd::prelude::*;

use crate::json::{json_eq, json_pointer, JsonValue};
use crate::main_thread::{WaitEvalError, WaitTickOutcome, WaitTickResult};
use crate::proto::{WaitCondition, WaitResult};
use crate::state::AppDefinedState;
use crate::tree::{
    find_first, first_match, parse_selector, preorder_all, prop_entry, selector_of,
    selector_refusal, WidgetTree,
};

verus! {

/// Why a property could not be read as JSON.
#[derive(Debug, Clone, PartialEq, Eq)]
pub enum PropReadError {
    /// The property exists but its type (named here) has no JSON mapping.
    Unsupported(String),
    /// The widget has no property of that name.
    Missing,
}

/// Errors of a wait request.
#[derive(Debug, Clone, PartialEq, Eq)]
pub enum WaitError {
    InvalidTimeout(&'static str),
    Eval(WaitEvalError),
    Timeout,
    Internal(String),
}

/// Pause between two ticks, in milliseconds.
pub const POLL_INTERVAL_MS: u64 = 100;

/// Largest accepted `timeout_ms` (ten minutes).
pub const MAX_TIMEOUT_MS: u64 = 600_000;

/// What one tick of `eval_condition` yields for a selector-based condition
/// whose selector parsed, given the first matching node (if any).
pub open spec fn matched_if(b: bool) -> WaitTickOutcome {
    if b {
        WaitTickOutcome::Matched
    } else {
        WaitTickOutcome::NotYet
    }
}

/// Evaluate one tick of `condition` against `tree`.
///
/// `SelectorVisible`: the first widget matching the selector must be visible
/// and mapped. `StateEq`: the first matching widget's property must equal the
/// expected value; a missing property is "not yet", an unsupported property
/// type is a permanent failure. A selector that does not parse is a permanent
/// failure; one that matches nothing yields `SelectorNotFound`.
/// `AppStateEq` is evaluated against the app-defined state (see
/// [`eval_app_state_eq`]), never against the widget tree: here it is a
/// permanent internal failure.
pub fn eval_condition(tree: &WidgetTree, condition: &WaitCondition) -> (r: WaitTickResult)
    ensures
        match condition {
            WaitCondition::SelectorVisible { selector } => match selector_refusal(selector@) {
                Some(reason) => r matches WaitTickResult::PermanentFailure(
                    WaitEvalError::InvalidSelector(m),
                ) && m@ == reason,
                None => match first_match(preorder_all(tree.roots@), selector_of(selector@)) {
                    None => r is SelectorNotFound,
                    Some(n) => r == WaitTickResult::Outcome(matched_if(n.visible && n.mapped)),
                },
            },
            WaitCondition::StateEq { selector, property, value } => match selector_refusal(
                selector@,
            ) {
                Some(reason) => r matches WaitTickResult::PermanentFailure(
                    WaitEvalError::InvalidSelector(m),
                ) && m@ == reason,
                None => match first_match(preorder_all(tree.roots@), selector_of(selector@)) {
                    None => r is SelectorNotFound,
                    Some(n) => match prop_entry(n.properties@, property@) {
                        Some(Ok(v)) => r == WaitTickResult::Outcome(matched_if(v@ == value@)),
                        Some(Err(PropReadError::Unsupported(t))) => r == WaitTickResult::PermanentFailure(
                            WaitEvalError::UnsupportedPropertyType(t),
                        ),
                        _ => r == WaitTickResult::Outcome(WaitTickOutcome::NotYet),
                    },
                },
            },
            WaitCondition::AppStateEq { .. } => r matches WaitTickResult::PermanentFailure(
                WaitEvalError::Internal(_),
            ),
        },
{
    match condition {
        WaitCondition::SelectorVisible { selector } => {
            let parsed = match parse_selector(selector.as_str()) {
                Ok(s) => s,
                Err(e) => {
                    return WaitTickResult::PermanentFailure(
                        WaitEvalError::InvalidSelector(e.reason.to_owned()),
                    );
                },
            };
            match find_first(tree, &parsed) {
                None => WaitTickResult::SelectorNotFound,
                Some(node) => {
                    if node.visible && node.mapped {
                        WaitTickResult::Outcome(WaitTickOutcome::Matched)
                    } else {
                        WaitTickResult::Outcome(WaitTickOutcome::NotYet)
                    }
                },
            }
        },
        WaitCondition::StateEq { selector, property, value } => {
            let parsed = match parse_selector(selector.as_str()) {
                Ok(s) => s,
                Err(e) => {
                    return WaitTickResult::PermanentFailure(
                        WaitEvalError::InvalidSelector(e.reason.to_owned()),
                    );
                },
            };
            match find_first(tree, &parsed) {
                None => WaitTickResult::SelectorNotFound,
                Some(node) => match node.read_property(property.as_str()) {
                    Ok(v) => {
                        if json_eq(&v, value) {
                            WaitTickResult::Outcome(WaitTickOutcome::Matched)
                        } else {
                            WaitTickResult::Outcome(WaitTickOutcome::NotYet)
                        }
                    },
                    Err(PropReadError::Unsupported(t)) => WaitTickResult::PermanentFailure(
                        WaitEvalError::UnsupportedPropertyType(t),
                    ),
                    Err(PropReadError::Missing) => WaitTickResult::Outcome(WaitTickOutcome::NotYet),
                },
            }
        },
        WaitCondition::AppStateEq { .. } => {
            WaitTickResult::PermanentFailure(
                WaitEvalError::Internal(String::from_str("app_state_eq_needs_app_state")),
            )
        },
    }
}

/// One tick of an `AppStateEq` condition: matched when JSON Pointer `path`
/// resolves in the app-defined state to a value equal to `value`; a path that
/// does not resolve, or a different value, is "not yet".
pub fn eval_app_state_eq(state: &AppDefinedState, path: &str, value: &JsonValue) -> (r:
    WaitTickResult)
    ensures
        r == WaitTickResult::Outcome(
            matched_if(json_pointer(state@, path@) == Some(value@)),
        ),
{
    match state.pointer(path) {
        Some(v) => {
            if json_eq(&v, value) {
                WaitTickResult::Outcome(WaitTickOutcome::Matched)
            } else {
                WaitTickResult::Outcome(WaitTickOutcome::NotYet)
            }
        },
        None => WaitTickResult::Outcome(WaitTickOutcome::NotYet),
    }
}

/// Refuse a timeout of zero (`"zero"`) or above `MAX_TIMEOUT_MS`
/// (`"excessive"`).
pub fn check_timeout(timeout_ms: u64) -> (r: Result<(), WaitError>)
    ensures
        timeout_ms == 0 ==> r == Err::<(), WaitError>(WaitError::InvalidTimeout("zero")),
        timeout_ms > MAX_TIMEOUT_MS ==> r == Err::<(), WaitError>(
            WaitError::InvalidTimeout("excessive"),
        ),
        1 <= timeout_ms <= MAX_TIMEOUT_MS ==> r is Ok,
{
    if timeout_ms == 0 {
        return Err(WaitError::InvalidTimeout("zero"));
    }
    if timeout_ms > MAX_TIMEOUT_MS {
        return Err(WaitError::InvalidTimeout("excessive"));
    }
    Ok(())
}

/// What the polling loop does after a tick.
#[derive(Debug, Clone, PartialEq, Eq)]
pub enum PollStep {
    /// The condition matched: answer with the elapsed time.
    Finish(WaitResult),
    /// Give up with this error.
    Fail(WaitError),
    /// Wait this many milliseconds, then tick again.
    Sleep(u64),
}

/// Decide the next step of a wait after a tick that produced `tick`, when
/// `elapsed_ms` have passed since the wait started and the deadline is
/// `timeout_ms` after the start.
pub fn poll_step(tick: WaitTickResult, elapsed_ms: u64, timeout_ms: u64) -> (r: PollStep)
    ensures
        r == poll_step_spec(tick, elapsed_ms, timeout_ms),
        r is Finish ==> tick == WaitTickResult::Outcome(WaitTickOutcome::Matched),
        (tick is SelectorNotFound || tick == WaitTickResult::Outcome(WaitTickOutcome::NotYet))
            && elapsed_ms >= timeout_ms ==> r == PollStep::Fail(WaitError::Timeout),
{
    match tick {
        WaitTickResult::Outcome(WaitTickOutcome::Matched) => PollStep::Finish(WaitResult { elapsed_ms }),
        WaitTickResult::PermanentFailure(e) => PollStep::Fail(WaitError::Eval(e)),
        _ => {
            if elapsed_ms >= timeout_ms {
                PollStep::Fail(WaitError::Timeout)
            } else if timeout_ms - elapsed_ms < POLL_INTERVAL_MS {
                PollStep::Sleep(timeout_ms - elapsed_ms)
            } else {
                PollStep::Sleep(POLL_INTERVAL_MS)
            }
        },
    }
}

/// Polling never sleeps past the deadline, always sleeps at least one
/// millisecond and never longer than the poll interval; a wait ends at the
/// latest on the first tick at or after its deadline.
pub proof fn law_poll_respects_deadline(tick: WaitTickResult, elapsed_ms: u64, timeout_ms: u64)
    ensures
        poll_step_spec(tick, elapsed_ms, timeout_ms) matches PollStep::Sleep(d) ==> 1 <= d
            <= POLL_INTERVAL_MS && elapsed_ms + d <= timeout_ms,
        elapsed_ms >= timeout_ms ==> !(poll_step_spec(tick, elapsed_ms, timeout_ms) is Sleep),
        tick matches WaitTickResult::PermanentFailure(e) ==> poll_step_spec(tick, elapsed_ms, timeout_ms)
            == PollStep::Fail(WaitError::Eval(e)),
{
}

/// A wait succeeds only on a tick where the condition matched, and then
/// reports the time elapsed; a matched tick always succeeds. A tick that
/// neither matched nor failed for good (not yet matched, selector not
/// found) at or past the deadline ends the wait with a timeout.
pub proof fn law_poll_finishes_only_when_matched(tick: WaitTickResult, elapsed_ms: u64, timeout_ms: u64)
    ensures
        poll_step_spec(tick, elapsed_ms, timeout_ms) is Finish ==> tick == WaitTickResult::Outcome(
            WaitTickOutcome::Matched,
        ),
        tick == WaitTickResult::Outcome(WaitTickOutcome::Matched) ==> poll_step_spec(
            tick,
            elapsed_ms,
            timeout_ms,
        ) == PollStep::Finish(WaitResult { elapsed_ms }),
        (tick is SelectorNotFound || tick == WaitTickResult::Outcome(WaitTickOutcome::NotYet))
            && elapsed_ms >= timeout_ms ==> poll_step_spec(tick, elapsed_ms, timeout_ms)
            == PollStep::Fail(WaitError::Timeout),
{
}

/// The step `poll_step` takes, as a spec function.
pub open spec fn poll_step_spec(tick: WaitTickResult, elapsed_ms: u64, timeout_ms: u64) -> PollStep {
    match tick {
        WaitTickResult::Outcome(WaitTickOutcome::Matched) => PollStep::Finish(WaitResult { elapsed_ms }),
        WaitTickResult::PermanentFailure(e) => PollStep::Fail(WaitError::Eval(e)),
        _ => if elapsed_ms >= timeout_ms {
            PollStep::Fail(WaitError::Timeout)
        } else if timeout_ms - elapsed_ms < POLL_INTERVAL_MS {
            PollStep::Sleep((timeout_ms - elapsed_ms) as u64)
        } else {
            PollStep::Sleep(POLL_INTERVAL_MS)
        },
    }
}

} // verus!
