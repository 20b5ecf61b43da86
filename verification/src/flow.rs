//! The check-execution flow: configuration types, retry classification, the
//! per-check state machine, and the end-of-flow decision of what to report.
//!
//! A check runs its request steps strictly in order. A transport error or a
//! 5xx response is retried out of a per-step attempt budget; any other
//! response ends the step. When the last step succeeds the final response
//! is diffed against the stored baseline and persisted; when the budget
//! runs out the whole check fails and no diff is attempted.

use vstd::prelude::*;

verus! {

use crate::diff::Difference;
use crate::diff::compute_spec;
use crate::diff::facts_view;
use crate::diff::ign_views;
use crate::json::JsonValue;
use crate::response::HttpResponseData;

/// The default bound on concurrent in-flight requests per target URL.
pub const DEFAULT_REQUESTS_PER_HOST: usize = 30;

/// The default number of attempts each step may use.
pub const DEFAULT_MAX_RETRIES: u16 = 3;

/// One request step of a check: the target, extra headers, and an optional
/// JSON body; a step without a body is a plain read.
pub struct RequestConfig {
    pub url: String,
    pub headers: Vec<(String, String)>,
    pub body: Option<JsonValue>,
}

/// One check: its key, its ordered request steps, and the JSON-pointer
/// paths whose subtrees the diff ignores.
pub struct RequestFlowConfig {
    pub id: String,
    pub flow: Vec<RequestConfig>,
    pub ignore_paths: Option<Vec<String>>,
}

/// A configuration file: the checks to run.
pub struct SanityCheckConfig {
    pub requests: Vec<RequestFlowConfig>,
}

/// The attempt budget actually used: the configured value with a floor of
/// one attempt.
pub fn effective_max_retries(configured: u16) -> (r: u16)
    ensures
        r == if configured == 0 {
            1u16
        } else {
            configured
        },
        r >= 1,
{
    if configured == 0 {
        1
    } else {
        configured
    }
}

/// Whether a response status is retried: server errors are, anything else
/// — including client errors — counts as a completed step.
pub fn is_retryable_status(status_code: u16) -> (r: bool)
    ensures
        r == (status_code >= 500),
{
    status_code >= 500
}

/// What one step attempt came back with.
#[derive(Debug, Clone, PartialEq, Eq)]
pub enum StepEvent {
    Response { status_code: u16 },
    TransportError,
}

/// Where one check stands.
#[derive(Debug, Clone, PartialEq, Eq)]
pub enum FlowState {
    /// Step `step` is being executed with `attempts_left` attempts in its
    /// budget.
    Executing { step: usize, attempts_left: u16 },
    /// Every step completed; the final response is diffed and persisted.
    Complete,
    /// A step exhausted its budget; the check failed, and no diff is
    /// attempted.
    Failed,
}

/// What the runner does next.
#[derive(Debug, Clone, PartialEq, Eq)]
pub enum FlowAction {
    /// Issue the request of step `step`.
    SendRequest { step: usize },
    /// Diff the final response against the baseline and persist it.
    RunCheckAndPersist,
    /// Report the check as failed.
    ReportFailure,
    /// Nothing; the check already ended.
    Idle,
}

/// The state a check starts in.
pub fn start_flow(max_retries: u16) -> (s: FlowState)
    requires
        max_retries >= 1,
    ensures
        s == (FlowState::Executing { step: 0, attempts_left: max_retries }),
{
    FlowState::Executing { step: 0, attempts_left: max_retries }
}

/// The next state and action after one step attempt: a response below 500
/// completes the step — the last step completes the check, any other step
/// starts the next one with a fresh budget; a transport error or a 5xx
/// response retries the same step while budget remains and fails the check
/// when it runs out; terminal states stay as they are.
pub open spec fn flow_next(
    state: FlowState,
    event: StepEvent,
    n_steps: usize,
    max_retries: u16,
) -> (FlowState, FlowAction) {
    match state {
        FlowState::Executing { step, attempts_left } => {
            let step_done = event matches StepEvent::Response { status_code } && status_code
                < 500;
            if step_done {
                if step + 1 == n_steps {
                    (FlowState::Complete, FlowAction::RunCheckAndPersist)
                } else {
                    (
                        FlowState::Executing { step: (step + 1) as usize, attempts_left: max_retries },
                        FlowAction::SendRequest { step: (step + 1) as usize },
                    )
                }
            } else {
                if attempts_left > 1 {
                    (
                        FlowState::Executing { step, attempts_left: (attempts_left - 1) as u16 },
                        FlowAction::SendRequest { step },
                    )
                } else {
                    (FlowState::Failed, FlowAction::ReportFailure)
                }
            }
        },
        FlowState::Complete => (FlowState::Complete, FlowAction::Idle),
        FlowState::Failed => (FlowState::Failed, FlowAction::Idle),
    }
}

/// Advances one check by one step attempt.
pub fn advance_flow(state: &FlowState, event: &StepEvent, n_steps: usize, max_retries: u16) -> (r:
    (FlowState, FlowAction))
    requires
        state matches FlowState::Executing { step, .. } ==> step < n_steps,
    ensures
        r == flow_next(*state, *event, n_steps, max_retries),
        r.0 matches FlowState::Executing { step, .. } ==> step < n_steps,
{
    match state {
        FlowState::Executing { step, attempts_left } => {
            let step_done = match event {
                StepEvent::Response { status_code } => *status_code < 500,
                StepEvent::TransportError => false,
            };
            if step_done {
                if *step + 1 == n_steps {
                    (FlowState::Complete, FlowAction::RunCheckAndPersist)
                } else {
                    (
                        FlowState::Executing { step: *step + 1, attempts_left: max_retries },
                        FlowAction::SendRequest { step: *step + 1 },
                    )
                }
            } else {
                if *attempts_left > 1 {
                    (
                        FlowState::Executing { step: *step, attempts_left: *attempts_left - 1 },
                        FlowAction::SendRequest { step: *step },
                    )
                } else {
                    (FlowState::Failed, FlowAction::ReportFailure)
                }
            }
        },
        FlowState::Complete => (FlowState::Complete, FlowAction::Idle),
        FlowState::Failed => (FlowState::Failed, FlowAction::Idle),
    }
}

/// Decides what a completed check reports: nothing in baseline-recording
/// mode or without a stored baseline; otherwise the differences against
/// the baseline, and only when there is at least one.
pub fn evaluate_check(
    prev: Option<&HttpResponseData>,
    current: &HttpResponseData,
    baseline_mode: bool,
    headers_ignored: bool,
    ignore_paths: Option<&Vec<String>>,
) -> (r: Option<Vec<Difference>>)
    ensures
        baseline_mode ==> r is None,
        !baseline_mode ==> match prev {
            None => r is None,
            Some(p) => {
                let fs = compute_spec(*p, *current, headers_ignored, ign_views(ignore_paths));
                if fs.len() == 0 {
                    r is None
                } else {
                    r matches Some(v) && facts_view(v@) == fs && v@.len() > 0
                }
            },
        },
{
    if baseline_mode {
        return None;
    }
    match prev {
        None => None,
        Some(p) => {
            let differences = crate::diff::compute_differences(
                p,
                current,
                headers_ignored,
                ignore_paths,
            );
            if differences.len() == 0 {
                None
            } else {
                Some(differences)
            }
        },
    }
}

} // verus!
