//! The agent loop as a state machine: each event (the clock, counted tokens,
//! the LLM's reply, a tool call's turn, a confirmation, finished executions)
//! moves the loop on and names the one action the caller performs next.
use vstd::prelude::*;

use crate::json::{field_str, json_error_message, parse_json_or_error, parsed_json, Json};
use crate::loop_control::{
    charge_tokens, denied_message, gate_tool_call, guard_window, invalid_arguments_message,
    invalid_tool_calls_message, iteration_cap_message, iteration_signature, iteration_stop,
    missing_connection_message, not_allowed_message, spec_gate, spec_iteration_signature,
    stream_failure, token_budget_message, unknown_connection_message, wall_clock_message,
    window_stuck, LoopLimits, ParseFailures, RunawayGuard, StopReason, StreamFailure, ToolGate,
    PARSE_FAILURE_LIMIT,
};
use crate::json::decimal_digits;
use crate::loop_control::{error_type_or_empty, joined, spec_is_fatal, texts};
use crate::text::has_prefix;

verus! {

/// Where the loop stands.
#[derive(Debug, Clone, Copy, PartialEq, Eq, Structural)]
pub enum LoopPhase {
    /// At the top of an iteration, waiting for the elapsed time.
    AwaitTick,
    /// Waiting for the token count of the next request.
    AwaitTokens,
    /// Waiting for the LLM's reply.
    AwaitReply,
    /// Going through the reply's tool calls, one `Next` event each.
    AwaitNext,
    /// Waiting for the user to confirm the current tool call.
    AwaitConfirm,
    /// Waiting for the approved calls to be executed.
    AwaitExecution,
    /// The run is over.
    Finished,
}

/// What became of a tool call of the current reply.
#[derive(Debug, Clone, Copy, PartialEq, Eq, Structural)]
pub enum CallStatus {
    /// Its arguments are not valid JSON.
    Invalid,
    /// `gate_tool_call` refused it.
    Refused,
    /// Waiting for the user's confirmation.
    Pending,
    /// The user denied it.
    Denied,
    /// The user approved it.
    Approved,
}

/// What happened outside the loop.
pub enum LoopEvent {
    /// The loop is at the top of an iteration after `elapsed_secs`.
    Tick { elapsed_secs: u64 },
    /// The next request's input is estimated at `tokens`.
    Counted { tokens: usize },
    /// The LLM request failed with `error`.
    StreamFailed { error: String },
    /// The LLM replied with these tool calls, as `(name, arguments)`.
    Replied { calls: Vec<(String, String)> },
    /// The next tool call's turn; `required_params` names the tool's
    /// required parameters where they are known.
    Next { required_params: Option<String> },
    /// The user answered the confirmation of the current tool call.
    Confirmed { allowed: bool },
    /// The approved calls were executed.
    Executed,
}

/// What the caller does next.
pub enum LoopAction {
    /// Stop the run for `reason`, telling the user `message`.
    Stop { reason: StopReason, message: String },
    /// Prepare the history and count the next request's tokens.
    CountTokens,
    /// Send the request to the LLM.
    Request,
    /// Record the failed request, ending the run as `ending` says.
    ReportStreamFailure { ending: StreamFailure },
    /// Write the reply (it has no tool calls); the run is done.
    WriteReply,
    /// Write the runaway message; the run is over.
    Runaway,
    /// Write the assistant message that announces the tool calls.
    WriteCalls,
    /// Record call `index` as failed with the tool message `message`; where
    /// `stop_message` is given, write it and end the run.
    RecordInvalid { index: usize, message: String, stop_message: Option<String> },
    /// Record call `index` as pending, then as failed with `message`.
    Refuse { index: usize, message: String },
    /// Record call `index` as pending and ask the user to confirm it; its
    /// parsed arguments and the decision of `gate_tool_call` come along.
    AskConfirmation { index: usize, arguments: Json, gate: ToolGate },
    /// Record call `index` as denied with the tool message `message`.
    Deny { index: usize, message: String },
    /// Record call `index` as approved.
    Approve { index: usize },
    /// Execute these approved calls.
    Execute { indices: Vec<usize> },
    /// Start the next iteration.
    Continue,
    /// The run ends without anything more to do.
    Done,
    /// The event does not fit the phase; nothing changes.
    Unexpected,
}

/// The text of an action.
pub enum LoopActionView {
    Stop { reason: StopReason, message: Seq<char> },
    CountTokens,
    Request,
    ReportStreamFailure { ending: StreamFailure },
    WriteReply,
    Runaway,
    WriteCalls,
    RecordInvalid { index: int, message: Seq<char>, stop_message: Option<Seq<char>> },
    Refuse { index: int, message: Seq<char> },
    AskConfirmation { index: int, arguments: Json, gate: ToolGate },
    Deny { index: int, message: Seq<char> },
    Approve { index: int },
    Execute { indices: Seq<usize> },
    Continue,
    Done,
    Unexpected,
}

impl View for LoopAction {
    type V = LoopActionView;

    open spec fn view(&self) -> LoopActionView {
        match self {
            LoopAction::Stop { reason, message } => LoopActionView::Stop {
                reason: *reason,
                message: message@,
            },
            LoopAction::CountTokens => LoopActionView::CountTokens,
            LoopAction::Request => LoopActionView::Request,
            LoopAction::ReportStreamFailure { ending } => LoopActionView::ReportStreamFailure {
                ending: *ending,
            },
            LoopAction::WriteReply => LoopActionView::WriteReply,
            LoopAction::Runaway => LoopActionView::Runaway,
            LoopAction::WriteCalls => LoopActionView::WriteCalls,
            LoopAction::RecordInvalid { index, message, stop_message } => LoopActionView::RecordInvalid {
                index: *index as int,
                message: message@,
                stop_message: match stop_message {
                    Some(m) => Some(m@),
                    None => None,
                },
            },
            LoopAction::Refuse { index, message } => LoopActionView::Refuse {
                index: *index as int,
                message: message@,
            },
            LoopAction::AskConfirmation { index, arguments, gate } => LoopActionView::AskConfirmation {
                index: *index as int,
                arguments: *arguments,
                gate: *gate,
            },
            LoopAction::Deny { index, message } => LoopActionView::Deny {
                index: *index as int,
                message: message@,
            },
            LoopAction::Approve { index } => LoopActionView::Approve { index: *index as int },
            LoopAction::Execute { indices } => LoopActionView::Execute { indices: indices@ },
            LoopAction::Continue => LoopActionView::Continue,
            LoopAction::Done => LoopActionView::Done,
            LoopAction::Unexpected => LoopActionView::Unexpected,
        }
    }
}

/// The state of the loop as values.
pub struct LoopView {
    pub phase: LoopPhase,
    pub limits: LoopLimits,
    /// Iterations started.
    pub iterations: nat,
    /// Requests sent to the LLM.
    pub requests: nat,
    /// Input tokens charged so far.
    pub tokens: nat,
    /// The runaway guard's window of recent signatures.
    pub window: Seq<Seq<char>>,
    /// Consecutive argument-parse failures per tool name.
    pub failures: Map<Seq<char>, nat>,
    pub allowed_tools: Seq<String>,
    pub connection_ids: Seq<String>,
    /// The tool calls of the current reply, as `(name, arguments)`.
    pub calls: Seq<(String, String)>,
    /// What became of each call of the current reply handled so far.
    pub statuses: Seq<CallStatus>,
}

/// The indices of the approved calls, in order.
pub open spec fn approved_indices(statuses: Seq<CallStatus>) -> Seq<usize>
    decreases statuses.len(),
{
    if statuses.len() == 0 {
        Seq::empty()
    } else {
        let rest = approved_indices(statuses.drop_last());
        if statuses.last() == CallStatus::Approved {
            rest.push((statuses.len() - 1) as usize)
        } else {
            rest
        }
    }
}

/// The text of the optional required-parameter list.
pub open spec fn opt_text(o: Option<String>) -> Option<Seq<char>> {
    match o {
        Some(s) => Some(s@),
        None => None,
    }
}

/// The tool message for arguments that do not parse.
pub open spec fn invalid_arguments_text(name: Seq<char>, error: Seq<char>, required: Option<Seq<char>>) -> Seq<char> {
    "Invalid arguments for '"@ + name + "': "@ + error + "."@ + match required {
        Some(p) => " Required parameters: "@ + p + "."@,
        None => Seq::empty(),
    }
}

/// The message that stops the loop after repeated invalid arguments.
pub open spec fn invalid_calls_text(name: Seq<char>, hint: Seq<char>) -> Seq<char> {
    if hint.len() == 0 {
        "Model keeps generating invalid tool calls for '"@ + name
            + "'. Try rephrasing your request or switch to a model with better function-calling support."@
    } else {
        "Model keeps generating invalid tool calls for '"@ + name
            + "'. The tool requires valid JSON arguments with fields: "@ + hint
            + ". Try rephrasing your request to include all required parameters, or switch to a model with better function-calling support."@
    }
}

/// The tool message for a call that `gate_tool_call` refused.
pub open spec fn refusal_text(name: Seq<char>, arguments: Json, gate: ToolGate, connection_ids: Seq<String>) -> Seq<char> {
    match gate {
        ToolGate::NotAllowed => "Tool '"@ + name + "' is not allowed in this session."@,
        ToolGate::UnknownConnection => "Unknown connection_id '"@ + field_str(arguments, "connection_id"@)->0
            + "' for tool '"@ + name + "'."@,
        _ => "Tool '"@ + name + "' requires a connection_id argument. Available connections: "@
            + joined(texts(connection_ids), ", "@) + "."@,
    }
}

/// `gate_tool_call` lets the call on to confirmation.
pub open spec fn gate_passes(gate: ToolGate) -> bool {
    gate is Connection || gate is Fallback
}

/// One step of the loop: the state after `event` and the action to take.
pub open spec fn spec_loop_step(s: LoopView, event: LoopEvent) -> (LoopView, LoopActionView) {
    match (s.phase, event) {
        (LoopPhase::AwaitTick, LoopEvent::Tick { elapsed_secs }) => {
            if s.iterations >= s.limits.max_iterations {
                (
                    LoopView { phase: LoopPhase::Finished, ..s },
                    LoopActionView::Stop {
                        reason: StopReason::IterationCap,
                        message: "Agent paused after "@ + decimal_digits(s.iterations)
                            + " iterations (configured cap). The task may need more work — reply 'continue' or raise the cap in settings."@,
                    },
                )
            } else if elapsed_secs >= s.limits.wall_clock_budget_secs {
                (
                    LoopView { phase: LoopPhase::Finished, ..s },
                    LoopActionView::Stop {
                        reason: StopReason::WallClockBudget,
                        message: "Agent paused after "@ + decimal_digits((elapsed_secs / 60) as nat)
                            + "m wall-clock budget. Reply 'continue' to keep going or raise the budget in settings."@,
                    },
                )
            } else {
                (
                    LoopView { phase: LoopPhase::AwaitTokens, iterations: s.iterations + 1, ..s },
                    LoopActionView::CountTokens,
                )
            }
        },
        (LoopPhase::AwaitTokens, LoopEvent::Counted { tokens }) => {
            let total: nat = if s.tokens + tokens <= usize::MAX {
                (s.tokens + tokens) as nat
            } else {
                usize::MAX as nat
            };
            if total >= s.limits.token_budget {
                (
                    LoopView { phase: LoopPhase::Finished, tokens: total, ..s },
                    LoopActionView::Stop {
                        reason: StopReason::TokenBudget,
                        message: "Agent paused after consuming "@ + decimal_digits(total)
                            + " input tokens (configured budget "@ + decimal_digits(
                            s.limits.token_budget as nat,
                        ) + "). Reply 'continue' to keep going or raise the budget in settings."@,
                    },
                )
            } else {
                (
                    LoopView {
                        phase: LoopPhase::AwaitReply,
                        tokens: total,
                        requests: s.requests + 1,
                        ..s
                    },
                    LoopActionView::Request,
                )
            }
        },
        (LoopPhase::AwaitReply, LoopEvent::StreamFailed { error }) => (
            LoopView { phase: LoopPhase::Finished, ..s },
            LoopActionView::ReportStreamFailure {
                ending: if spec_is_fatal(error_type_or_empty(error@)) || has_prefix(
                    error@,
                    "LLM HTTP 4"@,
                ) {
                    StreamFailure::Error
                } else {
                    StreamFailure::Stopped
                },
            },
        ),
        (LoopPhase::AwaitReply, LoopEvent::Replied { calls }) => {
            if calls@.len() == 0 {
                (LoopView { phase: LoopPhase::Finished, ..s }, LoopActionView::WriteReply)
            } else {
                let sig = spec_iteration_signature(calls@);
                let w = guard_window(s.window, sig);
                if window_stuck(w, sig) {
                    (LoopView { phase: LoopPhase::Finished, window: w, ..s }, LoopActionView::Runaway)
                } else {
                    (
                        LoopView {
                            phase: LoopPhase::AwaitNext,
                            window: w,
                            calls: calls@,
                            statuses: Seq::empty(),
                            ..s
                        },
                        LoopActionView::WriteCalls,
                    )
                }
            }
        },
        (LoopPhase::AwaitNext, LoopEvent::Next { required_params }) => {
            let i = s.statuses.len() as int;
            if i >= s.calls.len() {
                let ix = approved_indices(s.statuses);
                if ix.len() == 0 {
                    (LoopView { phase: LoopPhase::Finished, ..s }, LoopActionView::Done)
                } else {
                    (
                        LoopView { phase: LoopPhase::AwaitExecution, ..s },
                        LoopActionView::Execute { indices: ix },
                    )
                }
            } else {
                let name = s.calls[i].0@;
                let args = s.calls[i].1@;
                match parsed_json(args) {
                    None => {
                        let old_count = if s.failures.contains_key(name) {
                            s.failures[name]
                        } else {
                            0
                        };
                        let count: nat = if old_count < usize::MAX {
                            old_count + 1
                        } else {
                            usize::MAX as nat
                        };
                        let message = invalid_arguments_text(
                            name,
                            json_error_message(args),
                            opt_text(required_params),
                        );
                        let t = LoopView {
                            failures: s.failures.insert(name, count),
                            statuses: s.statuses.push(CallStatus::Invalid),
                            ..s
                        };
                        if count >= PARSE_FAILURE_LIMIT {
                            (
                                LoopView { phase: LoopPhase::Finished, ..t },
                                LoopActionView::RecordInvalid {
                                    index: i,
                                    message,
                                    stop_message: Some(
                                        invalid_calls_text(
                                            name,
                                            match required_params {
                                                Some(p) => p@,
                                                None => Seq::empty(),
                                            },
                                        ),
                                    ),
                                },
                            )
                        } else {
                            (t, LoopActionView::RecordInvalid { index: i, message, stop_message: None })
                        }
                    },
                    Some(v) => {
                        let gate = spec_gate(name, s.allowed_tools, v, s.connection_ids);
                        let t = LoopView { failures: s.failures.insert(name, 0), ..s };
                        if gate_passes(gate) {
                            (
                                LoopView {
                                    phase: LoopPhase::AwaitConfirm,
                                    statuses: s.statuses.push(CallStatus::Pending),
                                    ..t
                                },
                                LoopActionView::AskConfirmation { index: i, arguments: v, gate },
                            )
                        } else {
                            (
                                LoopView { statuses: s.statuses.push(CallStatus::Refused), ..t },
                                LoopActionView::Refuse {
                                    index: i,
                                    message: refusal_text(name, v, gate, s.connection_ids),
                                },
                            )
                        }
                    },
                }
            }
        },
        (LoopPhase::AwaitConfirm, LoopEvent::Confirmed { allowed }) => {
            let i = s.statuses.len() - 1;
            if allowed {
                (
                    LoopView {
                        phase: LoopPhase::AwaitNext,
                        statuses: s.statuses.update(i, CallStatus::Approved),
                        ..s
                    },
                    LoopActionView::Approve { index: i },
                )
            } else {
                (
                    LoopView {
                        phase: LoopPhase::AwaitNext,
                        statuses: s.statuses.update(i, CallStatus::Denied),
                        ..s
                    },
                    LoopActionView::Deny {
                        index: i,
                        message: "Tool call '"@ + s.calls[i].0@
                            + "' was denied by the user. Try an alternative approach."@,
                    },
                )
            }
        },
        (LoopPhase::AwaitExecution, LoopEvent::Executed) => (
            LoopView { phase: LoopPhase::AwaitTick, ..s },
            LoopActionView::Continue,
        ),
        (LoopPhase::Finished, _) => (s, LoopActionView::Done),
        _ => (s, LoopActionView::Unexpected),
    }
}

/// A state the loop can be in: the counters stay within the limits, and
/// the statuses fit the phase.
pub open spec fn loop_wf(s: LoopView) -> bool {
    &&& s.requests <= s.iterations <= s.limits.max_iterations
    &&& s.phase == LoopPhase::AwaitTokens ==> s.requests < s.iterations
    &&& s.tokens <= usize::MAX
    &&& s.statuses.len() <= s.calls.len() <= usize::MAX
    &&& s.phase == LoopPhase::AwaitConfirm ==> s.statuses.len() >= 1 && s.statuses.last()
        == CallStatus::Pending && forall|k: int|
        0 <= k < s.statuses.len() - 1 ==> #[trigger] s.statuses[k] != CallStatus::Pending
    &&& s.phase != LoopPhase::AwaitConfirm ==> forall|k: int|
        0 <= k < s.statuses.len() ==> #[trigger] s.statuses[k] != CallStatus::Pending
}

/// The agent loop's state.
pub struct LoopState {
    phase: LoopPhase,
    limits: LoopLimits,
    iterations: usize,
    requests: usize,
    tokens: usize,
    guard: RunawayGuard,
    failures: ParseFailures,
    allowed_tools: Vec<String>,
    connection_ids: Vec<String>,
    calls: Vec<(String, String)>,
    statuses: Vec<CallStatus>,
}

/// The failure counts as a map over all tool names.
pub open spec fn failure_map(f: ParseFailures) -> Map<Seq<char>, nat> {
    Map::new(|n: Seq<char>| true, |n: Seq<char>| f.count(n))
}

impl View for LoopState {
    type V = LoopView;

    closed spec fn view(&self) -> LoopView {
        LoopView {
            phase: self.phase,
            limits: self.limits,
            iterations: self.iterations as nat,
            requests: self.requests as nat,
            tokens: self.tokens as nat,
            window: self.guard.window(),
            failures: failure_map(self.failures),
            allowed_tools: self.allowed_tools@,
            connection_ids: self.connection_ids@,
            calls: self.calls@,
            statuses: self.statuses@,
        }
    }
}

impl LoopState {
    pub closed spec fn wf(&self) -> bool {
        &&& self.guard.wf()
        &&& loop_wf(self@)
    }

    /// A run that has done nothing yet, with its limits, the session's tool
    /// names and the ids of the available connections.
    pub fn new(limits: LoopLimits, allowed_tools: Vec<String>, connection_ids: Vec<String>) -> (r: Self)
        ensures
            r.wf(),
            r@ == (LoopView {
                phase: LoopPhase::AwaitTick,
                limits,
                iterations: 0,
                requests: 0,
                tokens: 0,
                window: Seq::empty(),
                failures: Map::new(|n: Seq<char>| true, |n: Seq<char>| 0nat),
                allowed_tools: allowed_tools@,
                connection_ids: connection_ids@,
                calls: Seq::empty(),
                statuses: Seq::empty(),
            }),
    {
        let r = LoopState {
            phase: LoopPhase::AwaitTick,
            limits,
            iterations: 0,
            requests: 0,
            tokens: 0,
            guard: RunawayGuard::new(),
            failures: ParseFailures::new(),
            allowed_tools,
            connection_ids,
            calls: Vec::new(),
            statuses: Vec::new(),
        };
        assert(failure_map(r.failures) =~= Map::new(|n: Seq<char>| true, |n: Seq<char>| 0nat));
        assert(r@.calls =~= Seq::<(String, String)>::empty());
        assert(r@.statuses =~= Seq::<CallStatus>::empty());
        r
    }

    /// The iterations started so far.
    pub fn iterations(&self) -> (r: usize)
        ensures
            r == self@.iterations,
    {
        self.iterations
    }

    /// The limits of the run.
    pub fn limits(&self) -> (r: LoopLimits)
        ensures
            r == self@.limits,
    {
        self.limits
    }

    /// Where the loop stands.
    pub fn phase(&self) -> (r: LoopPhase)
        ensures
            r == self@.phase,
    {
        self.phase
    }
}

fn approved_of(statuses: &Vec<CallStatus>) -> (r: Vec<usize>)
    ensures
        r@ == approved_indices(statuses@),
{
    let mut out: Vec<usize> = Vec::new();
    let mut k: usize = 0;
    while k < statuses.len()
        invariant
            k <= statuses.len(),
            out@ == approved_indices(statuses@.subrange(0, k as int)),
        decreases statuses.len() - k,
    {
        let ghost pre = statuses@.subrange(0, k + 1);
        assert(pre.drop_last() =~= statuses@.subrange(0, k as int));
        if statuses[k] == CallStatus::Approved {
            out.push(k);
        }
        k = k + 1;
    }
    assert(statuses@.subrange(0, k as int) =~= statuses@);
    out
}

fn step_tick(state: &mut LoopState, elapsed_secs: u64) -> (action: LoopAction)
    requires
        old(state).wf(),
        old(state)@.phase == LoopPhase::AwaitTick,
    ensures
        final(state).wf(),
        (final(state)@, action@) == spec_loop_step(old(state)@, LoopEvent::Tick { elapsed_secs }),
{
    match iteration_stop(state.iterations, elapsed_secs, &state.limits) {
        Some(StopReason::IterationCap) => {
            state.phase = LoopPhase::Finished;
            LoopAction::Stop {
                reason: StopReason::IterationCap,
                message: iteration_cap_message(state.iterations),
            }
        },
        Some(reason) => {
            state.phase = LoopPhase::Finished;
            LoopAction::Stop { reason, message: wall_clock_message(elapsed_secs) }
        },
        None => {
            state.iterations = state.iterations + 1;
            state.phase = LoopPhase::AwaitTokens;
            LoopAction::CountTokens
        },
    }
}

fn step_counted(state: &mut LoopState, tokens: usize) -> (action: LoopAction)
    requires
        old(state).wf(),
        old(state)@.phase == LoopPhase::AwaitTokens,
    ensures
        final(state).wf(),
        (final(state)@, action@) == spec_loop_step(old(state)@, LoopEvent::Counted { tokens }),
{
    let (total, over) = charge_tokens(state.tokens, tokens, &state.limits);
    state.tokens = total;
    if over {
        state.phase = LoopPhase::Finished;
        LoopAction::Stop {
            reason: StopReason::TokenBudget,
            message: token_budget_message(total, state.limits.token_budget),
        }
    } else {
        state.requests = state.requests + 1;
        state.phase = LoopPhase::AwaitReply;
        LoopAction::Request
    }
}

fn step_replied(state: &mut LoopState, calls: Vec<(String, String)>) -> (action: LoopAction)
    requires
        old(state).wf(),
        old(state)@.phase == LoopPhase::AwaitReply,
    ensures
        final(state).wf(),
        (final(state)@, action@) == spec_loop_step(old(state)@, LoopEvent::Replied { calls }),
{
    if calls.len() == 0 {
        state.phase = LoopPhase::Finished;
        return LoopAction::WriteReply;
    }
    let sig = iteration_signature(calls.as_slice());
    let stuck = state.guard.observe(sig.as_str());
    if stuck {
        state.phase = LoopPhase::Finished;
        LoopAction::Runaway
    } else {
        state.calls = calls;
        state.statuses = Vec::new();
        state.phase = LoopPhase::AwaitNext;
        assert(state@.statuses =~= Seq::<CallStatus>::empty());
        LoopAction::WriteCalls
    }
}

fn step_next(state: &mut LoopState, required_params: Option<String>) -> (action: LoopAction)
    requires
        old(state).wf(),
        old(state)@.phase == LoopPhase::AwaitNext,
    ensures
        final(state).wf(),
        (final(state)@, action@) == spec_loop_step(old(state)@, LoopEvent::Next { required_params }),
{
    let ghost before0 = state@;
    let i = state.statuses.len();
    if i >= state.calls.len() {
        let ix = approved_of(&state.statuses);
        if ix.len() == 0 {
            state.phase = LoopPhase::Finished;
            let a = LoopAction::Done;
            assert((state@, a@) == spec_loop_step(before0, LoopEvent::Next { required_params }));
            a
        } else {
            state.phase = LoopPhase::AwaitExecution;
            let a = LoopAction::Execute { indices: ix };
            assert((state@, a@) == spec_loop_step(before0, LoopEvent::Next { required_params }));
            a
        }
    } else {
        let name: String = state.calls[i].0.as_str().to_owned();
        let args: String = state.calls[i].1.as_str().to_owned();
        let ghost before = state@;
        match parse_json_or_error(args.as_str()) {
            Err(error) => {
                let n = state.failures.record_failure(name.as_str());
                proof {
                    assert(before.failures.contains_key(name@));
                    assert(before.failures[name@] == old(state).failures.count(name@));
                    assert(failure_map(state.failures) =~= before.failures.insert(name@, n as nat));
                }
                state.statuses.push(CallStatus::Invalid);
                let required: Option<&str> = match &required_params {
                    Some(p) => Some(p.as_str()),
                    None => None,
                };
                let message = invalid_arguments_message(name.as_str(), error.as_str(), required);
                if n >= PARSE_FAILURE_LIMIT {
                    let hint: &str = match &required_params {
                        Some(p) => p.as_str(),
                        None => "",
                    };
                    proof {
                        reveal_strlit("");
                    }
                    assert(hint@ == match required_params {
                        Some(p) => p@,
                        None => Seq::<char>::empty(),
                    });
                    assert(message@ == invalid_arguments_text(name@, json_error_message(args@), opt_text(required_params)));
                    state.phase = LoopPhase::Finished;
                    let a = LoopAction::RecordInvalid {
                        index: i,
                        message,
                        stop_message: Some(invalid_tool_calls_message(name.as_str(), hint)),
                    };
                    assert((state@, a@) == spec_loop_step(before0, LoopEvent::Next { required_params }));
                    a
                } else {
                    assert(state@.statuses == before.statuses.push(CallStatus::Invalid));
                    assert(message@ == invalid_arguments_text(name@, json_error_message(args@), opt_text(required_params)));
                    let a = LoopAction::RecordInvalid { index: i, message, stop_message: None };
                    assert((state@, a@) == spec_loop_step(before0, LoopEvent::Next { required_params }));
                    a
                }
            },
            Ok(v) => {
                state.failures.record_success(name.as_str());
                proof {
                    assert(failure_map(state.failures) =~= before.failures.insert(name@, 0nat));
                }
                let gate = gate_tool_call(
                    name.as_str(),
                    state.allowed_tools.as_slice(),
                    &v,
                    state.connection_ids.as_slice(),
                );
                match gate {
                    ToolGate::Connection(_) | ToolGate::Fallback => {
                        state.statuses.push(CallStatus::Pending);
                        state.phase = LoopPhase::AwaitConfirm;
                        assert(gate_passes(gate));
                        assert(state@.failures == before.failures.insert(name@, 0nat));
                        assert(state@.statuses == before.statuses.push(CallStatus::Pending));
                        let a = LoopAction::AskConfirmation { index: i, arguments: v, gate };
                        assert((state@, a@) == spec_loop_step(before0, LoopEvent::Next { required_params }));
                        a
                    },
                    ToolGate::NotAllowed => {
                        state.statuses.push(CallStatus::Refused);
                        let a = LoopAction::Refuse { index: i, message: not_allowed_message(name.as_str()) };
                        assert((state@, a@) == spec_loop_step(before0, LoopEvent::Next { required_params }));
                        a
                    },
                    ToolGate::UnknownConnection => {
                        let id: &str = match v.get_str("connection_id") {
                            Some(id) => id,
                            None => "",
                        };
                        state.statuses.push(CallStatus::Refused);
                        let a = LoopAction::Refuse {
                            index: i,
                            message: unknown_connection_message(id, name.as_str()),
                        };
                        assert((state@, a@) == spec_loop_step(before0, LoopEvent::Next { required_params }));
                        a
                    },
                    ToolGate::MissingConnection => {
                        state.statuses.push(CallStatus::Refused);
                        let a = LoopAction::Refuse {
                            index: i,
                            message: missing_connection_message(
                                name.as_str(),
                                state.connection_ids.as_slice(),
                            ),
                        };
                        assert((state@, a@) == spec_loop_step(before0, LoopEvent::Next { required_params }));
                        a
                    },
                }
            },
        }
    }
}

fn step_confirmed(state: &mut LoopState, allowed: bool) -> (action: LoopAction)
    requires
        old(state).wf(),
        old(state)@.phase == LoopPhase::AwaitConfirm,
    ensures
        final(state).wf(),
        (final(state)@, action@) == spec_loop_step(old(state)@, LoopEvent::Confirmed { allowed }),
{
    let i = state.statuses.len() - 1;
    state.phase = LoopPhase::AwaitNext;
    if allowed {
        state.statuses.set(i, CallStatus::Approved);
        LoopAction::Approve { index: i }
    } else {
        state.statuses.set(i, CallStatus::Denied);
        LoopAction::Deny { index: i, message: denied_message(state.calls[i].0.as_str()) }
    }
}

/// Moves the loop on by `event` and names the action to take next.
pub fn loop_step(state: &mut LoopState, event: LoopEvent) -> (action: LoopAction)
    requires
        old(state).wf(),
    ensures
        final(state).wf(),
        (final(state)@, action@) == spec_loop_step(old(state)@, event),
{
    match (state.phase, event) {
        (LoopPhase::AwaitTick, LoopEvent::Tick { elapsed_secs }) => step_tick(state, elapsed_secs),
        (LoopPhase::AwaitTokens, LoopEvent::Counted { tokens }) => step_counted(state, tokens),
        (LoopPhase::AwaitReply, LoopEvent::StreamFailed { error }) => {
            state.phase = LoopPhase::Finished;
            LoopAction::ReportStreamFailure { ending: stream_failure(error.as_str()) }
        },
        (LoopPhase::AwaitReply, LoopEvent::Replied { calls }) => step_replied(state, calls),
        (LoopPhase::AwaitNext, LoopEvent::Next { required_params }) => step_next(
            state,
            required_params,
        ),
        (LoopPhase::AwaitConfirm, LoopEvent::Confirmed { allowed }) => step_confirmed(state, allowed),
        (LoopPhase::AwaitExecution, LoopEvent::Executed) => {
            state.phase = LoopPhase::AwaitTick;
            LoopAction::Continue
        },
        (LoopPhase::Finished, _) => LoopAction::Done,
        _ => LoopAction::Unexpected,
    }
}

// ---------------------------------------------------------------------------
// Laws
// ---------------------------------------------------------------------------

/// The state after the events `events`, taken in order from `s`.
pub open spec fn run_state(s: LoopView, events: Seq<LoopEvent>) -> LoopView
    decreases events.len(),
{
    if events.len() == 0 {
        s
    } else {
        run_state(spec_loop_step(s, events[0]).0, events.drop_first())
    }
}

/// The actions named along the events `events`, taken in order from `s`.
pub open spec fn run_actions(s: LoopView, events: Seq<LoopEvent>) -> Seq<LoopActionView>
    decreases events.len(),
{
    if events.len() == 0 {
        Seq::empty()
    } else {
        seq![spec_loop_step(s, events[0]).1] + run_actions(spec_loop_step(s, events[0]).0, events.drop_first())
    }
}

/// How many of `actions` send a request to the LLM.
pub open spec fn request_count(actions: Seq<LoopActionView>) -> nat
    decreases actions.len(),
{
    if actions.len() == 0 {
        0
    } else {
        (if actions[0] is Request {
            1nat
        } else {
            0nat
        }) + request_count(actions.drop_first())
    }
}

/// The state of a run that has done nothing yet.
pub open spec fn initial_view(limits: LoopLimits, allowed_tools: Seq<String>, connection_ids: Seq<String>) -> LoopView {
    LoopView {
        phase: LoopPhase::AwaitTick,
        limits,
        iterations: 0,
        requests: 0,
        tokens: 0,
        window: Seq::empty(),
        failures: Map::new(|n: Seq<char>| true, |n: Seq<char>| 0nat),
        allowed_tools,
        connection_ids,
        calls: Seq::empty(),
        statuses: Seq::empty(),
    }
}

/// One step keeps the loop well formed, keeps its limits, and counts each
/// request it sends.
pub proof fn lemma_step_keeps_wf(s: LoopView, e: LoopEvent)
    requires
        loop_wf(s),
    ensures
        loop_wf(spec_loop_step(s, e).0),
        spec_loop_step(s, e).0.limits == s.limits,
        spec_loop_step(s, e).0.requests == s.requests + (if spec_loop_step(s, e).1 is Request {
            1nat
        } else {
            0nat
        }),
{
    let (t, a) = spec_loop_step(s, e);
    match e {
        LoopEvent::Replied { calls } => {
            assert(calls@.len() == calls.len());
        },
        _ => {},
    }
    if s.phase == LoopPhase::AwaitConfirm && e is Confirmed {
        assert forall|k: int| 0 <= k < t.statuses.len() implies #[trigger] t.statuses[k]
            != CallStatus::Pending by {
            if k < s.statuses.len() - 1 {
                assert(t.statuses[k] == s.statuses[k]);
            }
        }
    }
    if s.phase == LoopPhase::AwaitNext && e is Next && s.statuses.len() < s.calls.len() {
        assert forall|k: int| 0 <= k < t.statuses.len() - 1 implies #[trigger] t.statuses[k]
            != CallStatus::Pending by {
            assert(t.statuses[k] == s.statuses[k]);
        }
        assert forall|k: int| 0 <= k < t.statuses.len() && t.phase != LoopPhase::AwaitConfirm implies #[trigger] t.statuses[k]
            != CallStatus::Pending by {
            if k < s.statuses.len() {
                assert(t.statuses[k] == s.statuses[k]);
            }
        }
    }
}

proof fn lemma_run_counts_requests(s: LoopView, events: Seq<LoopEvent>)
    requires
        loop_wf(s),
    ensures
        s.requests + request_count(run_actions(s, events)) == run_state(s, events).requests,
        loop_wf(run_state(s, events)),
        run_state(s, events).limits == s.limits,
    decreases events.len(),
{
    if events.len() > 0 {
        lemma_step_keeps_wf(s, events[0]);
        let (t, a) = spec_loop_step(s, events[0]);
        lemma_run_counts_requests(t, events.drop_first());
        let acts = run_actions(s, events);
        assert(acts[0] == a);
        assert(acts.drop_first() =~= run_actions(t, events.drop_first()));
    }
}

/// A run sends at most `max_iterations` requests to the LLM, whatever
/// happens outside it.
pub proof fn lemma_at_most_max_iterations_requests(
    limits: LoopLimits,
    allowed_tools: Seq<String>,
    connection_ids: Seq<String>,
    events: Seq<LoopEvent>,
)
    ensures
        request_count(run_actions(initial_view(limits, allowed_tools, connection_ids), events))
            <= limits.max_iterations,
{
    let s0 = initial_view(limits, allowed_tools, connection_ids);
    lemma_run_counts_requests(s0, events);
}

/// Once over, a run stays over and names no more work.
pub proof fn lemma_finished_stays_finished(s: LoopView, events: Seq<LoopEvent>)
    requires
        s.phase == LoopPhase::Finished,
    ensures
        run_state(s, events) == s,
        run_actions(s, events).len() == events.len(),
        forall|k: int| 0 <= k < events.len() ==> #[trigger] run_actions(s, events)[k] is Done,
    decreases events.len(),
{
    if events.len() > 0 {
        lemma_finished_stays_finished(s, events.drop_first());
        assert(spec_loop_step(s, events[0]) == (s, LoopActionView::Done));
        assert(run_actions(s, events) == seq![LoopActionView::Done] + run_actions(s, events.drop_first()));
        assert forall|k: int| 0 <= k < events.len() implies #[trigger] run_actions(s, events)[k] is Done by {
            if k > 0 {
                assert(run_actions(s, events)[k] == run_actions(s, events.drop_first())[k - 1]);
            }
        }
    }
}

/// A reply whose tool calls have the signature of the two replies before
/// it stops the run with the runaway message, and nothing is executed
/// afterwards.
pub proof fn lemma_third_repeat_stops_before_execution(
    s: LoopView,
    calls: Vec<(String, String)>,
    rest: Seq<LoopEvent>,
)
    requires
        s.phase == LoopPhase::AwaitReply,
        s.window.len() <= 3,
        calls@.len() > 0,
        s.window.len() >= 2,
        s.window[s.window.len() - 1] == spec_iteration_signature(calls@),
        s.window[s.window.len() - 2] == spec_iteration_signature(calls@),
    ensures
        spec_loop_step(s, LoopEvent::Replied { calls }).1 is Runaway,
        spec_loop_step(s, LoopEvent::Replied { calls }).0.phase == LoopPhase::Finished,
        forall|k: int|
            0 <= k < rest.len() ==> !(#[trigger] run_actions(
                spec_loop_step(s, LoopEvent::Replied { calls }).0,
                rest,
            )[k] is Execute),
{
    let sig = spec_iteration_signature(calls@);
    let w = guard_window(s.window, sig);
    assert(w.len() == 3);
    assert(w[2] == sig);
    if s.window.len() == 3 {
        assert(w[0] == s.window[1] && w[1] == s.window[2]);
    } else {
        assert(w[0] == s.window[0] && w[1] == s.window[1]);
    }
    assert(window_stuck(w, sig));
    lemma_finished_stays_finished(spec_loop_step(s, LoopEvent::Replied { calls }).0, rest);
}

/// The arguments of call `i` parse, and `gate_tool_call` lets the call pass.
pub open spec fn call_passes_gate(s: LoopView, i: int) -> bool {
    match parsed_json(s.calls[i].1@) {
        Some(v) => gate_passes(spec_gate(s.calls[i].0@, s.allowed_tools, v, s.connection_ids)),
        None => false,
    }
}

/// Call `i` is approved.
pub open spec fn is_approved(statuses: Seq<CallStatus>, i: usize) -> bool {
    i < statuses.len() && statuses[i as int] == CallStatus::Approved
}

proof fn lemma_approved_indices_approved(statuses: Seq<CallStatus>)
    requires
        statuses.len() <= usize::MAX,
    ensures
        forall|k: int|
            0 <= k < approved_indices(statuses).len() ==> is_approved(
                statuses,
                #[trigger] approved_indices(statuses)[k],
            ),
    decreases statuses.len(),
{
    if statuses.len() > 0 {
        let d = statuses.drop_last();
        lemma_approved_indices_approved(d);
        let rest = approved_indices(d);
        if statuses.last() == CallStatus::Approved {
            assert(approved_indices(statuses) == rest.push((statuses.len() - 1) as usize));
        } else {
            assert(approved_indices(statuses) == rest);
        }
        assert forall|k: int| 0 <= k < approved_indices(statuses).len() implies is_approved(
            statuses,
            #[trigger] approved_indices(statuses)[k],
        ) by {
            if k < rest.len() {
                assert(is_approved(d, rest[k]));
                assert(approved_indices(statuses)[k] == rest[k]);
                assert(statuses[rest[k] as int] == d[rest[k] as int]);
            } else {
                assert(approved_indices(statuses)[k] == (statuses.len() - 1) as usize);
            }
        }
    }
}

proof fn lemma_approved_indices_complete(statuses: Seq<CallStatus>)
    requires
        statuses.len() <= usize::MAX,
    ensures
        forall|i: int|
            0 <= i < statuses.len() ==> (statuses[i] == CallStatus::Approved <==> approved_indices(
                statuses,
            ).contains(i as usize)),
        forall|a: int, b: int|
            0 <= a < b < approved_indices(statuses).len() ==> approved_indices(statuses)[a]
                < approved_indices(statuses)[b],
        forall|k: int|
            0 <= k < approved_indices(statuses).len() ==> approved_indices(statuses)[k] < statuses.len(),
    decreases statuses.len(),
{
    if statuses.len() > 0 {
        let d = statuses.drop_last();
        lemma_approved_indices_complete(d);
        let rest = approved_indices(d);
        let last = (statuses.len() - 1) as usize;
        if statuses.last() == CallStatus::Approved {
            assert(approved_indices(statuses) == rest.push(last));
        } else {
            assert(approved_indices(statuses) == rest);
        }
        let ix = approved_indices(statuses);
        assert forall|i: int| 0 <= i < statuses.len() implies (statuses[i] == CallStatus::Approved
            <==> ix.contains(i as usize)) by {
            if i < d.len() {
                assert(statuses[i] == d[i]);
                if rest.contains(i as usize) {
                    let k = choose|k: int| 0 <= k < rest.len() && rest[k] == i as usize;
                    assert(ix[k] == i as usize);
                }
                if ix.contains(i as usize) {
                    let k = choose|k: int| 0 <= k < ix.len() && ix[k] == i as usize;
                    if k < rest.len() {
                        assert(rest[k] == i as usize);
                    } else {
                        assert(ix[k] == last);
                    }
                }
            } else {
                if statuses.last() == CallStatus::Approved {
                    assert(ix[ix.len() - 1] == last);
                } else if ix.contains(i as usize) {
                    let k = choose|k: int| 0 <= k < ix.len() && ix[k] == i as usize;
                    assert(rest[k] < d.len());
                }
            }
        }
    }
}

/// The execution that ends a reply's calls names every approved call and
/// nothing else: its indices are exactly the calls whose status is
/// `Approved`, in increasing order.
pub proof fn lemma_execute_names_every_approved_call(s: LoopView, e: LoopEvent)
    requires
        loop_wf(s),
    ensures
        spec_loop_step(s, e).1 matches LoopActionView::Execute { indices } ==> {
            &&& forall|i: int|
                0 <= i < s.statuses.len() ==> (s.statuses[i] == CallStatus::Approved
                    <==> indices.contains(i as usize))
            &&& forall|k: int| 0 <= k < indices.len() ==> indices[k] < s.statuses.len()
            &&& forall|a: int, b: int| 0 <= a < b < indices.len() ==> indices[a] < indices[b]
        },
{
    lemma_approved_indices_complete(s.statuses);
}

/// Only approved calls are executed; a call becomes approved only by the
/// user's `true` answer to its confirmation; and a call waits for
/// confirmation only when its arguments parsed and `gate_tool_call` let it pass.
pub proof fn lemma_executed_calls_were_gated_and_confirmed(s: LoopView, e: LoopEvent)
    requires
        loop_wf(s),
    ensures
        spec_loop_step(s, e).1 matches LoopActionView::Execute { indices } ==> forall|k: int|
            0 <= k < indices.len() ==> is_approved(s.statuses, #[trigger] indices[k]),
        forall|i: int|
            0 <= i < spec_loop_step(s, e).0.statuses.len() && #[trigger] spec_loop_step(
                s,
                e,
            ).0.statuses[i] == CallStatus::Approved ==> (i < s.statuses.len() && s.statuses[i]
                == CallStatus::Approved) || (e matches LoopEvent::Confirmed { allowed } && allowed
                && s.phase == LoopPhase::AwaitConfirm && i == s.statuses.len() - 1
                && s.statuses[i] == CallStatus::Pending),
        forall|i: int|
            0 <= i < spec_loop_step(s, e).0.statuses.len() && #[trigger] spec_loop_step(
                s,
                e,
            ).0.statuses[i] == CallStatus::Pending ==> (i < s.statuses.len() && s.statuses[i]
                == CallStatus::Pending) || (e is Next && i == s.statuses.len() && i < s.calls.len()
                && call_passes_gate(s, i)),
{
    lemma_approved_indices_approved(s.statuses);
    let t = spec_loop_step(s, e).0;
    assert forall|i: int| 0 <= i < t.statuses.len() && #[trigger] t.statuses[i] == CallStatus::Approved implies (
    i < s.statuses.len() && s.statuses[i] == CallStatus::Approved) || (e matches LoopEvent::Confirmed {
        allowed,
    } && allowed && s.phase == LoopPhase::AwaitConfirm && i == s.statuses.len() - 1 && s.statuses[i]
        == CallStatus::Pending) by {
        if i < s.statuses.len() && i != s.statuses.len() - 1 {
            assert(t.statuses[i] == s.statuses[i]);
        }
    }
    assert forall|i: int| 0 <= i < t.statuses.len() && #[trigger] t.statuses[i] == CallStatus::Pending implies (
    i < s.statuses.len() && s.statuses[i] == CallStatus::Pending) || (e is Next && i == s.statuses.len()
        && i < s.calls.len() && call_passes_gate(s, i)) by {
        if i < s.statuses.len() && !(s.phase == LoopPhase::AwaitConfirm && e is Confirmed) {
            assert(t.statuses[i] == s.statuses[i]);
        }
    }
}

} // verus!
