use data_studio_agent::agent_loop::{loop_step, LoopAction, LoopEvent, LoopPhase, LoopState};
use data_studio_agent::loop_control::{LoopLimits, StopReason, StreamFailure, ToolGate};

fn limits(max_iterations: usize, token_budget: usize) -> LoopLimits {
    LoopLimits { max_iterations, wall_clock_budget_secs: 1800, token_budget }
}

fn call(name: &str, args: &str) -> (String, String) {
    (name.to_string(), args.to_string())
}

fn state(max_iterations: usize) -> LoopState {
    LoopState::new(limits(max_iterations, 1000), vec!["query".to_string()], vec!["c1".to_string()])
}

#[test]
fn one_iteration_with_an_approved_call() {
    let mut s = state(5);
    assert!(matches!(loop_step(&mut s, LoopEvent::Tick { elapsed_secs: 0 }), LoopAction::CountTokens));
    assert!(matches!(loop_step(&mut s, LoopEvent::Counted { tokens: 10 }), LoopAction::Request));
    let a = loop_step(&mut s, LoopEvent::Replied { calls: vec![call("query", r#"{"connection_id":"c1"}"#)] });
    assert!(matches!(a, LoopAction::WriteCalls));
    match loop_step(&mut s, LoopEvent::Next { required_params: None }) {
        LoopAction::AskConfirmation { index, gate, .. } => {
            assert_eq!(index, 0);
            assert_eq!(gate, ToolGate::Connection(0));
        },
        _ => panic!("expected a confirmation request"),
    }
    assert!(matches!(loop_step(&mut s, LoopEvent::Confirmed { allowed: true }), LoopAction::Approve { index: 0 }));
    match loop_step(&mut s, LoopEvent::Next { required_params: None }) {
        LoopAction::Execute { indices } => assert_eq!(indices, vec![0]),
        _ => panic!("expected execution"),
    }
    assert!(matches!(loop_step(&mut s, LoopEvent::Executed), LoopAction::Continue));
    assert_eq!(s.phase(), LoopPhase::AwaitTick);
    assert_eq!(s.iterations(), 1);
}

#[test]
fn denied_and_refused_calls_are_not_executed() {
    let mut s = state(5);
    loop_step(&mut s, LoopEvent::Tick { elapsed_secs: 0 });
    loop_step(&mut s, LoopEvent::Counted { tokens: 1 });
    loop_step(
        &mut s,
        LoopEvent::Replied { calls: vec![call("other", "{}"), call("query", r#"{"connection_id":"zz"}"#), call("query", "{}"), call("query", r#"{"connection_id":"c1"}"#)] },
    );
    match loop_step(&mut s, LoopEvent::Next { required_params: None }) {
        LoopAction::Refuse { index, message } => {
            assert_eq!(index, 0);
            assert_eq!(message, "Tool 'other' is not allowed in this session.");
        },
        _ => panic!("expected a refusal"),
    }
    match loop_step(&mut s, LoopEvent::Next { required_params: None }) {
        LoopAction::Refuse { message, .. } => assert_eq!(message, "Unknown connection_id 'zz' for tool 'query'."),
        _ => panic!("expected a refusal"),
    }
    match loop_step(&mut s, LoopEvent::Next { required_params: None }) {
        LoopAction::Refuse { message, .. } => assert_eq!(
            message,
            "Tool 'query' requires a connection_id argument. Available connections: c1."
        ),
        _ => panic!("expected a refusal"),
    }
    assert!(matches!(loop_step(&mut s, LoopEvent::Next { required_params: None }), LoopAction::AskConfirmation { index: 3, .. }));
    match loop_step(&mut s, LoopEvent::Confirmed { allowed: false }) {
        LoopAction::Deny { index, message } => {
            assert_eq!(index, 3);
            assert_eq!(message, "Tool call 'query' was denied by the user. Try an alternative approach.");
        },
        _ => panic!("expected a denial"),
    }
    assert!(matches!(loop_step(&mut s, LoopEvent::Next { required_params: None }), LoopAction::Done));
    assert_eq!(s.phase(), LoopPhase::Finished);
}

#[test]
fn parsed_call_resets_the_failure_run() {
    let mut s = state(5);
    loop_step(&mut s, LoopEvent::Tick { elapsed_secs: 0 });
    loop_step(&mut s, LoopEvent::Counted { tokens: 1 });
    loop_step(&mut s, LoopEvent::Replied { calls: vec![call("query", "{bad"), call("query", r#"{"connection_id":"c1"}"#)] });
    match loop_step(&mut s, LoopEvent::Next { required_params: Some("sql".to_string()) }) {
        LoopAction::RecordInvalid { index, message, stop_message } => {
            assert_eq!(index, 0);
            assert!(message.starts_with("Invalid arguments for 'query': "));
            assert!(message.ends_with(". Required parameters: sql."));
            assert!(stop_message.is_none());
        },
        _ => panic!("expected an invalid-arguments record"),
    }
    assert!(matches!(loop_step(&mut s, LoopEvent::Next { required_params: None }), LoopAction::AskConfirmation { index: 1, .. }));
    loop_step(&mut s, LoopEvent::Confirmed { allowed: true });
    match loop_step(&mut s, LoopEvent::Next { required_params: None }) {
        LoopAction::Execute { indices } => assert_eq!(indices, vec![1]),
        _ => panic!("expected execution"),
    }
    loop_step(&mut s, LoopEvent::Executed);
    loop_step(&mut s, LoopEvent::Tick { elapsed_secs: 0 });
    loop_step(&mut s, LoopEvent::Counted { tokens: 1 });
    loop_step(&mut s, LoopEvent::Replied { calls: vec![call("query", "{worse")] });
    match loop_step(&mut s, LoopEvent::Next { required_params: Some("sql".to_string()) }) {
        LoopAction::RecordInvalid { stop_message, .. } => assert!(stop_message.is_none()),
        _ => panic!("expected an invalid-arguments record"),
    }
    assert_eq!(s.phase(), LoopPhase::AwaitNext);
}

#[test]
fn failures_count_across_calls_of_one_reply() {
    let mut s = state(5);
    loop_step(&mut s, LoopEvent::Tick { elapsed_secs: 0 });
    loop_step(&mut s, LoopEvent::Counted { tokens: 1 });
    loop_step(&mut s, LoopEvent::Replied { calls: vec![call("query", "{"), call("query", "[")] });
    match loop_step(&mut s, LoopEvent::Next { required_params: None }) {
        LoopAction::RecordInvalid { stop_message, .. } => assert!(stop_message.is_none()),
        _ => panic!("expected an invalid-arguments record"),
    }
    match loop_step(&mut s, LoopEvent::Next { required_params: None }) {
        LoopAction::RecordInvalid { index, stop_message, .. } => {
            assert_eq!(index, 1);
            assert_eq!(
                stop_message,
                Some("Model keeps generating invalid tool calls for 'query'. Try rephrasing your request or switch to a model with better function-calling support.".to_string())
            );
        },
        _ => panic!("expected an invalid-arguments record"),
    }
    assert_eq!(s.phase(), LoopPhase::Finished);
}

fn run_iteration(s: &mut LoopState, calls: Vec<(String, String)>) -> LoopAction {
    assert!(matches!(loop_step(s, LoopEvent::Tick { elapsed_secs: 0 }), LoopAction::CountTokens));
    assert!(matches!(loop_step(s, LoopEvent::Counted { tokens: 1 }), LoopAction::Request));
    loop_step(s, LoopEvent::Replied { calls })
}

#[test]
fn third_identical_reply_is_a_runaway() {
    let mut s = state(10);
    for _ in 0..2 {
        assert!(matches!(run_iteration(&mut s, vec![call("query", r#"{"connection_id":"c1"}"#)]), LoopAction::WriteCalls));
        assert!(matches!(loop_step(&mut s, LoopEvent::Next { required_params: None }), LoopAction::AskConfirmation { .. }));
        loop_step(&mut s, LoopEvent::Confirmed { allowed: true });
        assert!(matches!(loop_step(&mut s, LoopEvent::Next { required_params: None }), LoopAction::Execute { .. }));
        loop_step(&mut s, LoopEvent::Executed);
    }
    assert!(matches!(run_iteration(&mut s, vec![call("query", r#"{"connection_id":"c1"}"#)]), LoopAction::Runaway));
    assert_eq!(s.phase(), LoopPhase::Finished);
    assert!(matches!(loop_step(&mut s, LoopEvent::Next { required_params: None }), LoopAction::Done));
}

#[test]
fn budgets_stop_the_loop() {
    let mut s = state(1);
    assert!(matches!(run_iteration(&mut s, vec![]), LoopAction::WriteReply));
    let mut s = state(1);
    assert!(matches!(run_iteration(&mut s, vec![call("query", r#"{"connection_id":"c1"}"#)]), LoopAction::WriteCalls));
    loop_step(&mut s, LoopEvent::Next { required_params: None });
    loop_step(&mut s, LoopEvent::Confirmed { allowed: true });
    loop_step(&mut s, LoopEvent::Next { required_params: None });
    loop_step(&mut s, LoopEvent::Executed);
    match loop_step(&mut s, LoopEvent::Tick { elapsed_secs: 5 }) {
        LoopAction::Stop { reason, message } => {
            assert_eq!(reason, StopReason::IterationCap);
            assert_eq!(message, "Agent paused after 1 iterations (configured cap). The task may need more work — reply 'continue' or raise the cap in settings.");
        },
        _ => panic!("expected the iteration cap"),
    }
    let mut s = state(5);
    match loop_step(&mut s, LoopEvent::Tick { elapsed_secs: 1800 }) {
        LoopAction::Stop { reason, .. } => assert_eq!(reason, StopReason::WallClockBudget),
        _ => panic!("expected the wall-clock budget"),
    }
    let mut s = state(5);
    loop_step(&mut s, LoopEvent::Tick { elapsed_secs: 0 });
    match loop_step(&mut s, LoopEvent::Counted { tokens: 1000 }) {
        LoopAction::Stop { reason, message } => {
            assert_eq!(reason, StopReason::TokenBudget);
            assert_eq!(message, "Agent paused after consuming 1000 input tokens (configured budget 1000). Reply 'continue' to keep going or raise the budget in settings.");
        },
        _ => panic!("expected the token budget"),
    }
}

#[test]
fn stream_failures_end_the_run() {
    let mut s = state(5);
    loop_step(&mut s, LoopEvent::Tick { elapsed_secs: 0 });
    loop_step(&mut s, LoopEvent::Counted { tokens: 1 });
    match loop_step(&mut s, LoopEvent::StreamFailed { error: "LLM HTTP 400: bad".to_string() }) {
        LoopAction::ReportStreamFailure { ending } => assert_eq!(ending, StreamFailure::Error),
        _ => panic!("expected a failure report"),
    }
    let mut s = state(5);
    loop_step(&mut s, LoopEvent::Tick { elapsed_secs: 0 });
    loop_step(&mut s, LoopEvent::Counted { tokens: 1 });
    match loop_step(&mut s, LoopEvent::StreamFailed { error: "LLM HTTP 500: oops".to_string() }) {
        LoopAction::ReportStreamFailure { ending } => assert_eq!(ending, StreamFailure::Stopped),
        _ => panic!("expected a failure report"),
    }
    assert!(matches!(loop_step(&mut s, LoopEvent::Executed), LoopAction::Done));
    let mut s = state(5);
    assert!(matches!(loop_step(&mut s, LoopEvent::Executed), LoopAction::Unexpected));
}
