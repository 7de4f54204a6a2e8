use data_studio_agent::json::parse_json;
use data_studio_agent::loop_control::{
    allowed_tools, charge_tokens, classify_error, compaction_request_retryable, denied_message,
    gate_tool_call, is_fatal, is_retryable, iteration_signature, iteration_stop, jittered_delay_ms,
    loop_limits, missing_connection_message, not_allowed_message, plan_batches, retry_delay_ms,
    stream_failure, stream_request_retryable, unknown_connection_message, unprocessed_indices,
    ExecBatch, LoopLimits, ParseFailures, RunawayGuard, StopReason, StreamFailure, ToolGate,
    ToolOutcome,
};
use data_studio_agent::loop_control::{
    invalid_arguments_message, invalid_tool_calls_message, iteration_cap_message, token_budget_message,
    wall_clock_message,
};

#[test]
fn error_types() {
    assert_eq!(classify_error(r#"{"error":{"type":"rate_limit_exceeded"}}"#), Some("rate_limit_exceeded".into()));
    assert_eq!(classify_error(r#"{"error":"plain"}"#), None);
    assert_eq!(classify_error("<html>"), None);
    assert!(is_retryable("overloaded_error"));
    assert!(!is_retryable("insufficient_quota"));
    assert!(is_fatal("insufficient_quota"));
    assert!(is_fatal("authentication_error"));
    assert!(!is_fatal("rate_limit_exceeded"));
}

#[test]
fn retry_policies() {
    let quota = r#"{"error":{"type":"insufficient_quota"}}"#;
    assert!(compaction_request_retryable(400, quota));
    assert!(!stream_request_retryable(429, quota));
    assert!(stream_request_retryable(503, "oops"));
    assert!(stream_request_retryable(500, r#"{"error":{"type":"overloaded_error"}}"#));
    assert!(!stream_request_retryable(500, "oops"));
    assert!(!compaction_request_retryable(400, "bad"));
    assert_eq!(retry_delay_ms(0), Some(1_000));
    assert_eq!(retry_delay_ms(2), Some(8_000));
    assert_eq!(retry_delay_ms(3), None);
    assert_eq!(jittered_delay_ms(1_000, -250), 750);
    assert_eq!(jittered_delay_ms(100, -250), 0);
    assert_eq!(jittered_delay_ms(8_000, 250), 8_250);
}

#[test]
fn stream_failures() {
    assert_eq!(stream_failure("LLM HTTP 401 Unauthorized: nope"), StreamFailure::Error);
    assert_eq!(stream_failure("LLM HTTP 500 Internal Server Error: x"), StreamFailure::Stopped);
    assert_eq!(stream_failure("LLM request error: timeout"), StreamFailure::Stopped);
    assert_eq!(stream_failure(r#"{"error":{"type":"invalid_request_error"}}"#), StreamFailure::Error);
}

#[test]
fn budgets_from_settings() {
    let limits = loop_limits(&parse_json("{}").unwrap());
    assert_eq!(limits, LoopLimits { max_iterations: 200, wall_clock_budget_secs: 1800, token_budget: 20_000_000 });
    let limits = loop_limits(&parse_json(r#"{"maxIterations":5,"wallClockBudgetMin":2,"tokenBudget":100}"#).unwrap());
    assert_eq!(limits, LoopLimits { max_iterations: 5, wall_clock_budget_secs: 120, token_budget: 100 });
    let limits = loop_limits(&parse_json(r#"{"maxIterations":-1,"wallClockBudgetMin":18446744073709551615,"tokenBudget":1.5}"#).unwrap());
    assert_eq!(limits, LoopLimits { max_iterations: 200, wall_clock_budget_secs: u64::MAX, token_budget: 20_000_000 });
    let l = LoopLimits { max_iterations: 3, wall_clock_budget_secs: 60, token_budget: 1_000 };
    assert_eq!(iteration_stop(2, 59, &l), None);
    assert_eq!(iteration_stop(3, 0, &l), Some(StopReason::IterationCap));
    assert_eq!(iteration_stop(0, 60, &l), Some(StopReason::WallClockBudget));
    assert_eq!(StopReason::IterationCap.code(), "iteration_cap");
    assert_eq!(StopReason::TokenBudget.code(), "token_budget");
    assert_eq!(charge_tokens(900, 99, &l), (999, false));
    assert_eq!(charge_tokens(900, 100, &l), (1_000, true));
    assert_eq!(charge_tokens(usize::MAX, 5, &l), (usize::MAX, true));
}

#[test]
fn runaway_guard_stops_on_three_repeats() {
    let sig_a = iteration_signature(&[("b".into(), "2".into()), ("a".into(), "1".into())]);
    let sig_b = iteration_signature(&[("a".into(), "1".into()), ("b".into(), "2".into())]);
    assert_eq!(sig_a, "a:1|b:2");
    assert_eq!(sig_a, sig_b);
    assert_eq!(iteration_signature(&[]), "");
    let sig_c = iteration_signature(&[("é".into(), "x".into()), ("z".into(), "y".into()), ("a".into(), "10".into()), ("a".into(), "1".into())]);
    let sig_d = iteration_signature(&[("a".into(), "1".into()), ("z".into(), "y".into()), ("a".into(), "10".into()), ("é".into(), "x".into())]);
    assert_eq!(sig_c, "a:1|a:10|z:y|é:x");
    assert_eq!(sig_c, sig_d);
    let mut g = RunawayGuard::new();
    assert!(!g.observe(&sig_a));
    assert!(!g.observe(&sig_a));
    assert!(g.observe(&sig_a));
    let mut g = RunawayGuard::new();
    assert!(!g.observe("x"));
    assert!(!g.observe("y"));
    assert!(!g.observe("y"));
    assert!(g.observe("y"));
    assert!(!g.observe("x"));
}

#[test]
fn parse_failures_stop_on_second_in_a_row() {
    let mut f = ParseFailures::new();
    assert_eq!(f.record_failure("q"), 1);
    f.record_success("q");
    assert_eq!(f.record_failure("q"), 1);
    assert_eq!(f.record_failure("other"), 1);
    assert_eq!(f.record_failure("q"), 2);
}

#[test]
fn tool_gate() {
    let allowed = vec!["search".to_string(), "list".to_string()];
    let conns = vec!["db1".to_string(), "db2".to_string()];
    let with = parse_json(r#"{"connection_id":"db2"}"#).unwrap();
    let unknown = parse_json(r#"{"connection_id":"db9"}"#).unwrap();
    let none = parse_json(r#"{"q":1}"#).unwrap();
    assert_eq!(gate_tool_call("drop", &allowed, &with, &conns), ToolGate::NotAllowed);
    assert_eq!(gate_tool_call("search", &[], &with, &conns), ToolGate::NotAllowed);
    assert_eq!(gate_tool_call("search", &allowed, &with, &conns), ToolGate::Connection(1));
    assert_eq!(gate_tool_call("search", &allowed, &unknown, &conns), ToolGate::UnknownConnection);
    assert_eq!(gate_tool_call("list", &allowed, &none, &conns), ToolGate::MissingConnection);
    assert_eq!(gate_tool_call("list", &allowed, &none, &[]), ToolGate::Fallback);
    assert_eq!(gate_tool_call("list", &allowed, &with, &[]), ToolGate::UnknownConnection);
    let settings = parse_json(r#"{"tools":[{"function":{"name":"search"}},{"type":"x"},{"function":{"name":"list"}}]}"#).unwrap();
    assert_eq!(allowed_tools(&settings), vec!["search".to_string(), "list".to_string()]);
    assert!(allowed_tools(&parse_json("{}").unwrap()).is_empty());
}

#[test]
fn tool_messages() {
    assert_eq!(not_allowed_message("drop"), "Tool 'drop' is not allowed in this session.");
    assert_eq!(unknown_connection_message("db9", "search"), "Unknown connection_id 'db9' for tool 'search'.");
    assert_eq!(
        missing_connection_message("list", &["a".to_string(), "b".to_string()]),
        "Tool 'list' requires a connection_id argument. Available connections: a, b."
    );
    assert_eq!(denied_message("q"), "Tool call 'q' was denied by the user. Try an alternative approach.");
}

#[test]
fn batches_and_cancellations() {
    assert_eq!(plan_batches(&[]), vec![]);
    assert_eq!(
        plan_batches(&[true, true, false, false, true]),
        vec![
            ExecBatch { start: 0, end: 2, parallel: true },
            ExecBatch { start: 2, end: 4, parallel: false },
            ExecBatch { start: 4, end: 5, parallel: true },
        ]
    );
    assert_eq!(unprocessed_indices(0, 5, &[1, 3]), vec![0, 2, 4]);
    assert_eq!(unprocessed_indices(2, 4, &[2, 3]), Vec::<usize>::new());
    assert_eq!(ToolOutcome::Completed.status(), "completed");
    assert_eq!(ToolOutcome::Cancelled.status(), "failed");
}

#[test]
fn pause_messages() {
    assert_eq!(
        iteration_cap_message(200),
        "Agent paused after 200 iterations (configured cap). The task may need more work — reply 'continue' or raise the cap in settings."
    );
    assert_eq!(
        wall_clock_message(1859),
        "Agent paused after 30m wall-clock budget. Reply 'continue' to keep going or raise the budget in settings."
    );
    assert_eq!(
        token_budget_message(20_000_512, 20_000_000),
        "Agent paused after consuming 20000512 input tokens (configured budget 20000000). Reply 'continue' to keep going or raise the budget in settings."
    );
    assert_eq!(wall_clock_message(59), "Agent paused after 0m wall-clock budget. Reply 'continue' to keep going or raise the budget in settings.");
}

#[test]
fn invalid_argument_messages() {
    assert_eq!(
        invalid_arguments_message("query", "EOF while parsing a value at line 1 column 0", Some("sql")),
        "Invalid arguments for 'query': EOF while parsing a value at line 1 column 0. Required parameters: sql."
    );
    assert_eq!(invalid_arguments_message("query", "bad", None), "Invalid arguments for 'query': bad.");
    assert_eq!(
        invalid_tool_calls_message("query", ""),
        "Model keeps generating invalid tool calls for 'query'. Try rephrasing your request or switch to a model with better function-calling support."
    );
    assert_eq!(
        invalid_tool_calls_message("query", "sql, connection_id"),
        "Model keeps generating invalid tool calls for 'query'. The tool requires valid JSON arguments with fields: sql, connection_id. Try rephrasing your request to include all required parameters, or switch to a model with better function-calling support."
    );
}
