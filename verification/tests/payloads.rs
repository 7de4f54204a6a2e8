use data_studio_agent::harness::sanitize_error;
use data_studio_agent::json::{decimal_text, parse_json, Json};
use data_studio_agent::payloads::{
    assistant_calls_value, boundary_payload_value, reply_with_thinking_value, tool_message_value,
};
use data_studio_agent::projection::{build_llm_messages, LlmToolCall};
use data_studio_agent::text::{replace_all, starts_with, text_eq_ignore_ascii_case, trims_to_empty};

fn to_text(j: &Json) -> String {
    match j {
        Json::Null => "null".into(),
        Json::Bool(b) => b.to_string(),
        Json::Number(n) => n.clone(),
        Json::Str(s) => format!("{:?}", s),
        Json::Array(items) => format!("[{}]", items.iter().map(to_text).collect::<Vec<_>>().join(",")),
        Json::Object(entries) => format!(
            "{{{}}}",
            entries.iter().map(|(k, v)| format!("{:?}:{}", k, to_text(v))).collect::<Vec<_>>().join(",")
        ),
    }
}

#[test]
fn payloads_round_trip_through_projection() {
    let calls = vec![
        LlmToolCall { id: "c1".into(), name: "search".into(), arguments: "{\"q\":1}".into() },
        LlmToolCall { id: "c2".into(), name: "list".into(), arguments: "{}".into() },
    ];
    let assistant = to_text(&assistant_calls_value("", "think", &calls));
    let tool = to_text(&tool_message_value("c1", "search", "found"));
    let rows = vec![
        ("1".to_string(), "user".to_string(), "go".to_string()),
        ("2".to_string(), "assistant".to_string(), assistant),
        ("3".to_string(), "tool".to_string(), tool),
    ];
    let out = build_llm_messages(&rows, None);
    assert_eq!(out.len(), 3);
    assert_eq!(out[1].text_content, "");
    assert_eq!(out[1].thinking.as_deref(), Some("think"));
    let got = out[1].tool_calls.as_ref().unwrap();
    assert_eq!(got[0].arguments, "{\"q\":1}");
    assert_eq!(got[1].name, "list");
    assert_eq!(out[2].text_content, "found");
    let reply = to_text(&reply_with_thinking_value("answer", "why"));
    let out = build_llm_messages(&[("4".into(), "assistant".into(), reply)], None);
    assert_eq!(out[0].text_content, "answer");
    assert!(out[0].tool_calls.is_none());
}

#[test]
fn boundary_payload_is_recognised() {
    let b = boundary_payload_value("we did X", 1200, 300, "manual", 1_700_000_000_000);
    assert_eq!(b.get_bool("_compact_boundary"), Some(true));
    assert_eq!(b.get_str("trigger"), Some("manual"));
    assert_eq!(b.get_u64("pre_tokens"), Some(1200));
    assert_eq!(b.get_u64("compacted_at"), Some(1_700_000_000_000));
    let reparsed = parse_json(&to_text(&b)).unwrap();
    assert_eq!(reparsed.get_str("summary"), Some("we did X"));
    let out = build_llm_messages(&[("b".into(), "system".into(), to_text(&b))], None);
    assert_eq!(out[0].text_content, "we did X");
}

#[test]
fn decimal_and_text_helpers() {
    assert_eq!(decimal_text(0), "0");
    assert_eq!(decimal_text(907), "907");
    assert_eq!(decimal_text(u64::MAX), "18446744073709551615");
    assert!(starts_with("LLM HTTP 404", "LLM HTTP 4"));
    assert!(!starts_with("LLM", "LLM HTTP"));
    assert!(trims_to_empty(" \u{3000}\t\n"));
    assert!(!trims_to_empty(" x "));
    assert!(text_eq_ignore_ascii_case("ElasticSearch", "ELASTICSEARCH"));
    assert_eq!(replace_all("aaaa", "aa", "b"), "bb");
    assert_eq!(replace_all("abcabc", "bc", ""), "aa");
}

#[test]
fn sanitize_error_redacts_long_keys_only() {
    assert_eq!(
        sanitize_error("bad key sk-12345678 given".to_string(), "sk-12345678"),
        "bad key [REDACTED] given"
    );
    assert_eq!(sanitize_error("short abc".to_string(), "abc"), "short abc");
    assert_eq!(sanitize_error("empty".to_string(), ""), "empty");
    assert_eq!(sanitize_error("k12345678 and k12345678".to_string(), "k12345678"), "[REDACTED] and [REDACTED]");
}
