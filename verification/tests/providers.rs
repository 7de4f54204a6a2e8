use data_studio_agent::loop_control::jittered_retry_delay_ms;
use data_studio_agent::model::model_settings;
use data_studio_agent::providers::{projected_chat_values, projected_token_total};
use data_studio_agent::json::{json_text, parse_json, Json};
use data_studio_agent::payloads::{boundary_payload_value, tool_message_value};
use data_studio_agent::projection::build_llm_messages;
use data_studio_agent::providers::{
    anthropic_request_body, anthropic_text_delta, summary_from_response, summary_input_value,
};
use data_studio_agent::traits::StoredMessage;

fn msg(role: &str, content: &str) -> Json {
    Json::Object(vec![
        ("role".to_string(), Json::Str(role.to_string())),
        ("content".to_string(), Json::Str(content.to_string())),
    ])
}

#[test]
fn summary_is_trimmed_content() {
    assert_eq!(
        summary_from_response(r#"{"choices":[{"message":{"content":"  - a\n- b \n"}}]}"#),
        Ok("- a\n- b".to_string())
    );
    assert_eq!(
        summary_from_response(r#"{"choices":[{"message":{"content":"   "}}]}"#),
        Err("LLM returned empty summary".to_string())
    );
    assert_eq!(summary_from_response(r#"{"choices":[]}"#), Err("LLM returned empty summary".to_string()));
    assert_eq!(summary_from_response("not json"), Err("error decoding response body".to_string()));
}

#[test]
fn summary_input_lists_role_and_content() {
    let m = vec![
        StoredMessage { id: "1".into(), role: "user".into(), content: "hi".into() },
        StoredMessage { id: "2".into(), role: "assistant".into(), content: "yo".into() },
    ];
    assert_eq!(
        json_text(&summary_input_value(&m)),
        r#"[{"content":"hi","role":"user"},{"content":"yo","role":"assistant"}]"#
    );
}

#[test]
fn anthropic_body_moves_system_messages() {
    let body = anthropic_request_body(
        "model-x",
        vec![msg("system", "be brief"), msg("user", "hi"), msg("system", "no lists"), msg("assistant", "ok")],
    );
    assert_eq!(
        json_text(&body),
        r#"{"max_tokens":4096,"messages":[{"content":"hi","role":"user"},{"content":"ok","role":"assistant"}],"model":"model-x","stream":true,"system":"be brief\nno lists"}"#
    );
    let body = anthropic_request_body("model-x", vec![msg("user", "hi")]);
    assert_eq!(
        json_text(&body),
        r#"{"max_tokens":4096,"messages":[{"content":"hi","role":"user"}],"model":"model-x","stream":true}"#
    );
}

#[test]
fn anthropic_text_deltas() {
    assert_eq!(
        anthropic_text_delta(r#"{"type":"content_block_delta","delta":{"type":"text_delta","text":"Hel"}}"#),
        Some("Hel".to_string())
    );
    assert_eq!(anthropic_text_delta(r#"{"type":"message_stop"}"#), None);
    assert_eq!(anthropic_text_delta("[DONE]"), None);
}

#[test]
fn stored_payloads_read_back() {
    let text = json_text(&tool_message_value("call_1", "query", "3 rows"));
    assert_eq!(text, r#"{"content":"3 rows","name":"query","tool_call_id":"call_1"}"#);
    let boundary = json_text(&boundary_payload_value("the summary", 10, 2, "auto", 5));
    let rows = vec![("b".to_string(), "system".to_string(), boundary)];
    let projected = build_llm_messages(&rows, None);
    assert_eq!(projected.len(), 1);
    assert_eq!(projected[0].role, "system");
    assert_eq!(projected[0].text_content, "the summary");
    assert!(parse_json(&text).is_some());
}

#[test]
fn system_prompt_comes_first() {
    let rows = vec![("1".to_string(), "user".to_string(), "hi".to_string())];
    let with = build_llm_messages(&rows, Some("be brief"));
    let without = build_llm_messages(&rows, None);
    assert_eq!(with.len(), without.len() + 1);
    assert_eq!(with[0].role, "system");
    assert_eq!(with[0].text_content, "be brief");
    assert_eq!(with[1].text_content, without[0].text_content);
    assert_eq!(build_llm_messages(&rows, Some("  ")).len(), without.len());
}

#[test]
fn projected_chat_assembly() {
    let m = vec![StoredMessage { id: "1".into(), role: "user".into(), content: "hi".into() }];
    let with = projected_chat_values(&m, Some("sys"));
    assert_eq!(json_text(&Json::Array(with)), r#"[{"content":"sys","role":"system"},{"content":"hi","role":"user"}]"#);
    assert_eq!(projected_chat_values(&m, Some("")).len(), 1);
    assert_eq!(projected_chat_values(&m, None).len(), 1);
    assert_eq!(projected_token_total(10, Some(5)), 15);
    assert_eq!(projected_token_total(10, None), 10);
}

#[test]
fn model_settings_defaults_and_override() {
    let s = model_settings(&parse_json(r#"{"provider":"ANTHROPIC","model":"m1","contextWindowOverride":64000}"#).unwrap());
    assert_eq!(s.provider, "ANTHROPIC");
    assert_eq!(s.model, "m1");
    assert_eq!(s.context_window_override, Some(64000));
    let d = model_settings(&parse_json(r#"{"contextWindowOverride":-3}"#).unwrap());
    assert_eq!(d.provider, "OPEN_AI");
    assert_eq!(d.model, "gpt-4o-mini");
    assert_eq!(d.context_window_override, None);
}

#[test]
fn retry_delay_is_jittered_within_range() {
    for _ in 0..200 {
        let d = jittered_retry_delay_ms(1000);
        assert!((750..=1250).contains(&d));
        assert!(jittered_retry_delay_ms(100) <= 350);
    }
}
