use data_studio_agent::json::Json;
use data_studio_agent::projection::{build_llm_messages, llm_messages_to_values, project_messages, LlmMessage};
use data_studio_agent::traits::StoredMessage;

fn row(role: &str, content: &str) -> (String, String, String) {
    ("id".to_string(), role.to_string(), content.to_string())
}

fn roles(ms: &[LlmMessage]) -> Vec<String> {
    ms.iter().map(|m| m.role.clone()).collect()
}

const CALLS: &str = r#"{"content":"looking","thinking":"hmm","tool_calls":[{"id":"c1","type":"function","function":{"name":"search","arguments":"{\"q\":1}"}},{"id":"c2","type":"function","function":{"name":"list","arguments":"{}"}}]}"#;

#[test]
fn projection_keeps_answered_tool_exchange() {
    let rows = vec![
        row("user", "find it"),
        row("assistant", CALLS),
        row("tool", r#"{"tool_call_id":"c1","name":"search","content":"r1"}"#),
        row("tool", r#"{"tool_call_id":"c2","name":"list","content":"r2"}"#),
        row("assistant", "done"),
    ];
    let out = build_llm_messages(&rows, Some("be brief"));
    assert_eq!(roles(&out), vec!["system", "user", "assistant", "tool", "tool", "assistant"]);
    assert_eq!(out[0].text_content, "be brief");
    let a = &out[2];
    assert_eq!(a.text_content, "looking");
    assert_eq!(a.thinking.as_deref(), Some("hmm"));
    let calls = a.tool_calls.as_ref().unwrap();
    assert_eq!(calls.len(), 2);
    assert_eq!(calls[0].id, "c1");
    assert_eq!(calls[0].name, "search");
    assert_eq!(calls[0].arguments, "{\"q\":1}");
    assert_eq!(out[3].tool_call_id.as_deref(), Some("c1"));
    assert_eq!(out[3].text_content, "r1");
    assert_eq!(out[4].tool_call_id.as_deref(), Some("c2"));
}

#[test]
fn projection_drops_orphans_and_failures() {
    let rows = vec![
        row("user", "q"),
        row("tool", r#"{"tool_call_id":"zz","content":"stray"}"#),
        row("assistant", "LLM HTTP 500: boom"),
        row("assistant", CALLS),
        row("user", "never mind"),
    ];
    let out = build_llm_messages(&rows, Some("  \n\t"));
    // blank prompt dropped; stray tool dropped; failed request dropped;
    // unanswered assistant dropped when the user speaks again
    assert_eq!(roles(&out), vec!["user", "user"]);
    let trailing = vec![row("user", "q"), row("assistant", CALLS)];
    assert_eq!(roles(&build_llm_messages(&trailing, None)), vec!["user"]);
}

#[test]
fn projection_keeps_partially_answered_assistant() {
    let rows = vec![
        row("user", "q"),
        row("assistant", CALLS),
        row("tool", r#"{"tool_call_id":"c1","content":"r1"}"#),
        row("tool", r#"{"tool_call_id":"c1","content":"again"}"#),
    ];
    let out = build_llm_messages(&rows, None);
    // the second answer to c1 is no longer pending; c2 stays unanswered
    assert_eq!(roles(&out), vec!["user", "assistant", "tool"]);
}

#[test]
fn projection_expands_compaction_boundary() {
    let rows = vec![
        row("system", r#"{"_compact_boundary":true,"summary":"we did X","trigger":"auto"}"#),
        row("system", r#"{"_compact_boundary":false,"summary":"no"}"#),
        row("assistant", "plain answer"),
        row("assistant", r#"{"other":1}"#),
    ];
    let out = build_llm_messages(&rows, None);
    assert_eq!(roles(&out), vec!["system", "system", "assistant", "assistant"]);
    assert_eq!(out[0].text_content, "we did X");
    assert_eq!(out[1].text_content, r#"{"_compact_boundary":false,"summary":"no"}"#);
    assert_eq!(out[2].text_content, "plain answer");
    assert!(out[2].tool_calls.is_none());
    assert_eq!(out[3].text_content, r#"{"other":1}"#);
}

fn get<'a>(j: &'a Json, key: &str) -> Option<&'a Json> {
    j.get(key)
}

fn as_text(j: Option<&Json>) -> Option<String> {
    match j {
        Some(Json::Str(s)) => Some(s.clone()),
        _ => None,
    }
}

#[test]
fn openai_values_of_messages() {
    let rows = vec![
        row("user", "find it"),
        row("assistant", CALLS),
        row("tool", r#"{"tool_call_id":"c1","content":"r1"}"#),
    ];
    let msgs = build_llm_messages(&rows, None);
    let values = llm_messages_to_values(&msgs);
    assert_eq!(values.len(), 3);
    assert_eq!(as_text(get(&values[0], "role")), Some("user".into()));
    assert_eq!(as_text(get(&values[0], "content")), Some("find it".into()));
    assert_eq!(as_text(get(&values[1], "reasoning_content")), Some("hmm".into()));
    match get(&values[1], "tool_calls") {
        Some(Json::Array(items)) => {
            assert_eq!(items.len(), 2);
            assert_eq!(as_text(get(&items[0], "id")), Some("c1".into()));
            assert_eq!(as_text(get(&items[0], "type")), Some("function".into()));
            let f = get(&items[1], "function").unwrap();
            assert_eq!(as_text(get(f, "name")), Some("list".into()));
        },
        other => panic!("unexpected {:?}", other),
    }
    assert_eq!(as_text(get(&values[2], "tool_call_id")), Some("c1".into()));
    let stored: Vec<StoredMessage> = rows
        .iter()
        .map(|(id, role, content)| StoredMessage { id: id.clone(), role: role.clone(), content: content.clone() })
        .collect();
    assert_eq!(project_messages(&stored, None).len(), 3);
}
