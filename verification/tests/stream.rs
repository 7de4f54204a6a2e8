use data_studio_agent::stream::{
    is_done_marker, resolved_call_ids, SseDecoder, StreamAccumulator, StreamDelta, ToolCallDelta,
};

fn delta(content: &str, thinking: &str, tools: Vec<ToolCallDelta>, finish: Option<&str>) -> StreamDelta {
    StreamDelta {
        content_delta: content.to_string(),
        thinking_delta: thinking.to_string(),
        tool_call_deltas: tools,
        finish_reason: finish.map(|s| s.to_string()),
    }
}

fn tool(index: usize, id: &str, name: &str, args: &str) -> ToolCallDelta {
    ToolCallDelta {
        index,
        id: id.to_string(),
        name: name.to_string(),
        arguments_delta: args.to_string(),
    }
}

#[test]
fn decoder_frames_events_across_chunks() {
    let mut d = SseDecoder::new();
    assert_eq!(d.push("data: {\"a\":1}\n\nda"), vec!["{\"a\":1}".to_string()]);
    assert_eq!(d.push("ta:  b  \n"), Vec::<String>::new());
    assert_eq!(d.push("\n"), vec!["b".to_string()]);
    assert_eq!(d.push("event: x\n: comment\n  data:c\ndata: d\n\ndata: [DONE]\n\n"), vec![
        "c".to_string(),
        "d".to_string(),
        "[DONE]".to_string()
    ]);
    assert_eq!(d.push(""), Vec::<String>::new());
}

#[test]
fn decoder_chunking_does_not_change_payloads() {
    let text = "data: one\n\ndata: two\ndata: three\n\nid: 4\n\ndata: five\n\ndata: tail";
    let mut whole = SseDecoder::new();
    let all = whole.push(text);
    assert_eq!(all, vec!["one", "two", "three", "five"]);
    for cut in 0..=text.len() {
        let mut d = SseDecoder::new();
        let mut got = d.push(&text[..cut]);
        got.extend(d.push(&text[cut..]));
        assert_eq!(got, all);
    }
}

#[test]
fn decoder_needs_a_blank_line() {
    let mut d = SseDecoder::new();
    assert!(d.push("data: x\r\n\r\n").is_empty());
    assert!(d.push("data: y").is_empty());
}

#[test]
fn done_marker() {
    assert!(is_done_marker("[DONE]"));
    assert!(!is_done_marker("[DONE] "));
    assert!(!is_done_marker("done"));
}

#[test]
fn accumulator_collects_the_reply() {
    let mut acc = StreamAccumulator::new();
    acc.apply(&delta("Hel", "th", vec![tool(1, "call_b", "describe", "{\"t\"")], None));
    acc.apply(&delta("lo", "ink", vec![tool(0, "call_a", "query", "{}"), tool(1, "", "", ":1}")], None));
    acc.apply(&delta("", "", vec![tool(1, "", "renamed", "")], Some("tool_calls")));
    assert_eq!(acc.content, "Hello");
    assert_eq!(acc.thinking, "think");
    assert_eq!(acc.tool_calls.len(), 2);
    assert_eq!(acc.tool_calls[0].id, "call_a");
    assert_eq!(acc.tool_calls[0].name, "query");
    assert_eq!(acc.tool_calls[0].arguments, "{}");
    assert_eq!(acc.tool_calls[1].id, "call_b");
    assert_eq!(acc.tool_calls[1].name, "renamed");
    assert_eq!(acc.tool_calls[1].arguments, "{\"t\":1}");
    assert_eq!(acc.finish_reason, "tool_calls");
    acc.apply(&delta("", "", vec![], None));
    assert_eq!(acc.finish_reason, "tool_calls");
}

#[test]
fn accumulator_pads_missing_calls() {
    let mut acc = StreamAccumulator::new();
    acc.apply(&delta("", "", vec![tool(2, "c", "n", "x")], Some("stop")));
    assert_eq!(acc.tool_calls.len(), 3);
    assert_eq!(acc.tool_calls[0].id, "");
    assert_eq!(acc.tool_calls[1].arguments, "");
    assert_eq!(acc.tool_calls[2].arguments, "x");
    assert_eq!(acc.finish_reason, "stop");
}

#[test]
fn call_ids_fall_back_to_fresh_ones() {
    let mut acc = StreamAccumulator::new();
    acc.apply(&delta("", "", vec![tool(0, "call_a", "q", "{}"), tool(1, "", "r", "{}")], None));
    let ids = resolved_call_ids(&acc, &vec!["f0".to_string(), "f1".to_string()]);
    assert_eq!(ids, vec!["call_a".to_string(), "f1".to_string()]);
}
