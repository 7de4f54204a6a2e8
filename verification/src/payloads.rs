//! The JSON payloads the agent loop and compaction store as message content.
use vstd::prelude::*;

use crate::json::{
    decimal_digits, field_array, field_bool, field_str, json_entry_views, json_get, json_view, json_views,
    member_named, number_value, Json, JsonView,
};
use crate::projection::{
    announced_ids, call_of, calls_view, is_assistant_payload, pending_remove, project_step,
    LlmToolCall, MessageView, ProjectionState, ToolCallView,
};

verus! {

fn member(key: &str, value: Json) -> (r: (String, Json))
    ensures
        r.0@ == key@,
        r.1 == value,
{
    (key.to_owned(), value)
}

fn text_value(s: &str) -> (r: Json)
    ensures
        r == Json::Str(match r {
            Json::Str(t) => t,
            _ => arbitrary(),
        }),
        r matches Json::Str(t) && t@ == s@,
{
    Json::Str(s.to_owned())
}

/// A text as JSON: a string, or null where it is empty.
pub open spec fn optional_text_view(s: Seq<char>) -> JsonView {
    if s.len() > 0 {
        JsonView::Str(s)
    } else {
        JsonView::Null
    }
}

/// A tool call as stored: `{"id", "type": "function", "function": {"name",
/// "arguments"}}`.
pub open spec fn call_value_view(c: ToolCallView) -> JsonView {
    JsonView::Object(
        seq![
            ("id"@, JsonView::Str(c.id)),
            ("type"@, JsonView::Str("function"@)),
            ("function"@, JsonView::Object(
                seq![("name"@, JsonView::Str(c.name)), ("arguments"@, JsonView::Str(c.arguments))],
            )),
        ],
    )
}

/// The stored content of a tool result: `{"tool_call_id", "name", "content"}`.
pub fn tool_message_value(tool_call_id: &str, name: &str, content: &str) -> (r: Json)
    ensures
        r is Object,
        field_str(r, "tool_call_id"@) == Some(tool_call_id@),
        field_str(r, "name"@) == Some(name@),
        field_str(r, "content"@) == Some(content@),
        json_view(r) == JsonView::Object(
            seq![
                ("tool_call_id"@, JsonView::Str(tool_call_id@)),
                ("name"@, JsonView::Str(name@)),
                ("content"@, JsonView::Str(content@)),
            ],
        ),
{
    let entries = vec![
        member("tool_call_id", text_value(tool_call_id)),
        member("name", text_value(name)),
        member("content", text_value(content)),
    ];
    proof {
        reveal_strlit("tool_call_id");
        reveal_strlit("name");
        reveal_strlit("content");
        assert("tool_call_id"@.len() == 12 && "name"@.len() == 4 && "content"@.len() == 7);
        reveal_with_fuel(member_named, 4);
        assert(entries@.drop_first().drop_first()[0] == entries@[2]);
        assert(entries@.drop_first()[0] == entries@[1]);
        reveal_with_fuel(json_entry_views, 4);
        assert(entries@.drop_last().drop_last().drop_last() =~= Seq::<(String, Json)>::empty());
        assert(json_entry_views(entries@) =~= seq![
            ("tool_call_id"@, JsonView::Str(tool_call_id@)),
            ("name"@, JsonView::Str(name@)),
            ("content"@, JsonView::Str(content@)),
        ]);
    }
    Json::Object(entries)
}

fn optional_text_value(s: &str) -> (r: Json)
    ensures
        s@.len() == 0 ==> r is Null,
        s@.len() > 0 ==> (r matches Json::Str(t) && t@ == s@),
        json_view(r) == optional_text_view(s@),
{
    if s.is_empty() {
        Json::Null
    } else {
        Json::Str(s.to_owned())
    }
}

fn tool_call_value(c: &LlmToolCall) -> (r: Json)
    ensures
        call_of(r) == c@,
        r is Object,
        json_view(r) == call_value_view(c@),
{
    let function = Json::Object(vec![member("name", text_value(c.name.as_str())), member("arguments", text_value(c.arguments.as_str()))]);
    let ghost fj = function;
    let entries = vec![
        member("id", text_value(c.id.as_str())),
        member("type", text_value("function")),
        member("function", function),
    ];
    proof {
        reveal_strlit("id");
        reveal_strlit("type");
        reveal_strlit("function");
        reveal_strlit("name");
        reveal_strlit("arguments");
        assert("id"@.len() == 2 && "type"@.len() == 4 && "function"@.len() == 8);
        assert("name"@.len() == 4 && "arguments"@.len() == 9);
        reveal_with_fuel(member_named, 4);
        assert(entries@.drop_first().drop_first()[0] == entries@[2]);
        assert(entries@.drop_first()[0] == entries@[1]);
        match fj {
            Json::Object(fe) => {
                assert(fe@.drop_first()[0] == fe@[1]);
                reveal_with_fuel(json_entry_views, 3);
                assert(fe@.drop_last().drop_last() =~= Seq::<(String, Json)>::empty());
                assert(json_entry_views(fe@) =~= seq![
                    ("name"@, JsonView::Str(c.name@)),
                    ("arguments"@, JsonView::Str(c.arguments@)),
                ]);
            },
            _ => {},
        }
        reveal_with_fuel(json_entry_views, 4);
        assert(entries@.drop_last().drop_last().drop_last() =~= Seq::<(String, Json)>::empty());
        assert(json_entry_views(entries@) =~= seq![
            ("id"@, JsonView::Str(c.id@)),
            ("type"@, JsonView::Str("function"@)),
            ("function"@, json_view(fj)),
        ]);
    }
    Json::Object(entries)
}

/// The stored content of an assistant message that calls tools:
/// `{"content", "thinking", "tool_calls"}`, with empty content or thinking
/// stored as null, and each call as `{"id", "type": "function",
/// "function": {"name", "arguments"}}`.
pub fn assistant_calls_value(content: &str, thinking: &str, calls: &[LlmToolCall]) -> (r: Json)
    ensures
        is_assistant_payload(r),
        field_str(r, "content"@) == (if content@.len() > 0 {
            Some(content@)
        } else {
            None::<Seq<char>>
        }),
        field_str(r, "thinking"@) == (if thinking@.len() > 0 {
            Some(thinking@)
        } else {
            None::<Seq<char>>
        }),
        field_array(r, "tool_calls"@) matches Some(items) && items.map_values(|c: Json| call_of(c))
            == calls_view(calls@),
        json_view(r) == JsonView::Object(
            seq![
                ("content"@, optional_text_view(content@)),
                ("thinking"@, optional_text_view(thinking@)),
                ("tool_calls"@, JsonView::Array(
                    calls_view(calls@).map_values(|c: ToolCallView| call_value_view(c)),
                )),
            ],
        ),
{
    let mut items: Vec<Json> = Vec::new();
    let mut i: usize = 0;
    while i < calls.len()
        invariant
            i <= calls.len(),
            items@.map_values(|c: Json| call_of(c)) == calls_view(calls@).subrange(0, i as int),
            json_views(items@) == calls_view(calls@).subrange(0, i as int).map_values(
                |c: ToolCallView| call_value_view(c),
            ),
        decreases calls.len() - i,
    {
        let v = tool_call_value(&calls[i]);
        let ghost before = items@;
        let ghost cv = call_of(v);
        items.push(v);
        assert(items@.map_values(|c: Json| call_of(c)) =~= before.map_values(|c: Json| call_of(c)).push(cv));
        assert(items@.drop_last() =~= before);
        assert(calls_view(calls@).subrange(0, i + 1).map_values(|c: ToolCallView| call_value_view(c))
            =~= calls_view(calls@).subrange(0, i as int).map_values(|c: ToolCallView| call_value_view(c)).push(
            call_value_view(calls@[i as int]@)));
        assert(calls_view(calls@).subrange(0, i + 1) =~= calls_view(calls@).subrange(0, i as int).push(calls@[i as int]@));
        i = i + 1;
    }
    assert(calls_view(calls@).subrange(0, i as int) =~= calls_view(calls@));
    let ghost item_seq = items@;
    let cv = optional_text_value(content);
    let tv = optional_text_value(thinking);
    let entries = vec![
        member("content", cv),
        member("thinking", tv),
        member("tool_calls", Json::Array(items)),
    ];
    proof {
        reveal_strlit("content");
        reveal_strlit("thinking");
        reveal_strlit("tool_calls");
        assert("content"@.len() == 7 && "thinking"@.len() == 8 && "tool_calls"@.len() == 10);
        reveal_with_fuel(member_named, 4);
        assert(entries@.drop_first().drop_first()[0] == entries@[2]);
        assert(entries@.drop_first()[0] == entries@[1]);
        reveal_with_fuel(json_entry_views, 4);
        assert(entries@.drop_last().drop_last().drop_last() =~= Seq::<(String, Json)>::empty());
        assert(json_entry_views(entries@) =~= seq![
            ("content"@, optional_text_view(content@)),
            ("thinking"@, optional_text_view(thinking@)),
            ("tool_calls"@, JsonView::Array(json_views(item_seq))),
        ]);
    }
    Json::Object(entries)
}

/// The stored content of a final assistant reply with thinking:
/// `{"content", "thinking"}`.
pub fn reply_with_thinking_value(content: &str, thinking: &str) -> (r: Json)
    ensures
        is_assistant_payload(r),
        field_str(r, "content"@) == Some(content@),
        field_str(r, "thinking"@) == Some(thinking@),
        json_get(r, "tool_calls"@) is None,
        json_view(r) == JsonView::Object(
            seq![("content"@, JsonView::Str(content@)), ("thinking"@, JsonView::Str(thinking@))],
        ),
{
    let entries = vec![member("content", text_value(content)), member("thinking", text_value(thinking))];
    proof {
        reveal_strlit("content");
        reveal_strlit("thinking");
        reveal_strlit("tool_calls");
        assert("content"@.len() == 7 && "thinking"@.len() == 8 && "tool_calls"@.len() == 10);
        reveal_with_fuel(member_named, 3);
        assert(entries@.drop_first()[0] == entries@[1]);
        assert(entries@.drop_first().drop_first().len() == 0);
        reveal_with_fuel(json_entry_views, 3);
        assert(entries@.drop_last().drop_last() =~= Seq::<(String, Json)>::empty());
        assert(json_entry_views(entries@) =~= seq![
            ("content"@, JsonView::Str(content@)),
            ("thinking"@, JsonView::Str(thinking@)),
        ]);
    }
    Json::Object(entries)
}

/// The content of a compaction boundary: `{"_compact_boundary": true,
/// "trigger", "summary", "pre_tokens", "post_tokens", "compacted_at"}`.
pub fn boundary_payload_value(
    summary: &str,
    pre_tokens: u64,
    post_tokens: u64,
    trigger: &str,
    compacted_at_ms: u64,
) -> (r: Json)
    ensures
        field_bool(r, "_compact_boundary"@) == Some(true),
        field_str(r, "summary"@) == Some(summary@),
        field_str(r, "trigger"@) == Some(trigger@),
        json_get(r, "pre_tokens"@) matches Some(n) && json_view(n) == JsonView::Number(decimal_digits(pre_tokens as nat)),
        json_get(r, "post_tokens"@) matches Some(n) && json_view(n) == JsonView::Number(decimal_digits(post_tokens as nat)),
        json_get(r, "compacted_at"@) matches Some(n) && json_view(n) == JsonView::Number(decimal_digits(compacted_at_ms as nat)),
        json_view(r) == JsonView::Object(
            seq![
                ("_compact_boundary"@, JsonView::Bool(true)),
                ("trigger"@, JsonView::Str(trigger@)),
                ("summary"@, JsonView::Str(summary@)),
                ("pre_tokens"@, JsonView::Number(decimal_digits(pre_tokens as nat))),
                ("post_tokens"@, JsonView::Number(decimal_digits(post_tokens as nat))),
                ("compacted_at"@, JsonView::Number(decimal_digits(compacted_at_ms as nat))),
            ],
        ),
{
    let entries = vec![
        member("_compact_boundary", Json::Bool(true)),
        member("trigger", text_value(trigger)),
        member("summary", text_value(summary)),
        member("pre_tokens", number_value(pre_tokens)),
        member("post_tokens", number_value(post_tokens)),
        member("compacted_at", number_value(compacted_at_ms)),
    ];
    proof {
        reveal_strlit("_compact_boundary");
        reveal_strlit("trigger");
        reveal_strlit("summary");
        reveal_strlit("pre_tokens");
        reveal_strlit("post_tokens");
        reveal_strlit("compacted_at");
        assert("_compact_boundary"@.len() == 17 && "trigger"@.len() == 7 && "summary"@.len() == 7);
        assert("summary"@[0] != "trigger"@[0]);
        assert("pre_tokens"@.len() == 10 && "post_tokens"@.len() == 11 && "compacted_at"@.len() == 12);
        reveal_with_fuel(member_named, 7);
        let e = entries@;
        assert(e.drop_first()[0] == e[1]);
        assert(e.drop_first().drop_first()[0] == e[2]);
        assert(e.drop_first().drop_first().drop_first()[0] == e[3]);
        assert(e.drop_first().drop_first().drop_first().drop_first()[0] == e[4]);
        assert(e.drop_first().drop_first().drop_first().drop_first().drop_first()[0] == e[5]);
        reveal_with_fuel(json_entry_views, 7);
        assert(e.drop_last().drop_last().drop_last().drop_last().drop_last().drop_last() =~= Seq::<
            (String, Json),
        >::empty());
        assert(json_entry_views(e) =~= seq![
            ("_compact_boundary"@, JsonView::Bool(true)),
            ("trigger"@, JsonView::Str(trigger@)),
            ("summary"@, JsonView::Str(summary@)),
            ("pre_tokens"@, JsonView::Number(decimal_digits(pre_tokens as nat))),
            ("post_tokens"@, JsonView::Number(decimal_digits(post_tokens as nat))),
            ("compacted_at"@, JsonView::Number(decimal_digits(compacted_at_ms as nat))),
        ]);
    }
    Json::Object(entries)
}

// ---------------------------------------------------------------------------
// Laws
// ---------------------------------------------------------------------------

/// A stored tool result whose `tool_call_id` is pending comes back from the
/// projection as a tool message with that id and content, and the id is no
/// longer pending.
pub proof fn lemma_tool_result_is_projected(
    st: ProjectionState,
    text: Seq<char>,
    v: Json,
    id: Seq<char>,
    content: Seq<char>,
)
    requires
        crate::json::parsed_json(text) == Some(v),
        field_str(v, "tool_call_id"@) == Some(id),
        field_str(v, "content"@) == Some(content),
        id.len() > 0,
        st.pending.contains(id),
    ensures
        project_step(st, "tool"@, text) == (ProjectionState {
            out: st.out.push(
                MessageView {
                    role: "tool"@,
                    text: content,
                    tool_calls: None,
                    tool_call_id: Some(id),
                    thinking: None,
                },
            ),
            pending: pending_remove(st.pending, id),
        }),
{
    reveal_strlit("tool");
    reveal_strlit("assistant");
    assert("tool"@.len() == 4 && "assistant"@.len() == 9);
}

/// A stored assistant payload with tool calls comes back from the
/// projection as an assistant message carrying exactly those calls, and
/// their non-empty ids become the pending ids.
pub proof fn lemma_assistant_calls_are_projected(
    st: ProjectionState,
    text: Seq<char>,
    v: Json,
    calls: Seq<ToolCallView>,
)
    requires
        crate::json::parsed_json(text) == Some(v),
        is_assistant_payload(v),
        field_array(v, "tool_calls"@) matches Some(items) && items.map_values(|c: Json| call_of(c))
            == calls,
        !crate::text::has_prefix(text, "LLM HTTP "@),
    ensures
        project_step(st, "assistant"@, text).out.last().tool_calls == Some(calls),
        project_step(st, "assistant"@, text).out.last().role == "assistant"@,
        project_step(st, "assistant"@, text).pending == announced_ids(
            field_array(v, "tool_calls"@)->0,
        ),
{
    reveal_strlit("tool");
    reveal_strlit("assistant");
    assert("tool"@.len() == 4 && "assistant"@.len() == 9);
}

} // verus!
