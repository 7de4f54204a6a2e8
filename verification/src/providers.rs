//! What the library makes of provider replies: the summary of a
//! compaction request, and the Anthropic messages API's request body and
//! streamed text deltas.
use vstd::prelude::*;

use crate::json::{
    field_array, field_str, json_get, json_view, json_views, parse_json, parsed_json, Json,
    JsonView,
};
use crate::loop_control::{join_texts, joined, texts};
use crate::stream::{trimmed, trimmed_text};
use crate::text::text_eq;
use crate::traits::StoredMessage;

verus! {

// ---------------------------------------------------------------------------
// Compaction summary
// ---------------------------------------------------------------------------

/// The text at `choices[0].message.content` of a chat completion, or empty
/// where there is none.
pub open spec fn completion_content(v: Json) -> Seq<char> {
    match field_array(v, "choices"@) {
        Some(items) => if items.len() > 0 {
            match json_get(items[0], "message"@) {
                Some(m) => match field_str(m, "content"@) {
                    Some(c) => c,
                    None => Seq::empty(),
                },
                None => Seq::empty(),
            }
        } else {
            Seq::empty()
        },
        None => Seq::empty(),
    }
}

/// The error for a reply that is not JSON.
pub const UNREADABLE_BODY_ERROR: &'static str = "error decoding response body";

/// The error for a reply without a summary.
pub const EMPTY_SUMMARY_ERROR: &'static str = "LLM returned empty summary";

/// `r` is the summary `t`, or the empty-summary error where `t` is empty.
pub open spec fn is_summary_result(t: Seq<char>, r: Result<String, String>) -> bool {
    if t.len() > 0 {
        r matches Ok(s) && s@ == t
    } else {
        r matches Err(e) && e@ == EMPTY_SUMMARY_ERROR@
    }
}

/// The content of a parsed chat completion, or empty.
pub fn content_of_completion(v: &Json) -> (r: String)
    ensures
        r@ == completion_content(*v),
{
    match v.get_array("choices") {
        Some(items) => {
            if items.len() > 0 {
                match items[0].get("message") {
                    Some(m) => match m.get_str("content") {
                        Some(c) => c.to_owned(),
                        None => String::new(),
                    },
                    None => String::new(),
                }
            } else {
                String::new()
            }
        },
        None => String::new(),
    }
}

/// The summary in a parsed chat completion: its content, trimmed; an error
/// where that is empty.
pub fn summary_from_completion(v: &Json) -> (r: Result<String, String>)
    ensures
        is_summary_result(trimmed(completion_content(*v)), r),
{
    let content = content_of_completion(v);
    let summary = trimmed_text(content.as_str());
    if summary.as_str().is_empty() {
        Err(EMPTY_SUMMARY_ERROR.to_owned())
    } else {
        Ok(summary)
    }
}

/// The summary in the body of a compaction reply: an error where the body
/// is not JSON, otherwise as `summary_from_completion` says.
pub fn summary_from_response(body: &str) -> (r: Result<String, String>)
    ensures
        match parsed_json(body@) {
            None => r matches Err(e) && e@ == UNREADABLE_BODY_ERROR@,
            Some(v) => is_summary_result(trimmed(completion_content(v)), r),
        },
{
    match parse_json(body) {
        Some(v) => summary_from_completion(&v),
        None => Err(UNREADABLE_BODY_ERROR.to_owned()),
    }
}

/// The system prompt of a compaction request.
pub const COMPACT_SYSTEM_PROMPT: &'static str = "Summarize this conversation so it can continue without the full history.

Output exactly this Markdown structure, keeping all sections even if empty:

## What We Were Doing
- [The user's goal and current task — one or two sentences]

## What We Found / Did
- [Key results, queries run, data discovered, decisions made]

## Next Steps
- [What to do next, or \"(none)\"]

## Critical Details
- [Exact names to preserve: connections, indexes, fields, query strings, error messages]

Rules:
- Bullets only, no prose.
- Preserve exact identifiers verbatim.
- Do not mention this summary process.";

/// A message to summarize, as `{"role", "content"}`.
pub open spec fn role_content_view(m: StoredMessage) -> JsonView {
    JsonView::Object(seq![("role"@, JsonView::Str(m.role@)), ("content"@, JsonView::Str(m.content@))])
}

/// The messages to summarize, as the JSON array that the compaction
/// request sends as its user message.
pub fn summary_input_value(messages: &[StoredMessage]) -> (r: Json)
    ensures
        json_view(r) == JsonView::Array(messages@.map_values(|m: StoredMessage| role_content_view(m))),
{
    let mut items: Vec<Json> = Vec::new();
    let mut i: usize = 0;
    while i < messages.len()
        invariant
            i <= messages.len(),
            json_views(items@) == messages@.subrange(0, i as int).map_values(
                |m: StoredMessage| role_content_view(m),
            ),
        decreases messages.len() - i,
    {
        let m = &messages[i];
        let entries = vec![
            member("role", Json::Str(m.role.as_str().to_owned())),
            member("content", Json::Str(m.content.as_str().to_owned())),
        ];
        proof {
            reveal_with_fuel(crate::json::json_entry_views, 3);
            assert(entries@.drop_last().drop_last() =~= Seq::<(String, Json)>::empty());
            assert(crate::json::json_entry_views(entries@) =~= seq![
                ("role"@, JsonView::Str(m.role@)),
                ("content"@, JsonView::Str(m.content@)),
            ]);
        }
        let v = Json::Object(entries);
        assert(json_view(v) == role_content_view(messages@[i as int]));
        let ghost before = items@;
        let ghost vv = json_view(v);
        items.push(v);
        assert(items@.drop_last() =~= before);
        assert(json_views(items@) == json_views(before).push(vv));
        assert(messages@.subrange(0, i + 1).map_values(|m: StoredMessage| role_content_view(m))
            =~= messages@.subrange(0, i as int).map_values(|m: StoredMessage| role_content_view(m)).push(
            role_content_view(messages@[i as int])));
        i = i + 1;
    }
    assert(messages@.subrange(0, i as int) =~= messages@);
    Json::Array(items)
}

/// A `{"role", "content"}` message.
pub open spec fn role_content_pair(role: Seq<char>, content: Seq<char>) -> JsonView {
    JsonView::Object(seq![("role"@, JsonView::Str(role)), ("content"@, JsonView::Str(content))])
}

fn role_content_value(role: &str, content: &str) -> (r: Json)
    ensures
        json_view(r) == role_content_pair(role@, content@),
{
    let entries = vec![
        member("role", Json::Str(role.to_owned())),
        member("content", Json::Str(content.to_owned())),
    ];
    proof {
        reveal_with_fuel(crate::json::json_entry_views, 3);
        assert(entries@.drop_last().drop_last() =~= Seq::<(String, Json)>::empty());
        assert(crate::json::json_entry_views(entries@) =~= seq![
            ("role"@, JsonView::Str(role@)),
            ("content"@, JsonView::Str(content@)),
        ]);
    }
    Json::Object(entries)
}

/// The messages a projected request is counted on: the system prompt
/// first, where there is one and it is not empty, then each message's role
/// and content.
pub open spec fn projected_chat_views(messages: Seq<StoredMessage>, system_prompt: Option<Seq<char>>) -> Seq<JsonView> {
    (match system_prompt {
        Some(sp) => if sp.len() > 0 {
            seq![role_content_pair("system"@, sp)]
        } else {
            Seq::empty()
        },
        None => Seq::empty(),
    }) + messages.map_values(|m: StoredMessage| role_content_view(m))
}

/// Assembles the messages a projected request is counted on.
pub fn projected_chat_values(messages: &[StoredMessage], system_prompt: Option<&str>) -> (r: Vec<Json>)
    ensures
        json_views(r@) == projected_chat_views(messages@, match system_prompt {
            Some(sp) => Some(sp@),
            None => None,
        }),
{
    let ghost sys: Seq<JsonView> = match system_prompt {
        Some(sp) => if sp@.len() > 0 {
            seq![role_content_pair("system"@, sp@)]
        } else {
            Seq::empty()
        },
        None => Seq::empty(),
    };
    let mut out: Vec<Json> = Vec::new();
    assert(json_views(out@) =~= Seq::<JsonView>::empty());
    match system_prompt {
        Some(sp) => {
            if !sp.is_empty() {
                let v = role_content_value("system", sp);
                let ghost vv = json_view(v);
                out.push(v);
                assert(out@.drop_last() =~= Seq::<Json>::empty());
                assert(json_views(out@) == json_views(Seq::<Json>::empty()).push(vv));
                assert(json_views(out@) =~= sys);
            }
        },
        None => {},
    }
    let ghost head = json_views(out@);
    assert(head =~= sys);
    let mut i: usize = 0;
    let ghost start = out@;
    while i < messages.len()
        invariant
            i <= messages.len(),
            start.len() <= out@.len(),
            out@.subrange(0, start.len() as int) == start,
            json_views(out@) == head + messages@.subrange(0, i as int).map_values(
                |m: StoredMessage| role_content_view(m),
            ),
            head == json_views(start),
        decreases messages.len() - i,
    {
        let v = role_content_value(messages[i].role.as_str(), messages[i].content.as_str());
        let ghost before = out@;
        let ghost vv = json_view(v);
        out.push(v);
        assert(out@.drop_last() =~= before);
        assert(json_views(out@) == json_views(before).push(vv));
        assert(out@.subrange(0, start.len() as int) =~= before.subrange(0, start.len() as int));
        assert(messages@.subrange(0, i + 1).map_values(|m: StoredMessage| role_content_view(m))
            =~= messages@.subrange(0, i as int).map_values(|m: StoredMessage| role_content_view(m)).push(
            role_content_view(messages@[i as int])));
        i = i + 1;
    }
    assert(messages@.subrange(0, i as int) =~= messages@);
    out
}

/// The tokens of a projected request: the messages' tokens, plus the
/// tools' tokens where there are tools.
pub fn projected_token_total(message_tokens: usize, tool_tokens: Option<usize>) -> (r: usize)
    requires
        message_tokens + match tool_tokens {
            Some(t) => t as int,
            None => 0int,
        } <= usize::MAX,
    ensures
        r == message_tokens + match tool_tokens {
            Some(t) => t as int,
            None => 0int,
        },
{
    match tool_tokens {
        Some(t) => message_tokens + t,
        None => message_tokens,
    }
}

// ---------------------------------------------------------------------------
// Anthropic messages API
// ---------------------------------------------------------------------------

/// A message with role `system`.
pub open spec fn is_system_message(m: Json) -> bool {
    field_str(m, "role"@) == Some("system"@)
}

/// The texts of the system messages that have a string content, in order.
pub open spec fn system_texts(ms: Seq<Json>) -> Seq<Seq<char>>
    decreases ms.len(),
{
    if ms.len() == 0 {
        Seq::empty()
    } else {
        let rest = system_texts(ms.drop_last());
        if is_system_message(ms.last()) && field_str(ms.last(), "content"@) is Some {
            rest.push(field_str(ms.last(), "content"@)->0)
        } else {
            rest
        }
    }
}

/// The messages other than system messages, in order.
pub open spec fn non_system_messages(ms: Seq<Json>) -> Seq<JsonView>
    decreases ms.len(),
{
    if ms.len() == 0 {
        Seq::empty()
    } else {
        let rest = non_system_messages(ms.drop_last());
        if is_system_message(ms.last()) {
            rest
        } else {
            rest.push(json_view(ms.last()))
        }
    }
}

/// The request body: the model, the messages without system messages,
/// streaming on, at most 4096 output tokens, and the system texts joined
/// with line breaks as `system` where they are not empty.
pub open spec fn spec_anthropic_body(model: Seq<char>, ms: Seq<Json>) -> JsonView {
    let system = joined(system_texts(ms), "\n"@);
    JsonView::Object(
        seq![
            ("model"@, JsonView::Str(model)),
            ("messages"@, JsonView::Array(non_system_messages(ms))),
            ("stream"@, JsonView::Bool(true)),
            ("max_tokens"@, JsonView::Number("4096"@)),
        ] + if system.len() > 0 {
            seq![("system"@, JsonView::Str(system))]
        } else {
            Seq::empty()
        },
    )
}

fn member(key: &str, value: Json) -> (r: (String, Json))
    ensures
        r.0@ == key@,
        r.1 == value,
{
    (key.to_owned(), value)
}

/// The body of a streaming request to the Anthropic messages API.
pub fn anthropic_request_body(model: &str, messages: Vec<Json>) -> (r: Json)
    ensures
        json_view(r) == spec_anthropic_body(model@, messages@),
{
    let ghost all = messages@;
    let mut rest = messages;
    let mut kept: Vec<Json> = Vec::new();
    let mut parts: Vec<String> = Vec::new();
    let mut k: usize = 0;
    let n = rest.len();
    while rest.len() > 0
        invariant
            k + rest.len() == n,
            n == all.len(),
            rest@ == all.subrange(k as int, n as int),
            json_views(kept@) == non_system_messages(all.subrange(0, k as int)),
            texts(parts@) == system_texts(all.subrange(0, k as int)),
        decreases rest.len(),
    {
        let m = rest.remove(0);
        let ghost pre = all.subrange(0, k + 1);
        assert(pre.drop_last() =~= all.subrange(0, k as int));
        assert(pre.last() == m);
        assert(rest@ =~= all.subrange(k + 1, n as int));
        let system = match m.get_str("role") {
            Some(role) => text_eq(role, "system"),
            None => false,
        };
        if system {
            match m.get_str("content") {
                Some(c) => {
                    let ghost before = parts@;
                    parts.push(c.to_owned());
                    assert(texts(parts@) =~= texts(before).push(c@));
                },
                None => {},
            }
        } else {
            let ghost before = kept@;
            kept.push(m);
            assert(kept@.drop_last() =~= before);
        }
        k = k + 1;
    }
    assert(all.subrange(0, k as int) =~= all);
    let system_text = join_texts(parts.as_slice(), "\n");
    let ghost kept_views = json_views(kept@);
    let mut entries = vec![
        member("model", Json::Str(model.to_owned())),
        member("messages", Json::Array(kept)),
        member("stream", Json::Bool(true)),
        member("max_tokens", Json::Number("4096".to_owned())),
    ];
    if !system_text.as_str().is_empty() {
        entries.push(member("system", Json::Str(system_text)));
    }
    proof {
        reveal_with_fuel(crate::json::json_entry_views, 6);
        let e = entries@;
        if e.len() == 5 {
            assert(e.drop_last().drop_last().drop_last().drop_last().drop_last() =~= Seq::<(String, Json)>::empty());
        } else {
            assert(e.drop_last().drop_last().drop_last().drop_last() =~= Seq::<(String, Json)>::empty());
        }
        assert(crate::json::json_entry_views(e) =~= match json_view(Json::Object(entries)) {
            JsonView::Object(x) => x,
            _ => Seq::empty(),
        });
    }
    let r = Json::Object(entries);
    proof {
        match spec_anthropic_body(model@, all) {
            JsonView::Object(x) => {
                assert(match json_view(r) { JsonView::Object(y) => y, _ => Seq::empty() } =~= x);
            },
            _ => {},
        }
    }
    r
}

/// The text of a streamed `content_block_delta` event: `delta.text`.
pub open spec fn spec_text_delta(data: Seq<char>) -> Option<Seq<char>> {
    match parsed_json(data) {
        Some(v) => if field_str(v, "type"@) == Some("content_block_delta"@) {
            match json_get(v, "delta"@) {
                Some(d) => field_str(d, "text"@),
                None => None,
            }
        } else {
            None
        },
        None => None,
    }
}

/// The text that a streamed Anthropic event adds to the reply, where it is
/// a `content_block_delta` with text.
pub fn anthropic_text_delta(data: &str) -> (r: Option<String>)
    ensures
        match r {
            Some(t) => spec_text_delta(data@) == Some(t@),
            None => spec_text_delta(data@) is None,
        },
{
    let v = parse_json(data)?;
    let kind = v.get_str("type")?;
    if !text_eq(kind, "content_block_delta") {
        return None;
    }
    let d = v.get("delta")?;
    let t = d.get_str("text")?;
    Some(t.to_owned())
}

} // verus!
