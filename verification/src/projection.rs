//! Message projection: stored rows to the message list sent to the LLM.
//!
//! Rows are reshaped for provider compatibility: tool results are kept only
//! when they answer a tool call announced by the assistant message just
//! before them, an assistant message whose tool calls go unanswered is
//! dropped, compaction boundaries become their summary, and failed-request
//! rows are skipped.
use vstd::prelude::*;

use crate::json::{
    field_array, field_bool, field_str, json_entry_views, json_get, json_view, json_views,
    parse_json, parsed_json, Json, JsonView,
};
use crate::traits::StoredMessage;
use crate::text::{has_prefix, is_blank, starts_with, text_eq, trims_to_empty};

verus! {

/// A tool call announced by an assistant message.
#[derive(Debug, Clone)]
pub struct LlmToolCall {
    pub id: String,
    pub name: String,
    pub arguments: String,
}

/// One message of an LLM request.
#[derive(Debug, Clone)]
pub struct LlmMessage {
    pub role: String,
    pub text_content: String,
    pub tool_calls: Option<Vec<LlmToolCall>>,
    pub tool_call_id: Option<String>,
    pub thinking: Option<String>,
}

/// The text of a tool call.
pub struct ToolCallView {
    pub id: Seq<char>,
    pub name: Seq<char>,
    pub arguments: Seq<char>,
}

/// The text of a message.
pub struct MessageView {
    pub role: Seq<char>,
    pub text: Seq<char>,
    pub tool_calls: Option<Seq<ToolCallView>>,
    pub tool_call_id: Option<Seq<char>>,
    pub thinking: Option<Seq<char>>,
}

impl View for LlmToolCall {
    type V = ToolCallView;

    open spec fn view(&self) -> ToolCallView {
        ToolCallView { id: self.id@, name: self.name@, arguments: self.arguments@ }
    }
}

pub open spec fn opt_text(s: Option<String>) -> Option<Seq<char>> {
    match s {
        Some(t) => Some(t@),
        None => None,
    }
}

pub open spec fn calls_view(calls: Seq<LlmToolCall>) -> Seq<ToolCallView> {
    calls.map_values(|c: LlmToolCall| c@)
}

impl View for LlmMessage {
    type V = MessageView;

    open spec fn view(&self) -> MessageView {
        MessageView {
            role: self.role@,
            text: self.text_content@,
            tool_calls: match self.tool_calls {
                Some(calls) => Some(calls_view(calls@)),
                None => None,
            },
            tool_call_id: opt_text(self.tool_call_id),
            thinking: opt_text(self.thinking),
        }
    }
}

pub open spec fn messages_view(ms: Seq<LlmMessage>) -> Seq<MessageView> {
    ms.map_values(|m: LlmMessage| m@)
}

pub open spec fn texts_view(ts: Seq<String>) -> Seq<Seq<char>> {
    ts.map_values(|t: String| t@)
}

// ---------------------------------------------------------------------------
// Specification
// ---------------------------------------------------------------------------

/// The projection's state: the messages so far, and the tool-call ids the
/// last assistant message announced that have not been answered yet.
pub struct ProjectionState {
    pub out: Seq<MessageView>,
    pub pending: Seq<Seq<char>>,
}

/// `pending` with `id` added unless already there.
pub open spec fn pending_insert(pending: Seq<Seq<char>>, id: Seq<char>) -> Seq<Seq<char>> {
    if pending.contains(id) {
        pending
    } else {
        pending.push(id)
    }
}

/// `pending` without its first `id`.
pub open spec fn pending_remove(pending: Seq<Seq<char>>, id: Seq<char>) -> Seq<Seq<char>>
    decreases pending.len(),
{
    if pending.len() == 0 {
        pending
    } else if pending[0] == id {
        pending.drop_first()
    } else {
        seq![pending[0]] + pending_remove(pending.drop_first(), id)
    }
}

pub open spec fn text_or_empty(t: Option<Seq<char>>) -> Seq<char> {
    match t {
        Some(s) => s,
        None => Seq::empty(),
    }
}

/// The tool call an assistant payload's `tool_calls` item describes: its
/// `id`, and the `name` and `arguments` of its `function` (empty where
/// missing).
pub open spec fn call_of(call: Json) -> ToolCallView {
    ToolCallView {
        id: text_or_empty(field_str(call, "id"@)),
        name: match json_get(call, "function"@) {
            Some(f) => text_or_empty(field_str(f, "name"@)),
            None => Seq::empty(),
        },
        arguments: match json_get(call, "function"@) {
            Some(f) => text_or_empty(field_str(f, "arguments"@)),
            None => Seq::empty(),
        },
    }
}

/// The ids announced by `calls`, in order, without repeats or empty ids.
pub open spec fn announced_ids(calls: Seq<Json>) -> Seq<Seq<char>>
    decreases calls.len(),
{
    if calls.len() == 0 {
        Seq::empty()
    } else {
        let earlier = announced_ids(calls.drop_last());
        let id = call_of(calls.last()).id;
        if id.len() > 0 {
            pending_insert(earlier, id)
        } else {
            earlier
        }
    }
}

pub open spec fn plain_message(role: Seq<char>, text: Seq<char>) -> MessageView {
    MessageView { role, text, tool_calls: None, tool_call_id: None, thinking: None }
}

/// The messages with an unanswered assistant message removed: when tool
/// calls are pending and the last message is the assistant's, it goes.
pub open spec fn without_orphan(st: ProjectionState) -> Seq<MessageView> {
    if st.pending.len() > 0 && st.out.len() > 0 && st.out.last().role == "assistant"@ {
        st.out.drop_last()
    } else {
        st.out
    }
}

/// An assistant payload: a JSON object with `tool_calls` or `content`.
pub open spec fn is_assistant_payload(v: Json) -> bool {
    v is Object && (json_get(v, "tool_calls"@) is Some || json_get(v, "content"@) is Some)
}

/// One row of the history projected onto the state, given what its
/// content parses to (`parsed`).
pub open spec fn project_step_parsed(
    st: ProjectionState,
    role: Seq<char>,
    content: Seq<char>,
    parsed: Option<Json>,
) -> ProjectionState {
    if role == "assistant"@ && has_prefix(content, "LLM HTTP "@) {
        st
    } else if role == "tool"@ {
        match parsed {
            Some(v) => {
                let id = text_or_empty(field_str(v, "tool_call_id"@));
                let inner = text_or_empty(field_str(v, "content"@));
                if id.len() == 0 || !st.pending.contains(id) {
                    st
                } else {
                    ProjectionState {
                        out: st.out.push(
                            MessageView {
                                role: "tool"@,
                                text: inner,
                                tool_calls: None,
                                tool_call_id: Some(id),
                                thinking: None,
                            },
                        ),
                        pending: pending_remove(st.pending, id),
                    }
                }
            },
            None => st,
        }
    } else if role == "assistant"@ {
        let out = without_orphan(st);
        match parsed {
            Some(v) => if is_assistant_payload(v) {
                ProjectionState {
                    out: out.push(
                        MessageView {
                            role: "assistant"@,
                            text: text_or_empty(field_str(v, "content"@)),
                            tool_calls: match field_array(v, "tool_calls"@) {
                                Some(items) => Some(items.map_values(|c: Json| call_of(c))),
                                None => None,
                            },
                            tool_call_id: None,
                            thinking: field_str(v, "thinking"@),
                        },
                    ),
                    pending: match field_array(v, "tool_calls"@) {
                        Some(items) => announced_ids(items),
                        None => Seq::empty(),
                    },
                }
            } else {
                ProjectionState { out: out.push(plain_message("assistant"@, content)), pending: Seq::empty() }
            },
            None => ProjectionState {
                out: out.push(plain_message("assistant"@, content)),
                pending: Seq::empty(),
            },
        }
    } else {
        let out = without_orphan(st);
        let boundary_summary = if role == "system"@ {
            match parsed {
                Some(v) => if field_bool(v, "_compact_boundary"@) == Some(true) {
                    Some(text_or_empty(field_str(v, "summary"@)))
                } else {
                    None
                },
                None => None,
            }
        } else {
            None
        };
        match boundary_summary {
            Some(summary) => ProjectionState {
                out: out.push(plain_message("system"@, summary)),
                pending: Seq::empty(),
            },
            None => ProjectionState { out: out.push(plain_message(role, content)), pending: Seq::empty() },
        }
    }
}

/// One row of the history projected onto the state.
pub open spec fn project_step(st: ProjectionState, role: Seq<char>, content: Seq<char>) -> ProjectionState {
    project_step_parsed(st, role, content, parsed_json(content))
}

/// The rows `(id, role, content)` projected in order from `start`.
pub open spec fn project_rows(start: ProjectionState, rows: Seq<(String, String, String)>) -> ProjectionState
    decreases rows.len(),
{
    if rows.len() == 0 {
        start
    } else {
        let st = project_rows(start, rows.drop_last());
        project_step(st, rows.last().1@, rows.last().2@)
    }
}

/// The projection of a history with an optional system prompt: the prompt
/// first (unless it is blank), then the rows, and a final assistant message
/// whose tool calls are still unanswered removed.
pub open spec fn spec_build_llm_messages(
    rows: Seq<(String, String, String)>,
    system_prompt: Option<Seq<char>>,
) -> Seq<MessageView> {
    let start_out = match system_prompt {
        Some(sys) => if !is_blank(sys) {
            seq![plain_message("system"@, sys)]
        } else {
            Seq::empty()
        },
        None => Seq::empty(),
    };
    without_orphan(project_rows(ProjectionState { out: start_out, pending: Seq::empty() }, rows))
}

// ---------------------------------------------------------------------------
// Implementation
// ---------------------------------------------------------------------------

fn plain(role: &str, text: &str) -> (m: LlmMessage)
    ensures
        m@ == plain_message(role@, text@),
{
    LlmMessage {
        role: role.to_owned(),
        text_content: text.to_owned(),
        tool_calls: None,
        tool_call_id: None,
        thinking: None,
    }
}

fn contains_text(pending: &Vec<String>, id: &str) -> (r: Option<usize>)
    ensures
        r is Some == texts_view(pending@).contains(id@),
        r matches Some(i) ==> i < pending.len() && pending@[i as int]@ == id@ && forall|j: int|
            0 <= j < i ==> pending@[j]@ != id@,
{
    let mut i: usize = 0;
    while i < pending.len()
        invariant
            i <= pending.len(),
            forall|j: int| 0 <= j < i ==> pending@[j]@ != id@,
        decreases pending.len() - i,
    {
        if text_eq(pending[i].as_str(), id) {
            assert(texts_view(pending@)[i as int] == id@);
            return Some(i);
        }
        i = i + 1;
    }
    assert(!texts_view(pending@).contains(id@)) by {
        if texts_view(pending@).contains(id@) {
            let k = choose|k: int| 0 <= k < texts_view(pending@).len() && texts_view(pending@)[k] == id@;
            assert(pending@[k]@ == id@);
        }
    }
    None
}

fn insert_pending(pending: &mut Vec<String>, id: &str)
    ensures
        texts_view(final(pending)@) == pending_insert(texts_view(old(pending)@), id@),
{
    if contains_text(pending, id).is_none() {
        pending.push(id.to_owned());
        assert(texts_view(pending@) =~= texts_view(old(pending)@).push(id@));
    }
}

proof fn lemma_pending_remove_at(p: Seq<Seq<char>>, id: Seq<char>, i: int)
    requires
        0 <= i < p.len(),
        p[i] == id,
        forall|j: int| 0 <= j < i ==> p[j] != id,
    ensures
        pending_remove(p, id) == p.remove(i),
    decreases i,
{
    if i == 0 {
        assert(p.remove(0) =~= p.drop_first());
    } else {
        lemma_pending_remove_at(p.drop_first(), id, i - 1);
        assert(p.remove(i) =~= seq![p[0]] + p.drop_first().remove(i - 1));
    }
}

/// Removes `id` from the pending ids; false when it was not pending.
fn remove_pending(pending: &mut Vec<String>, id: &str) -> (r: bool)
    ensures
        r == texts_view(old(pending)@).contains(id@),
        r ==> texts_view(final(pending)@) == pending_remove(texts_view(old(pending)@), id@),
        !r ==> final(pending)@ == old(pending)@,
{
    match contains_text(pending, id) {
        Some(i) => {
            let ghost before = texts_view(pending@);
            pending.remove(i);
            proof {
                lemma_pending_remove_at(before, id@, i as int);
                assert(texts_view(pending@) =~= before.remove(i as int));
            }
            true
        },
        None => false,
    }
}

fn drop_orphan(out: &mut Vec<LlmMessage>, pending: &Vec<String>)
    ensures
        messages_view(final(out)@) == without_orphan(
            ProjectionState { out: messages_view(old(out)@), pending: texts_view(pending@) },
        ),
{
    if pending.len() > 0 && out.len() > 0 && text_eq(out[out.len() - 1].role.as_str(), "assistant") {
        out.pop();
        assert(messages_view(out@) =~= messages_view(old(out)@).drop_last());
    }
}

fn text_or_blank(t: Option<&str>) -> (r: String)
    ensures
        r@ == text_or_empty(
            match t {
                Some(s) => Some(s@),
                None => None,
            },
        ),
{
    match t {
        Some(s) => s.to_owned(),
        None => String::new(),
    }
}

fn call_from_json(call: &Json) -> (r: LlmToolCall)
    ensures
        r@ == call_of(*call),
{
    let id = text_or_blank(call.get_str("id"));
    let (name, arguments) = match call.get("function") {
        Some(f) => (text_or_blank(f.get_str("name")), text_or_blank(f.get_str("arguments"))),
        None => (String::new(), String::new()),
    };
    LlmToolCall { id, name, arguments }
}

/// The tool calls of an assistant payload's `tool_calls` items, and their ids
/// added to the pending ids.
fn calls_from_json(items: &Vec<Json>, pending: &mut Vec<String>) -> (r: Vec<LlmToolCall>)
    requires
        old(pending)@.len() == 0,
    ensures
        calls_view(r@) == items@.map_values(|c: Json| call_of(c)),
        texts_view(final(pending)@) == announced_ids(items@),
{
    let mut calls: Vec<LlmToolCall> = Vec::new();
    let mut i: usize = 0;
    assert(items@.subrange(0, 0) =~= Seq::<Json>::empty());
    assert(texts_view(pending@) =~= Seq::<Seq<char>>::empty());
    while i < items.len()
        invariant
            i <= items.len(),
            calls_view(calls@) == items@.subrange(0, i as int).map_values(|c: Json| call_of(c)),
            texts_view(pending@) == announced_ids(items@.subrange(0, i as int)),
        decreases items.len() - i,
    {
        let call = call_from_json(&items[i]);
        let ghost prefix = items@.subrange(0, i + 1);
        assert(prefix.drop_last() =~= items@.subrange(0, i as int));
        assert(prefix.last() == items@[i as int]);
        if !call.id.as_str().is_empty() {
            insert_pending(pending, call.id.as_str());
        }
        let ghost old_calls = calls_view(calls@);
        let ghost one = call_of(items@[i as int]);
        assert(call@ == one);
        calls.push(call);
        assert(calls_view(calls@) =~= old_calls.push(one));
        assert(prefix.map_values(|c: Json| call_of(c)) =~= items@.subrange(0, i as int).map_values(
            |c: Json| call_of(c),
        ).push(one));
        i = i + 1;
    }
    assert(items@.subrange(0, i as int) =~= items@);
    calls
}

/// Projects one stored row onto `out` and `pending`.
fn project_row(out: &mut Vec<LlmMessage>, pending: &mut Vec<String>, role: &str, content: &str)
    ensures
        ({
            let st = project_step(
                ProjectionState { out: messages_view(old(out)@), pending: texts_view(old(pending)@) },
                role@,
                content@,
            );
            &&& messages_view(final(out)@) == st.out
            &&& texts_view(final(pending)@) == st.pending
        }),
{
    let parsed = parse_json(content);
    project_parsed_row(out, pending, role, content, parsed);
}

/// Projects one stored row onto `out` (the messages so far) and `pending`
/// (the announced tool-call ids not yet answered), given what its content
/// parses to.
pub fn project_parsed_row(
    out: &mut Vec<LlmMessage>,
    pending: &mut Vec<String>,
    role: &str,
    content: &str,
    parsed: Option<Json>,
)
    ensures
        ({
            let st = project_step_parsed(
                ProjectionState { out: messages_view(old(out)@), pending: texts_view(old(pending)@) },
                role@,
                content@,
                parsed,
            );
            &&& messages_view(final(out)@) == st.out
            &&& texts_view(final(pending)@) == st.pending
        }),
{
    let ghost st0 = ProjectionState {
        out: messages_view(out@),
        pending: texts_view(pending@),
    };
    let is_assistant = text_eq(role, "assistant");
    if is_assistant && starts_with(content, "LLM HTTP ") {
        return;
    }
    if text_eq(role, "tool") {
        if let Some(v) = &parsed {
            let tool_call_id = text_or_blank(v.get_str("tool_call_id"));
            let inner = text_or_blank(v.get_str("content"));
            if tool_call_id.as_str().is_empty() {
                return;
            }
            if !remove_pending(pending, tool_call_id.as_str()) {
                return;
            }
            let m = LlmMessage {
                role: "tool".to_owned(),
                text_content: inner,
                tool_calls: None,
                tool_call_id: Some(tool_call_id),
                thinking: None,
            };
            out.push(m);
            assert(messages_view(out@) =~= st0.out.push(m@));
        }
        return;
    }
    drop_orphan(out, pending);
    let ghost out1 = messages_view(out@);
    pending.clear();
    assert(texts_view(pending@) =~= Seq::<Seq<char>>::empty());
    if is_assistant {
        if let Some(v) = &parsed {
            if v.is_object() && (v.get("tool_calls").is_some() || v.get("content").is_some()) {
                let text_content = text_or_blank(v.get_str("content"));
                let tool_calls = match v.get_array("tool_calls") {
                    Some(items) => Some(calls_from_json(items, pending)),
                    None => None,
                };
                let thinking = match v.get_str("thinking") {
                    Some(t) => Some(t.to_owned()),
                    None => None,
                };
                let m = LlmMessage {
                    role: "assistant".to_owned(),
                    text_content,
                    tool_calls,
                    tool_call_id: None,
                    thinking,
                };
                out.push(m);
                assert(messages_view(out@) =~= out1.push(m@));
                return;
            }
        }
        let m = plain("assistant", content);
        out.push(m);
        assert(messages_view(out@) =~= out1.push(m@));
        return;
    }
    if text_eq(role, "system") {
        if let Some(v) = &parsed {
            if let Some(true) = v.get_bool("_compact_boundary") {
                let summary = text_or_blank(v.get_str("summary"));
                let m = plain("system", summary.as_str());
                out.push(m);
                assert(messages_view(out@) =~= out1.push(m@));
                return;
            }
        }
    }
    let m = plain(role, content);
    out.push(m);
    assert(messages_view(out@) =~= out1.push(m@));
}

/// Build the LLM message list from stored rows `(id, role, content)` and an
/// optional system prompt. Filters, reshapes, and handles orphan
/// tool_call_ids for provider compatibility.
pub fn build_llm_messages(
    messages: &[(String, String, String)],
    system_prompt: Option<&str>,
) -> (r: Vec<LlmMessage>)
    ensures
        messages_view(r@) == spec_build_llm_messages(
            messages@,
            match system_prompt {
                Some(s) => Some(s@),
                None => None,
            },
        ),
        tool_results_paired(messages_view(r@)),
{
    proof {
        lemma_projection_pairs_tool_results(
            messages@,
            match system_prompt {
                Some(s) => Some(s@),
                None => None,
            },
        );
    }
    let mut out: Vec<LlmMessage> = Vec::new();
    if let Some(sys) = system_prompt {
        if !trims_to_empty(sys) {
            out.push(plain("system", sys));
        }
    }
    let mut pending: Vec<String> = Vec::new();
    let ghost start = ProjectionState { out: messages_view(out@), pending: texts_view(pending@) };
    assert(start.out =~= match system_prompt {
        Some(s) => if !is_blank(s@) {
            seq![plain_message("system"@, s@)]
        } else {
            Seq::<MessageView>::empty()
        },
        None => Seq::<MessageView>::empty(),
    });
    assert(start.pending =~= Seq::<Seq<char>>::empty());
    let mut i: usize = 0;
    assert(messages@.subrange(0, 0) =~= Seq::<(String, String, String)>::empty());
    while i < messages.len()
        invariant
            i <= messages.len(),
            ({
                let st = project_rows(start, messages@.subrange(0, i as int));
                &&& messages_view(out@) == st.out
                &&& texts_view(pending@) == st.pending
            }),
        decreases messages.len() - i,
    {
        let ghost prefix = messages@.subrange(0, i + 1);
        assert(prefix.drop_last() =~= messages@.subrange(0, i as int));
        assert(prefix.last() == messages@[i as int]);
        project_row(&mut out, &mut pending, messages[i].1.as_str(), messages[i].2.as_str());
        i = i + 1;
    }
    assert(messages@.subrange(0, i as int) =~= messages@);
    drop_orphan(&mut out, &pending);
    out
}


// ---------------------------------------------------------------------------
// Laws
// ---------------------------------------------------------------------------

/// `m` is an assistant message announcing a call with id `id`.
pub open spec fn announces(m: MessageView, id: Seq<char>) -> bool {
    &&& m.role == "assistant"@
    &&& m.tool_calls matches Some(calls)
    &&& exists|i: int| 0 <= i < calls.len() && (#[trigger] calls[i]).id == id
}

/// Tool message `k` answers the assistant message `j` before it: `j`
/// announces its id, and only tool messages stand between them.
pub open spec fn answers(out: Seq<MessageView>, j: int, k: int) -> bool {
    &&& 0 <= j < k
    &&& out[k].tool_call_id matches Some(id) && announces(out[j], id)
    &&& forall|m: int| j < m < k ==> (#[trigger] out[m]).role == "tool"@
}

/// Every tool message answers an assistant message before it.
pub open spec fn tool_results_paired(out: Seq<MessageView>) -> bool {
    forall|k: int| 0 <= k < out.len() && (#[trigger] out[k]).role == "tool"@ ==> exists|j: int| answers(out, j, k)
}

/// The ids still pending were all announced by one assistant message after
/// which only tool messages follow.
pub open spec fn pending_announced(st: ProjectionState) -> bool {
    st.pending.len() > 0 ==> exists|j: int| {
        &&& 0 <= j < st.out.len()
        &&& st.out[j].role == "assistant"@
        &&& forall|m: int| j < m < st.out.len() ==> (#[trigger] st.out[m]).role == "tool"@
        &&& forall|p: int| 0 <= p < st.pending.len() ==> announces(st.out[j], #[trigger] st.pending[p])
    }
}

pub open spec fn projection_inv(st: ProjectionState) -> bool {
    tool_results_paired(st.out) && pending_announced(st)
}

proof fn lemma_paired_prefix(out: Seq<MessageView>, n: int)
    requires
        tool_results_paired(out),
        0 <= n <= out.len(),
    ensures
        tool_results_paired(out.subrange(0, n)),
{
    let p = out.subrange(0, n);
    assert forall|k: int| 0 <= k < p.len() && (#[trigger] p[k]).role == "tool"@ implies exists|j: int| answers(p, j, k) by {
        assert(out[k] == p[k]);
        let j = choose|j: int| answers(out, j, k);
        assert forall|m: int| j < m < k implies (#[trigger] p[m]).role == "tool"@ by {
            assert(p[m] == out[m]);
        }
        assert(answers(p, j, k));
    }
}

proof fn lemma_paired_push_other(out: Seq<MessageView>, x: MessageView)
    requires
        tool_results_paired(out),
        x.role != "tool"@,
    ensures
        tool_results_paired(out.push(x)),
{
    let q = out.push(x);
    assert forall|k: int| 0 <= k < q.len() && (#[trigger] q[k]).role == "tool"@ implies exists|j: int| answers(q, j, k) by {
        assert(k < out.len());
        assert(q[k] == out[k]);
        let j = choose|j: int| answers(out, j, k);
        assert forall|m: int| j < m < k implies (#[trigger] q[m]).role == "tool"@ by {
            assert(q[m] == out[m]);
        }
        assert(answers(q, j, k));
    }
}

proof fn lemma_without_orphan_inv(st: ProjectionState)
    requires
        tool_results_paired(st.out),
    ensures
        tool_results_paired(without_orphan(st)),
        without_orphan(st).len() <= st.out.len(),
{
    if st.pending.len() > 0 && st.out.len() > 0 && st.out.last().role == "assistant"@ {
        lemma_paired_prefix(st.out, st.out.len() - 1);
        assert(st.out.drop_last() =~= st.out.subrange(0, st.out.len() - 1));
    }
}

proof fn lemma_pending_remove_sub(p: Seq<Seq<char>>, id: Seq<char>, x: Seq<char>)
    requires
        pending_remove(p, id).contains(x),
    ensures
        p.contains(x),
    decreases p.len(),
{
    if p.len() > 0 && p[0] != id {
        let rest = pending_remove(p.drop_first(), id);
        let q = seq![p[0]] + rest;
        let i = choose|i: int| 0 <= i < q.len() && q[i] == x;
        if i == 0 {
            assert(p[0] == x);
        } else {
            assert(rest[i - 1] == x);
            lemma_pending_remove_sub(p.drop_first(), id, x);
            let w = choose|w: int| 0 <= w < p.drop_first().len() && p.drop_first()[w] == x;
            assert(p[w + 1] == x);
        }
    } else if p.len() > 0 {
        let w = choose|w: int| 0 <= w < p.drop_first().len() && p.drop_first()[w] == x;
        assert(p[w + 1] == x);
    }
}

proof fn lemma_announced_ids_from_calls(items: Seq<Json>, x: Seq<char>)
    requires
        announced_ids(items).contains(x),
    ensures
        exists|i: int| 0 <= i < items.len() && call_of(#[trigger] items[i]).id == x,
    decreases items.len(),
{
    let earlier = announced_ids(items.drop_last());
    let id = call_of(items.last()).id;
    if id.len() > 0 && !earlier.contains(id) && x == id {
        assert(call_of(items[items.len() - 1]).id == x);
    } else {
        if id.len() > 0 && !earlier.contains(id) {
            let q = earlier.push(id);
            let i = choose|i: int| 0 <= i < q.len() && q[i] == x;
            assert(earlier[i] == x);
        }
        lemma_announced_ids_from_calls(items.drop_last(), x);
        let i = choose|i: int| 0 <= i < items.drop_last().len() && call_of(#[trigger] items.drop_last()[i]).id == x;
        assert(items[i] == items.drop_last()[i]);
    }
}

proof fn lemma_step_inv(st: ProjectionState, role: Seq<char>, content: Seq<char>)
    requires
        projection_inv(st),
    ensures
        projection_inv(project_step(st, role, content)),
{
    let next = project_step(st, role, content);
    reveal_strlit("tool");
    reveal_strlit("assistant");
    reveal_strlit("system");
    assert("tool"@.len() == 4 && "assistant"@.len() == 9 && "system"@.len() == 6);
    if role == "assistant"@ && crate::text::has_prefix(content, "LLM HTTP "@) {
    } else if role == "tool"@ {
        match parsed_json(content) {
            Some(v) => {
                let id = text_or_empty(field_str(v, "tool_call_id"@));
                if id.len() == 0 || !st.pending.contains(id) {
                } else {
                    let j = choose|j: int| {
                        &&& 0 <= j < st.out.len()
                        &&& st.out[j].role == "assistant"@
                        &&& forall|m: int| j < m < st.out.len() ==> (#[trigger] st.out[m]).role == "tool"@
                        &&& forall|p: int| 0 <= p < st.pending.len() ==> announces(st.out[j], #[trigger] st.pending[p])
                    };
                    let out = next.out;
                    let pi = choose|pi: int| 0 <= pi < st.pending.len() && st.pending[pi] == id;
                    assert(announces(st.out[j], st.pending[pi]));
                    assert(out =~= st.out.push(out.last()));
                    assert forall|k: int| 0 <= k < out.len() && (#[trigger] out[k]).role == "tool"@ implies exists|j2: int| answers(out, j2, k) by {
                        if k == st.out.len() {
                            assert forall|m: int| j < m < k implies (#[trigger] out[m]).role == "tool"@ by {
                                assert(out[m] == st.out[m]);
                            }
                            assert(out[j] == st.out[j]);
                            assert(answers(out, j, k));
                        } else {
                            assert(out[k] == st.out[k]);
                            let j3 = choose|j3: int| answers(st.out, j3, k);
                            assert forall|m: int| j3 < m < k implies (#[trigger] out[m]).role == "tool"@ by {
                                assert(out[m] == st.out[m]);
                            }
                            assert(out[j3] == st.out[j3]);
                            assert(answers(out, j3, k));
                        }
                    }
                    if next.pending.len() > 0 {
                        assert forall|p: int| 0 <= p < next.pending.len() implies announces(next.out[j], #[trigger] next.pending[p]) by {
                            assert(next.pending.contains(next.pending[p]));
                            lemma_pending_remove_sub(st.pending, id, next.pending[p]);
                            let w = choose|w: int| 0 <= w < st.pending.len() && st.pending[w] == next.pending[p];
                            assert(announces(st.out[j], st.pending[w]));
                            assert(next.out[j] == st.out[j]);
                        }
                        assert forall|m: int| j < m < next.out.len() implies (#[trigger] next.out[m]).role == "tool"@ by {
                            if m < st.out.len() {
                                assert(next.out[m] == st.out[m]);
                            }
                        }
                    }
                }
            },
            None => {},
        }
    } else if role == "assistant"@ {
        lemma_without_orphan_inv(st);
        let out1 = without_orphan(st);
        let last = next.out.last();
        assert(next.out =~= out1.push(last));
        lemma_paired_push_other(out1, last);
        match parsed_json(content) {
            Some(v) => if is_assistant_payload(v) {
                match field_array(v, "tool_calls"@) {
                    Some(items) => {
                        let j = out1.len() as int;
                        assert(next.out[j] == last);
                        assert(last.role == "assistant"@);
                        assert(last.tool_calls == Some(items.map_values(|c: Json| call_of(c))));
                        assert forall|p: int| 0 <= p < next.pending.len() implies announces(next.out[j], #[trigger] next.pending[p]) by {
                            assert(next.pending == announced_ids(items));
                            assert(announced_ids(items)[p] == next.pending[p]);
                            assert(announced_ids(items).contains(next.pending[p]));
                            lemma_announced_ids_from_calls(items, next.pending[p]);
                            let i = choose|i: int| 0 <= i < items.len() && call_of(#[trigger] items[i]).id == next.pending[p];
                            let calls = items.map_values(|c: Json| call_of(c));
                            assert(calls[i].id == next.pending[p]);
                            assert(next.out[j].tool_calls->0 == calls);
                            assert(next.out[j].tool_calls->0[i].id == next.pending[p]);
                        }
                        assert(forall|m: int| j < m < next.out.len() ==> (#[trigger] next.out[m]).role == "tool"@);
                    },
                    None => {},
                }
            } else {},
            None => {},
        }
    } else {
        lemma_without_orphan_inv(st);
        let out1 = without_orphan(st);
        let last = next.out.last();
        assert(next.out =~= out1.push(last));
        lemma_paired_push_other(out1, last);
    }
}

proof fn lemma_rows_inv(start: ProjectionState, rows: Seq<(String, String, String)>)
    requires
        projection_inv(start),
    ensures
        projection_inv(project_rows(start, rows)),
    decreases rows.len(),
{
    if rows.len() > 0 {
        lemma_rows_inv(start, rows.drop_last());
        lemma_step_inv(project_rows(start, rows.drop_last()), rows.last().1@, rows.last().2@);
    }
}

/// Provider compatibility of the projection: every tool message in the
/// result answers an assistant message before it that announced its id,
/// with only tool messages in between.
pub proof fn lemma_projection_pairs_tool_results(
    rows: Seq<(String, String, String)>,
    system_prompt: Option<Seq<char>>,
)
    ensures
        tool_results_paired(spec_build_llm_messages(rows, system_prompt)),
{
    reveal_strlit("system");
    reveal_strlit("tool");
    assert("tool"@.len() == 4 && "system"@.len() == 6);
    let start_out = match system_prompt {
        Some(sys) => if !is_blank(sys) {
            seq![plain_message("system"@, sys)]
        } else {
            Seq::empty()
        },
        None => Seq::empty(),
    };
    let start = ProjectionState { out: start_out, pending: Seq::empty() };
    assert(tool_results_paired(start_out));
    lemma_rows_inv(start, rows);
    lemma_without_orphan_inv(project_rows(start, rows));
}

/// Messages before the projected rows, whose last is not an assistant
/// message, stay in front of the projection unchanged.
proof fn lemma_step_prefix(p: Seq<MessageView>, st: ProjectionState, role: Seq<char>, content: Seq<char>)
    requires
        st.pending.len() > 0 ==> st.out.len() > 0,
    ensures
        project_step(ProjectionState { out: p + st.out, pending: st.pending }, role, content) == (
        ProjectionState { out: p + project_step(st, role, content).out, pending: project_step(st, role, content).pending }),
        project_step(st, role, content).pending.len() > 0 ==> project_step(st, role, content).out.len() > 0,
{
    let big = ProjectionState { out: p + st.out, pending: st.pending };
    if st.pending.len() > 0 && st.out.len() > 0 {
        assert((p + st.out).last() == st.out.last());
        assert((p + st.out).drop_last() =~= p + st.out.drop_last());
    }
    assert(without_orphan(big) =~= p + without_orphan(st));
    let small = project_step(st, role, content);
    let large = project_step(big, role, content);
    assert forall|m: MessageView| (p + without_orphan(st)).push(m) =~= p + without_orphan(st).push(m) by {}
    assert forall|m: MessageView| (p + st.out).push(m) =~= p + st.out.push(m) by {}
    if role == "assistant"@ && has_prefix(content, "LLM HTTP "@) {
    } else {
        assert(large.out =~= p + small.out);
    }
}

proof fn lemma_rows_prefix(p: Seq<MessageView>, rows: Seq<(String, String, String)>)
    ensures
        project_rows(ProjectionState { out: p, pending: Seq::empty() }, rows) == (ProjectionState {
            out: p + project_rows(ProjectionState { out: Seq::empty(), pending: Seq::empty() }, rows).out,
            pending: project_rows(ProjectionState { out: Seq::empty(), pending: Seq::empty() }, rows).pending,
        }),
        project_rows(ProjectionState { out: Seq::empty(), pending: Seq::empty() }, rows).pending.len() > 0
            ==> project_rows(ProjectionState { out: Seq::empty(), pending: Seq::empty() }, rows).out.len() > 0,
    decreases rows.len(),
{
    let e = ProjectionState { out: Seq::<MessageView>::empty(), pending: Seq::<Seq<char>>::empty() };
    if rows.len() == 0 {
        assert(p + e.out =~= p);
    } else {
        lemma_rows_prefix(p, rows.drop_last());
        let st = project_rows(e, rows.drop_last());
        lemma_step_prefix(p, st, rows.last().1@, rows.last().2@);
    }
}

/// A system prompt that is not blank comes first, followed by the
/// projection without it; a blank one changes nothing.
pub proof fn lemma_system_prompt_comes_first(
    rows: Seq<(String, String, String)>,
    system_prompt: Seq<char>,
)
    ensures
        !is_blank(system_prompt) ==> spec_build_llm_messages(rows, Some(system_prompt)) == seq![
            plain_message("system"@, system_prompt),
        ] + spec_build_llm_messages(rows, None),
        is_blank(system_prompt) ==> spec_build_llm_messages(rows, Some(system_prompt))
            == spec_build_llm_messages(rows, None),
{
    let e = ProjectionState { out: Seq::<MessageView>::empty(), pending: Seq::<Seq<char>>::empty() };
    let p = seq![plain_message("system"@, system_prompt)];
    lemma_rows_prefix(p, rows);
    let whole = project_rows(e, rows);
    if !is_blank(system_prompt) {
        reveal_strlit("system");
        reveal_strlit("assistant");
        assert("system"@ != "assistant"@) by {
            assert("system"@.len() == 6 && "assistant"@.len() == 9);
        }
        if whole.pending.len() > 0 && whole.out.len() > 0 {
            assert((p + whole.out).last() == whole.out.last());
            assert((p + whole.out).drop_last() =~= p + whole.out.drop_last());
        }
        assert(without_orphan(ProjectionState { out: p + whole.out, pending: whole.pending }) =~= p
            + without_orphan(whole));
    }
}

/// A stored compaction boundary (a system row whose JSON content has
/// `_compact_boundary: true`) is projected as a system message holding
/// exactly its summary.
pub proof fn lemma_boundary_projects_to_summary(
    st: ProjectionState,
    text: Seq<char>,
    v: Json,
    summary: Seq<char>,
)
    requires
        parsed_json(text) == Some(v),
        field_bool(v, "_compact_boundary"@) == Some(true),
        field_str(v, "summary"@) == Some(summary),
    ensures
        project_step(st, "system"@, text) == (ProjectionState {
            out: without_orphan(st).push(plain_message("system"@, summary)),
            pending: Seq::empty(),
        }),
{
    reveal_strlit("system");
    reveal_strlit("tool");
    reveal_strlit("assistant");
    assert("system"@.len() == 6 && "tool"@.len() == 4 && "assistant"@.len() == 9);
}

// ---------------------------------------------------------------------------
// OpenAI-format values
// ---------------------------------------------------------------------------

/// The OpenAI-format value of a tool call.
pub open spec fn call_json(c: ToolCallView) -> JsonView {
    JsonView::Object(
        seq![
            ("id"@, JsonView::Str(c.id)),
            ("type"@, JsonView::Str("function"@)),
            (
                "function"@,
                JsonView::Object(
                    seq![("name"@, JsonView::Str(c.name)), ("arguments"@, JsonView::Str(c.arguments))],
                ),
            ),
        ],
    )
}

/// The OpenAI-format value of a message: a tool result carries its
/// `tool_call_id` (null when absent); an assistant message carries non-empty
/// thinking as `reasoning_content` and its tool calls as `tool_calls`; any
/// other message is its role and content.
pub open spec fn message_json(m: MessageView) -> JsonView {
    if m.role == "tool"@ {
        JsonView::Object(
            seq![
                ("role"@, JsonView::Str("tool"@)),
                (
                    "tool_call_id"@,
                    match m.tool_call_id {
                        Some(id) => JsonView::Str(id),
                        None => JsonView::Null,
                    },
                ),
                ("content"@, JsonView::Str(m.text)),
            ],
        )
    } else if m.role == "assistant"@ {
        let base = seq![("role"@, JsonView::Str("assistant"@)), ("content"@, JsonView::Str(m.text))];
        let with_thinking = match m.thinking {
            Some(t) => if t.len() > 0 {
                base.push(("reasoning_content"@, JsonView::Str(t)))
            } else {
                base
            },
            None => base,
        };
        JsonView::Object(
            match m.tool_calls {
                Some(calls) => with_thinking.push(
                    ("tool_calls"@, JsonView::Array(calls.map_values(|c: ToolCallView| call_json(c)))),
                ),
                None => with_thinking,
            },
        )
    } else {
        JsonView::Object(seq![("role"@, JsonView::Str(m.role)), ("content"@, JsonView::Str(m.text))])
    }
}

/// The first member named `key` among `entries`.
pub open spec fn entry_named(entries: Seq<(Seq<char>, JsonView)>, key: Seq<char>) -> Option<JsonView>
    decreases entries.len(),
{
    if entries.len() == 0 {
        None
    } else if entries[0].0 == key {
        Some(entries[0].1)
    } else {
        entry_named(entries.drop_first(), key)
    }
}

/// The member `key` of an object view; `None` for other values.
pub open spec fn view_member(v: JsonView, key: Seq<char>) -> Option<JsonView> {
    match v {
        JsonView::Object(entries) => entry_named(entries, key),
        _ => None,
    }
}

/// What every message value carries: its role and its text as `content`;
/// a tool message its `tool_call_id` (null when it has none); an assistant
/// message its non-empty thinking as `reasoning_content` and its tool calls
/// as `tool_calls`, each only where it has them.
pub proof fn lemma_message_value_members(m: MessageView)
    ensures
        view_member(message_json(m), "role"@) == Some(JsonView::Str(m.role)),
        view_member(message_json(m), "content"@) == Some(JsonView::Str(m.text)),
        m.role == "tool"@ ==> view_member(message_json(m), "tool_call_id"@) == Some(
            match m.tool_call_id {
                Some(id) => JsonView::Str(id),
                None => JsonView::Null,
            },
        ),
        m.role == "assistant"@ ==> view_member(message_json(m), "reasoning_content"@) == (match m.thinking {
            Some(t) => if t.len() > 0 {
                Some(JsonView::Str(t))
            } else {
                None
            },
            None => None,
        }),
        m.role == "assistant"@ ==> view_member(message_json(m), "tool_calls"@) == (match m.tool_calls {
            Some(calls) => Some(JsonView::Array(calls.map_values(|c: ToolCallView| call_json(c)))),
            None => None,
        }),
{
    reveal_strlit("role");
    reveal_strlit("content");
    reveal_strlit("tool");
    reveal_strlit("assistant");
    reveal_strlit("tool_call_id");
    reveal_strlit("reasoning_content");
    reveal_strlit("tool_calls");
    assert("role"@.len() == 4 && "content"@.len() == 7 && "tool_call_id"@.len() == 12);
    assert("reasoning_content"@.len() == 17 && "tool_calls"@.len() == 10);
    assert("tool"@.len() == 4 && "assistant"@.len() == 9);
    reveal_with_fuel(entry_named, 6);
    if m.role == "assistant"@ {
        let base = seq![("role"@, JsonView::Str("assistant"@)), ("content"@, JsonView::Str(m.text))];
        let with_thinking = match m.thinking {
            Some(t) => if t.len() > 0 {
                base.push(("reasoning_content"@, JsonView::Str(t)))
            } else {
                base
            },
            None => base,
        };
        let all = match m.tool_calls {
            Some(calls) => with_thinking.push(
                ("tool_calls"@, JsonView::Array(calls.map_values(|c: ToolCallView| call_json(c)))),
            ),
            None => with_thinking,
        };
        assert(all[0] == ("role"@, JsonView::Str("assistant"@)));
        assert(all[1] == ("content"@, JsonView::Str(m.text)));
        assert(all.drop_first()[0] == all[1]);
        if all.len() > 2 {
            assert(all.drop_first().drop_first()[0] == all[2]);
        }
        if all.len() > 3 {
            assert(all.drop_first().drop_first().drop_first()[0] == all[3]);
        }
        assert(all.len() <= 4);
        if all.len() == 4 {
            assert(all.drop_first().drop_first().drop_first().drop_first().len() == 0);
        } else if all.len() == 3 {
            assert(all.drop_first().drop_first().drop_first().len() == 0);
        } else {
            assert(all.drop_first().drop_first().len() == 0);
        }
    } else if m.role == "tool"@ {
        let all = seq![
            ("role"@, JsonView::Str("tool"@)),
            (
                "tool_call_id"@,
                match m.tool_call_id {
                    Some(id) => JsonView::Str(id),
                    None => JsonView::Null,
                },
            ),
            ("content"@, JsonView::Str(m.text)),
        ];
        assert(all.drop_first()[0] == all[1]);
        assert(all.drop_first().drop_first()[0] == all[2]);
    } else {
        let all = seq![("role"@, JsonView::Str(m.role)), ("content"@, JsonView::Str(m.text))];
        assert(all.drop_first()[0] == all[1]);
    }
}

fn push_member(entries: &mut Vec<(String, Json)>, key: &str, value: Json)
    ensures
        json_entry_views(final(entries)@) == json_entry_views(old(entries)@).push(
            (key@, json_view(value)),
        ),
{
    let ghost v = json_view(value);
    entries.push((key.to_owned(), value));
    assert(final(entries)@.drop_last() =~= old(entries)@);
}

fn text_json(s: &str) -> (r: Json)
    ensures
        json_view(r) == JsonView::Str(s@),
{
    Json::Str(s.to_owned())
}

fn call_value(c: &LlmToolCall) -> (r: Json)
    ensures
        json_view(r) == call_json(c@),
{
    let mut function: Vec<(String, Json)> = Vec::new();
    push_member(&mut function, "name", text_json(c.name.as_str()));
    push_member(&mut function, "arguments", text_json(c.arguments.as_str()));
    let mut entries: Vec<(String, Json)> = Vec::new();
    push_member(&mut entries, "id", text_json(c.id.as_str()));
    push_member(&mut entries, "type", text_json("function"));
    let f = Json::Object(function);
    assert(json_view(f) == JsonView::Object(json_entry_views(function@)));
    push_member(&mut entries, "function", f);
    let r = Json::Object(entries);
    assert(json_entry_views(function@) =~= seq![
        ("name"@, JsonView::Str(c.name@)),
        ("arguments"@, JsonView::Str(c.arguments@)),
    ]);
    assert(json_entry_views(entries@) =~= seq![
        ("id"@, JsonView::Str(c.id@)),
        ("type"@, JsonView::Str("function"@)),
        (
            "function"@,
            JsonView::Object(
                seq![("name"@, JsonView::Str(c.name@)), ("arguments"@, JsonView::Str(c.arguments@))],
            ),
        ),
    ]);
    r
}

fn calls_value(calls: &Vec<LlmToolCall>) -> (r: Json)
    ensures
        json_view(r) == JsonView::Array(calls_view(calls@).map_values(|c: ToolCallView| call_json(c))),
{
    let mut items: Vec<Json> = Vec::new();
    let mut i: usize = 0;
    while i < calls.len()
        invariant
            i <= calls.len(),
            json_views(items@) == calls_view(calls@).subrange(0, i as int).map_values(
                |c: ToolCallView| call_json(c),
            ),
        decreases calls.len() - i,
    {
        let v = call_value(&calls[i]);
        let ghost before = items@;
        let ghost one = json_view(v);
        items.push(v);
        assert(items@.drop_last() =~= before);
        assert(calls_view(calls@).subrange(0, i + 1).map_values(|c: ToolCallView| call_json(c))
            =~= calls_view(calls@).subrange(0, i as int).map_values(|c: ToolCallView| call_json(c)).push(one));
        i = i + 1;
    }
    assert(calls_view(calls@).subrange(0, i as int) =~= calls_view(calls@));
    Json::Array(items)
}

/// The OpenAI-format value of one message.
pub fn message_value(msg: &LlmMessage) -> (r: Json)
    ensures
        json_view(r) == message_json(msg@),
{
    let mut entries: Vec<(String, Json)> = Vec::new();
    if text_eq(msg.role.as_str(), "tool") {
        push_member(&mut entries, "role", text_json("tool"));
        let id = match &msg.tool_call_id {
            Some(id) => text_json(id.as_str()),
            None => Json::Null,
        };
        push_member(&mut entries, "tool_call_id", id);
        push_member(&mut entries, "content", text_json(msg.text_content.as_str()));
        let r = Json::Object(entries);
        assert(json_entry_views(entries@) =~= match message_json(msg@) {
            JsonView::Object(e) => e,
            _ => Seq::empty(),
        });
        return r;
    }
    if text_eq(msg.role.as_str(), "assistant") {
        push_member(&mut entries, "role", text_json("assistant"));
        push_member(&mut entries, "content", text_json(msg.text_content.as_str()));
        let ghost base = json_entry_views(entries@);
        if let Some(t) = &msg.thinking {
            if !t.as_str().is_empty() {
                push_member(&mut entries, "reasoning_content", text_json(t.as_str()));
            }
        }
        let ghost with_thinking = json_entry_views(entries@);
        if let Some(calls) = &msg.tool_calls {
            push_member(&mut entries, "tool_calls", calls_value(calls));
        }
        let r = Json::Object(entries);
        assert(json_entry_views(entries@) =~= match message_json(msg@) {
            JsonView::Object(e) => e,
            _ => Seq::empty(),
        });
        return r;
    }
    push_member(&mut entries, "role", text_json(msg.role.as_str()));
    push_member(&mut entries, "content", text_json(msg.text_content.as_str()));
    assert(json_entry_views(entries@) =~= match message_json(msg@) {
        JsonView::Object(e) => e,
        _ => Seq::empty(),
    });
    Json::Object(entries)
}

/// Convert LlmMessage list to OpenAI-format JSON values for token counting.
pub fn llm_messages_to_values(messages: &[LlmMessage]) -> (r: Vec<Json>)
    ensures
        json_views(r@) == messages_view(messages@).map_values(|m: MessageView| message_json(m)),
{
    let mut out: Vec<Json> = Vec::new();
    let mut i: usize = 0;
    while i < messages.len()
        invariant
            i <= messages.len(),
            json_views(out@) == messages_view(messages@).subrange(0, i as int).map_values(
                |m: MessageView| message_json(m),
            ),
        decreases messages.len() - i,
    {
        let v = message_value(&messages[i]);
        let ghost before = out@;
        let ghost one = json_view(v);
        out.push(v);
        assert(out@.drop_last() =~= before);
        assert(messages_view(messages@).subrange(0, i + 1).map_values(|m: MessageView| message_json(m))
            =~= messages_view(messages@).subrange(0, i as int).map_values(|m: MessageView| message_json(m)).push(one));
        i = i + 1;
    }
    assert(messages_view(messages@).subrange(0, i as int) =~= messages_view(messages@));
    out
}

/// The rows of stored messages, as `(id, role, content)`.
pub open spec fn stored_rows(messages: Seq<StoredMessage>) -> Seq<(String, String, String)> {
    messages.map_values(|m: StoredMessage| (m.id, m.role, m.content))
}

/// Projects stored messages the same way as `build_llm_messages` and turns
/// them into OpenAI-format values, as the LLM would receive them.
pub fn project_messages(messages: &[StoredMessage], system_prompt: Option<&str>) -> (r: Vec<Json>)
    ensures
        json_views(r@) == spec_build_llm_messages(
            stored_rows(messages@),
            match system_prompt {
                Some(s) => Some(s@),
                None => None,
            },
        ).map_values(|m: MessageView| message_json(m)),
{
    let mut tuples: Vec<(String, String, String)> = Vec::new();
    let mut i: usize = 0;
    while i < messages.len()
        invariant
            i <= messages.len(),
            tuples@ == stored_rows(messages@.subrange(0, i as int)),
        decreases messages.len() - i,
    {
        let m = &messages[i];
        tuples.push((m.id.clone(), m.role.clone(), m.content.clone()));
        assert(tuples@ =~= stored_rows(messages@.subrange(0, i + 1)));
        i = i + 1;
    }
    assert(messages@.subrange(0, i as int) =~= messages@);
    let llm_msgs = build_llm_messages(tuples.as_slice(), system_prompt);
    llm_messages_to_values(llm_msgs.as_slice())
}

} // verus!
