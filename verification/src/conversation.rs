//! Conversation management decisions: compaction boundaries, the background
//! compaction registry, and what a compaction outcome reports.
use vstd::prelude::*;

use crate::compact::{
    evaluate, spec_trigger_threshold, total_tokens, CompactionInfo,
};
use crate::json::{field_bool, has_nonempty_array, parse_json, parsed_json, text_has_nonempty_array, Json};
use crate::model::ModelSpec;
use crate::text::{has_prefix, starts_with, text_eq};
use crate::traits::StoredMessage;

verus! {

// ---------------------------------------------------------------------------
// Settings
// ---------------------------------------------------------------------------

/// `autoCompact` from the settings; on unless it is the boolean `false`.
pub open spec fn spec_auto_compact_enabled(settings: Json) -> bool {
    match field_bool(settings, "autoCompact"@) {
        Some(b) => b,
        None => true,
    }
}

pub fn auto_compact_enabled(settings: &Json) -> (r: bool)
    ensures
        r == spec_auto_compact_enabled(*settings),
{
    match settings.get_bool("autoCompact") {
        Some(b) => b,
        None => true,
    }
}

/// The prefix of the warning given for histories with no safe split.
pub open spec fn tool_heavy_prefix() -> Seq<char> {
    "Context compaction failed: history has too many consecutive tool calls"@
}

/// Whether a compaction error is the tool-heavy warning (which is not
/// repeated to the user).
pub fn is_tool_heavy_compaction_warning(message: &str) -> (r: bool)
    ensures
        r == has_prefix(message@, tool_heavy_prefix()),
{
    starts_with(message, "Context compaction failed: history has too many consecutive tool calls")
}

// ---------------------------------------------------------------------------
// Compaction boundaries
// ---------------------------------------------------------------------------

/// `msg` is a compaction boundary: a system message whose content is JSON
/// with `_compact_boundary` set to `true`.
pub open spec fn spec_is_compact_boundary(msg: StoredMessage) -> bool {
    &&& msg.role@ == "system"@
    &&& match parsed_json(msg.content@) {
        Some(v) => field_bool(v, "_compact_boundary"@) == Some(true),
        None => false,
    }
}

/// Whether parsed content marks a compaction boundary: its
/// `_compact_boundary` member is `true`.
pub fn is_boundary_value(v: &Json) -> (r: bool)
    ensures
        r == (field_bool(*v, "_compact_boundary"@) == Some(true)),
{
    match v.get_bool("_compact_boundary") {
        Some(b) => b,
        None => false,
    }
}

pub fn is_compact_boundary(msg: &StoredMessage) -> (r: bool)
    ensures
        r == spec_is_compact_boundary(*msg),
{
    if !text_eq(msg.role.as_str(), "system") {
        return false;
    }
    match parse_json(msg.content.as_str()) {
        Some(v) => is_boundary_value(&v),
        None => false,
    }
}

/// The index of the last compaction boundary in `ms`.
pub open spec fn last_boundary(ms: Seq<StoredMessage>) -> Option<int>
    decreases ms.len(),
{
    if ms.len() == 0 {
        None
    } else if spec_is_compact_boundary(ms.last()) {
        Some(ms.len() - 1)
    } else {
        last_boundary(ms.drop_last())
    }
}

/// Where the current compaction window starts: after the last boundary.
pub open spec fn window_start(ms: Seq<StoredMessage>) -> int {
    match last_boundary(ms) {
        Some(i) => i + 1,
        None => 0,
    }
}

/// A message that compaction can summarize.
pub open spec fn is_compactable(m: StoredMessage) -> bool {
    m.role@ == "user"@ || m.role@ == "assistant"@ || m.role@ == "tool"@
}

/// There is a user, assistant or tool message after the last boundary.
pub open spec fn spec_has_compactable_content(ms: Seq<StoredMessage>) -> bool {
    exists|j: int| window_start(ms) <= j < ms.len() && is_compactable(#[trigger] ms[j])
}

proof fn lemma_last_boundary_bounds(ms: Seq<StoredMessage>)
    ensures
        last_boundary(ms) matches Some(i) ==> 0 <= i < ms.len(),
    decreases ms.len(),
{
    if ms.len() > 0 && !spec_is_compact_boundary(ms.last()) {
        lemma_last_boundary_bounds(ms.drop_last());
    }
}

fn window_start_of(messages: &[StoredMessage]) -> (r: usize)
    ensures
        r == window_start(messages@),
        r <= messages.len(),
{
    let mut i: usize = messages.len();
    assert(messages@.subrange(0, i as int) =~= messages@);
    while i > 0
        invariant
            i <= messages.len(),
            last_boundary(messages@) == last_boundary(messages@.subrange(0, i as int)),
        decreases i,
    {
        let ghost prefix = messages@.subrange(0, i as int);
        assert(prefix.drop_last() =~= messages@.subrange(0, i - 1));
        assert(prefix.last() == messages@[i - 1]);
        if is_compact_boundary(&messages[i - 1]) {
            return i;
        }
        i = i - 1;
    }
    0
}

fn is_compactable_role(m: &StoredMessage) -> (r: bool)
    ensures
        r == is_compactable(*m),
{
    let role = m.role.as_str();
    text_eq(role, "user") || text_eq(role, "assistant") || text_eq(role, "tool")
}

/// Whether there is anything to compact since the last boundary.
pub fn has_compactable_content_since_boundary(messages: &[StoredMessage]) -> (r: bool)
    ensures
        r == spec_has_compactable_content(messages@),
{
    let start = window_start_of(messages);
    let mut j: usize = start;
    while j < messages.len()
        invariant
            start == window_start(messages@),
            start <= j <= messages.len(),
            forall|k: int| start <= k < j ==> !is_compactable(#[trigger] messages@[k]),
        decreases messages.len() - j,
    {
        if is_compactable_role(&messages[j]) {
            return true;
        }
        j = j + 1;
    }
    false
}

/// Whether a session's loaded history calls for compaction: there is
/// compactable content since the last boundary, and the estimates
/// (`message_tokens[i]` for `messages[i]`) reach the trigger threshold.
pub fn needs_compaction(messages: &[StoredMessage], message_tokens: &[usize], spec: &ModelSpec) -> (r: bool)
    requires
        total_tokens(message_tokens@) <= usize::MAX,
    ensures
        r == (spec_has_compactable_content(messages@) && total_tokens(message_tokens@)
            >= spec_trigger_threshold(spec.context_window as int, spec.output_reserve as int)),
{
    if !has_compactable_content_since_boundary(messages) {
        return false;
    }
    evaluate(message_tokens, spec).should_compact
}

// ---------------------------------------------------------------------------
// Background compaction registry
// ---------------------------------------------------------------------------

/// Sessions that already have a background compaction queued or running.
pub struct InflightRegistry {
    sessions: Vec<String>,
}

impl InflightRegistry {
    /// No session is listed twice.
    #[verifier::type_invariant]
    closed spec fn sessions_distinct(&self) -> bool {
        forall|i: int, j: int|
            0 <= i < j < self.sessions@.len() ==> #[trigger] self.sessions@[i]@ != #[trigger] self.sessions@[j]@
    }

    /// `session` has a background compaction in flight.
    pub closed spec fn holds(&self, session: Seq<char>) -> bool {
        lists_text(self.sessions@, session)
    }

    pub fn new() -> (r: Self)
        ensures
            forall|s: Seq<char>| !r.holds(s),
    {
        InflightRegistry { sessions: Vec::new() }
    }

    fn position(&self, session_id: &str) -> (r: Option<usize>)
        ensures
            r is Some == self.holds(session_id@),
    {
        let mut i: usize = 0;
        while i < self.sessions.len()
            invariant
                i <= self.sessions.len(),
                forall|j: int| 0 <= j < i ==> #[trigger] self.sessions@[j]@ != session_id@,
            decreases self.sessions.len() - i,
        {
            if text_eq(self.sessions[i].as_str(), session_id) {
                return Some(i);
            }
            i = i + 1;
        }
        None
    }

    /// Marks `session_id` as in flight; false when it already was.
    pub fn try_acquire(&mut self, session_id: &str) -> (r: bool)
        ensures
            r == !old(self).holds(session_id@),
            final(self).holds(session_id@),
            forall|s: Seq<char>| s != session_id@ ==> (#[trigger] final(self).holds(s) == old(self).holds(s)),
    {
        proof {
            use_type_invariant(&*self);
        }
        if self.position(session_id).is_some() {
            return false;
        }
        let ghost before = self.sessions@;
        assert(forall|j: int| 0 <= j < before.len() ==> #[trigger] before[j]@ != session_id@);
        let mut sessions: Vec<String> = Vec::new();
        std::mem::swap(&mut sessions, &mut self.sessions);
        sessions.push(session_id.to_owned());
        assert(sessions@[before.len() as int]@ == session_id@);
        assert forall|i: int, j: int| 0 <= i < j < sessions@.len() implies #[trigger] sessions@[i]@
            != #[trigger] sessions@[j]@ by {
            if j < before.len() {
                assert(sessions@[i] == before[i] && sessions@[j] == before[j]);
            } else {
                assert(sessions@[i] == before[i]);
            }
        }
        self.sessions = sessions;
        assert(self.sessions@[before.len() as int]@ == session_id@);
        assert forall|s: Seq<char>| s != session_id@ implies (#[trigger] self.holds(s) == old(self).holds(s)) by {
            if self.holds(s) {
                let i = choose|i: int| 0 <= i < self.sessions@.len() && #[trigger] self.sessions@[i]@ == s;
                assert(i < before.len());
                assert(before[i]@ == s);
            }
            if old(self).holds(s) {
                let i = choose|i: int| 0 <= i < before.len() && #[trigger] before[i]@ == s;
                assert(self.sessions@[i]@ == s);
            }
        }
        true
    }

    /// Clears `session_id`'s in-flight mark.
    pub fn release(&mut self, session_id: &str)
        ensures
            !final(self).holds(session_id@),
            forall|s: Seq<char>| s != session_id@ ==> (#[trigger] final(self).holds(s) == old(self).holds(s)),
    {
        proof {
            use_type_invariant(&*self);
        }
        let mut kept: Vec<String> = Vec::new();
        let mut i: usize = 0;
        while i < self.sessions.len()
            invariant
                i <= self.sessions.len(),
                forall|a: int, b: int|
                    0 <= a < b < self.sessions@.len() ==> #[trigger] self.sessions@[a]@ != #[trigger] self.sessions@[b]@,
                forall|k: int|
                    0 <= k < kept@.len() ==> exists|j: int| 0 <= j < i && #[trigger] kept@[k]@ == self.sessions@[j]@,
                forall|a: int, b: int| 0 <= a < b < kept@.len() ==> #[trigger] kept@[a]@ != #[trigger] kept@[b]@,
                forall|j: int| 0 <= j < kept@.len() ==> #[trigger] kept@[j]@ != session_id@,
                forall|s: Seq<char>|
                    s != session_id@ ==> (#[trigger] lists_text(kept@, s) == lists_text(
                        self.sessions@.subrange(0, i as int),
                        s,
                    )),
            decreases self.sessions.len() - i,
        {
            let ghost before = kept@;
            let ghost seen = self.sessions@.subrange(0, i as int);
            let ghost seen_next = self.sessions@.subrange(0, i + 1);
            assert(forall|s: Seq<char>| s != session_id@ ==> #[trigger] lists_text(before, s) == lists_text(seen, s));
            if !text_eq(self.sessions[i].as_str(), session_id) {
                let ghost prior = kept@;
                kept.push(self.sessions[i].clone());
                assert forall|a: int, b: int| 0 <= a < b < kept@.len() implies #[trigger] kept@[a]@
                    != #[trigger] kept@[b]@ by {
                    if b == kept@.len() - 1 {
                        assert(kept@[a] == prior[a]);
                        let w = choose|w: int| 0 <= w < i && #[trigger] prior[a]@ == self.sessions@[w]@;
                        assert(self.sessions@[w]@ != self.sessions@[i as int]@);
                    } else {
                        assert(kept@[a] == prior[a] && kept@[b] == prior[b]);
                    }
                }
                assert forall|k: int| 0 <= k < kept@.len() implies exists|j: int|
                    0 <= j < i + 1 && #[trigger] kept@[k]@ == self.sessions@[j]@ by {
                    if k == kept@.len() - 1 {
                        assert(kept@[k]@ == self.sessions@[i as int]@);
                    } else {
                        assert(kept@[k] == prior[k]);
                        let w = choose|w: int| 0 <= w < i && #[trigger] prior[k]@ == self.sessions@[w]@;
                        assert(kept@[k]@ == self.sessions@[w]@);
                    }
                }
            }
            assert forall|s: Seq<char>|
                s != session_id@ implies (#[trigger] lists_text(kept@, s) == lists_text(seen_next, s)) by {
                if lists_text(seen_next, s) {
                    let j = choose|j: int| 0 <= j < seen_next.len() && #[trigger] seen_next[j]@ == s;
                    if j < i {
                        assert(seen[j]@ == s);
                        assert(lists_text(seen, s));
                        assert(lists_text(before, s));
                        let k = choose|k: int| 0 <= k < before.len() && #[trigger] before[k]@ == s;
                        assert(kept@[k]@ == s);
                    } else {
                        assert(kept@[kept@.len() - 1]@ == s);
                    }
                }
                if lists_text(kept@, s) {
                    let j = choose|j: int| 0 <= j < kept@.len() && #[trigger] kept@[j]@ == s;
                    if j < before.len() {
                        assert(before[j]@ == s);
                        assert(lists_text(before, s));
                        assert(lists_text(seen, s));
                        let k = choose|k: int| 0 <= k < seen.len() && #[trigger] seen[k]@ == s;
                        assert(seen_next[k]@ == s);
                    } else {
                        assert(seen_next[i as int]@ == s);
                    }
                }
            }
            i = i + 1;
        }
        assert(self.sessions@.subrange(0, i as int) =~= self.sessions@);
        self.sessions = kept;
    }
}

/// Some element of `v` has the text `s`.
pub open spec fn lists_text(v: Seq<String>, s: Seq<char>) -> bool {
    exists|i: int| 0 <= i < v.len() && #[trigger] v[i]@ == s
}

/// Whether appending a message starts a background compaction: not after an
/// assistant message that announces tool calls (their results are not
/// written yet), only with `autoCompact` on, and only when the session has
/// none in flight already — in which case the session is marked in flight.
pub fn should_spawn_background_compact(
    registry: &mut InflightRegistry,
    settings: &Json,
    session_id: &str,
    role: &str,
    content: &str,
) -> (r: bool)
    ensures
        ({
            let pending = role@ == "assistant"@ && text_has_nonempty_array(content@, "tool_calls"@);
            let eligible = !pending && spec_auto_compact_enabled(*settings);
            &&& r == (eligible && !old(registry).holds(session_id@))
            &&& eligible ==> final(registry).holds(session_id@)
            &&& !eligible ==> forall|s: Seq<char>| #[trigger] final(registry).holds(s) == old(registry).holds(s)
            &&& forall|s: Seq<char>| s != session_id@ ==> #[trigger] final(registry).holds(s) == old(registry).holds(s)
        }),
{
    let has_pending_tool_calls = text_eq(role, "assistant") && has_nonempty_array(content, "tool_calls");
    if has_pending_tool_calls || !auto_compact_enabled(settings) {
        return false;
    }
    registry.try_acquire(session_id)
}

// ---------------------------------------------------------------------------
// Compaction outcome
// ---------------------------------------------------------------------------

/// What a finished compaction run tells the user.
#[derive(Debug, Clone, Copy, PartialEq, Eq, Structural)]
pub enum CompactionReport {
    /// A summary was injected: emit its details.
    SummaryInjected,
    /// Nothing to say.
    Quiet,
    /// Emit the error as a warning.
    Warning,
}

/// The report of a compaction result: a summary when it compacted, nothing
/// when it did not need to, and a warning for errors other than the
/// tool-heavy one (which the compaction already reported).
pub fn compaction_report(result: &Result<Option<CompactionInfo>, String>) -> (r: CompactionReport)
    ensures
        r == match result {
            Ok(Some(_)) => CompactionReport::SummaryInjected,
            Ok(None) => CompactionReport::Quiet,
            Err(e) => if has_prefix(e@, tool_heavy_prefix()) {
                CompactionReport::Quiet
            } else {
                CompactionReport::Warning
            },
        },
{
    match result {
        Ok(Some(_)) => CompactionReport::SummaryInjected,
        Ok(None) => CompactionReport::Quiet,
        Err(e) => if is_tool_heavy_compaction_warning(e.as_str()) {
            CompactionReport::Quiet
        } else {
            CompactionReport::Warning
        },
    }
}

} // verus!
