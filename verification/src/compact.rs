//! Compaction: when a session's history crosses the trigger threshold, and
//! where it may be split without severing a tool-call exchange.
use vstd::prelude::*;

use crate::json::{has_nonempty_array, text_has_nonempty_array};
use crate::model::{spec_usable_window, usable_window, ModelSpec};
use crate::text::text_eq;
use crate::traits::StoredMessage;

verus! {

// ---------------------------------------------------------------------------
// Threshold
// ---------------------------------------------------------------------------

/// How many pairs of messages compaction first tries to keep.
pub const KEEP_LAST_PAIRS: usize = 4;

/// How many compaction failures in a row are tolerated.
pub const MAX_CONSECUTIVE_FAILURES: u32 = 3;

/// The safety buffer for a context window:
/// ≥ 200K → 8,000 | ≥ 32K → 4,000 | < 32K → 2,000
pub open spec fn spec_safety_buffer(context_window: int) -> int {
    if context_window >= 200_000 {
        8_000
    } else if context_window >= 32_000 {
        4_000
    } else {
        2_000
    }
}

/// Safety buffer scales with context window so large models get more room
/// and small models (Ollama 8K default) don't compact immediately.
pub fn safety_buffer_for_window(context_window: usize) -> (r: usize)
    ensures
        r == spec_safety_buffer(context_window as int),
{
    if context_window >= 200_000 {
        8_000
    } else if context_window >= 32_000 {
        4_000
    } else {
        2_000
    }
}

/// The compaction share of `capacity`: 85% for windows of at least 100K
/// (less aggressive summarization when there is plenty of room), 75%
/// otherwise; rounded down.
pub open spec fn spec_ratio_share(capacity: int, context_window: int) -> int {
    if context_window >= 100_000 {
        (capacity * 17) / 20
    } else {
        (capacity * 3) / 4
    }
}

proof fn lemma_share_split(c: int, num: int, den: int)
    requires
        c >= 0,
        num >= 0,
        den > 0,
    ensures
        (c * num) / den == (c / den) * num + ((c % den) * num) / den,
{
    let q = c / den;
    let r = c % den;
    vstd::arithmetic::div_mod::lemma_fundamental_div_mod(c, den);
    assert(c * num == (q * num) * den + r * num) by (nonlinear_arith)
        requires
            c == den * q + r,
    ;
    vstd::arithmetic::div_mod::lemma_hoist_over_denominator(r * num, q * num, den as nat);
    assert(r * num + (q * num) * den == c * num);
}

fn share_of_capacity(capacity: usize, context_window: usize) -> (r: usize)
    ensures
        r == spec_ratio_share(capacity as int, context_window as int),
{
    proof {
        vstd::arithmetic::div_mod::lemma_mod_bound(capacity as int, 20);
        vstd::arithmetic::div_mod::lemma_mod_bound(capacity as int, 4);
    }
    if context_window >= 100_000 {
        proof {
            lemma_share_split(capacity as int, 17, 20);
            vstd::arithmetic::div_mod::lemma_div_is_ordered_by_denominator(capacity as int, 1, 20);
        }
        let q = capacity / 20;
        assert(q * 17 <= capacity) by (nonlinear_arith)
            requires
                q == capacity / 20,
        ;
        q * 17 + (capacity % 20) * 17 / 20
    } else {
        proof {
            lemma_share_split(capacity as int, 3, 4);
        }
        let q = capacity / 4;
        assert(q * 3 <= capacity) by (nonlinear_arith)
            requires
                q == capacity / 4,
        ;
        q * 3 + (capacity % 4) * 3 / 4
    }
}

/// The token count at which a model of `context_window` and
/// `output_reserve` compacts: the lesser of the ratio share and the capacity
/// less the safety buffer, and never below 1.
pub open spec fn spec_trigger_threshold(context_window: int, output_reserve: int) -> int {
    let capacity = spec_usable_window(context_window, output_reserve);
    let by_ratio = spec_ratio_share(capacity, context_window);
    let buffer = spec_safety_buffer(context_window);
    let by_buffer = if capacity >= buffer {
        capacity - buffer
    } else {
        0
    };
    let lower = if by_ratio <= by_buffer {
        by_ratio
    } else {
        by_buffer
    };
    if lower >= 1 {
        lower
    } else {
        1
    }
}

/// The compaction trigger threshold of `spec`.
pub fn compact_trigger_threshold(spec: &ModelSpec) -> (r: usize)
    ensures
        r == spec_trigger_threshold(spec.context_window as int, spec.output_reserve as int),
{
    let capacity = usable_window(spec);
    let by_ratio = share_of_capacity(capacity, spec.context_window);
    let buffer = safety_buffer_for_window(spec.context_window);
    let by_buffer = capacity.saturating_sub(buffer);
    let lower = if by_ratio <= by_buffer {
        by_ratio
    } else {
        by_buffer
    };
    if lower >= 1 {
        lower
    } else {
        1
    }
}

// ---------------------------------------------------------------------------
// Evaluation
// ---------------------------------------------------------------------------

/// Capacity, trigger point and verdict for a history.
#[derive(Debug, Clone, Copy)]
pub struct CompactDecision {
    pub capacity: usize,
    pub trigger_at: usize,
    pub should_compact: bool,
}

/// The sum of the token estimates in `tokens`.
pub open spec fn total_tokens(tokens: Seq<usize>) -> int
    decreases tokens.len(),
{
    if tokens.len() == 0 {
        0
    } else {
        total_tokens(tokens.drop_last()) + tokens.last()
    }
}

proof fn lemma_total_tokens_prefix(tokens: Seq<usize>, i: int)
    requires
        0 <= i <= tokens.len(),
    ensures
        0 <= total_tokens(tokens.subrange(0, i)) <= total_tokens(tokens),
    decreases tokens.len(),
{
    if tokens.len() > 0 {
        if i == tokens.len() {
            assert(tokens.subrange(0, i) =~= tokens);
            lemma_total_tokens_prefix(tokens.drop_last(), 0);
        } else {
            assert(tokens.drop_last().subrange(0, i) =~= tokens.subrange(0, i));
            lemma_total_tokens_prefix(tokens.drop_last(), i);
        }
    } else {
        assert(tokens.subrange(0, i) =~= tokens);
    }
}

/// The sum of `tokens`, which must fit in a `usize`.
pub fn sum_tokens(tokens: &[usize]) -> (r: usize)
    requires
        total_tokens(tokens@) <= usize::MAX,
    ensures
        r == total_tokens(tokens@),
{
    let mut sum: usize = 0;
    let mut i: usize = 0;
    while i < tokens.len()
        invariant
            i <= tokens.len(),
            sum == total_tokens(tokens@.subrange(0, i as int)),
            total_tokens(tokens@) <= usize::MAX,
        decreases tokens.len() - i,
    {
        proof {
            assert(tokens@.subrange(0, i + 1).drop_last() =~= tokens@.subrange(0, i as int));
            lemma_total_tokens_prefix(tokens@, i + 1);
        }
        sum = sum + tokens[i];
        i = i + 1;
    }
    assert(tokens@.subrange(0, i as int) =~= tokens@);
    sum
}

/// Whether a history whose messages are estimated at `message_tokens` has
/// crossed the compaction trigger threshold of `spec`. The estimates must sum
/// within a `usize`.
pub fn evaluate(message_tokens: &[usize], spec: &ModelSpec) -> (d: CompactDecision)
    requires
        total_tokens(message_tokens@) <= usize::MAX,
    ensures
        d.capacity == spec_usable_window(spec.context_window as int, spec.output_reserve as int),
        d.trigger_at == spec_trigger_threshold(
            spec.context_window as int,
            spec.output_reserve as int,
        ),
        d.should_compact == (total_tokens(message_tokens@) >= d.trigger_at),
{
    let used = sum_tokens(message_tokens);
    let capacity = usable_window(spec);
    let trigger_at = compact_trigger_threshold(spec);
    CompactDecision { capacity, trigger_at, should_compact: used >= trigger_at }
}

// ---------------------------------------------------------------------------
// Split points
// ---------------------------------------------------------------------------

/// `m` is an assistant message that announces tool calls (its content is
/// JSON with a non-empty `tool_calls` array).
pub open spec fn opens_tool_calls(m: StoredMessage) -> bool {
    m.role@ == "assistant"@ && text_has_nonempty_array(m.content@, "tool_calls"@)
}

/// Splitting `ms` before index `split` keeps every tool exchange whole: the
/// message after the split is not a tool result, and the one before it does
/// not open tool calls.
pub open spec fn spec_safe_boundary(ms: Seq<StoredMessage>, split: int) -> bool {
    &&& 0 < split <= ms.len()
    &&& !(split < ms.len() && ms[split].role@ == "tool"@)
    &&& !opens_tool_calls(ms[split - 1])
}

/// The greatest safe boundary at or below `split`, or 0.
pub open spec fn spec_backward_split(ms: Seq<StoredMessage>, split: int) -> int
    decreases split,
{
    if split <= 0 {
        0
    } else if spec_safe_boundary(ms, split) {
        split
    } else {
        spec_backward_split(ms, split - 1)
    }
}

/// The least safe boundary from `split` up to the end, or 0.
pub open spec fn spec_forward_split(ms: Seq<StoredMessage>, split: int) -> int
    decreases ms.len() - split,
{
    if split > ms.len() || split < 0 {
        0
    } else if spec_safe_boundary(ms, split) {
        split
    } else if split == ms.len() {
        0
    } else {
        spec_forward_split(ms, split + 1)
    }
}

/// The number of user messages in `ms`.
pub open spec fn user_count(ms: Seq<StoredMessage>) -> nat
    decreases ms.len(),
{
    if ms.len() == 0 {
        0
    } else {
        (if ms[0].role@ == "user"@ {
            1nat
        } else {
            0nat
        }) + user_count(ms.drop_first())
    }
}

/// Index `idx` is a user message that has at least `keep_pairs` user
/// messages from it to the end.
pub open spec fn keeps_pairs_from(ms: Seq<StoredMessage>, idx: int, keep_pairs: int) -> bool {
    &&& 0 <= idx < ms.len()
    &&& ms[idx].role@ == "user"@
    &&& user_count(ms.subrange(idx, ms.len() as int)) >= keep_pairs
}

/// Scanning down from below `i`: the first index that keeps `keep_pairs`
/// pairs, or 0.
pub open spec fn spec_pairs_target(ms: Seq<StoredMessage>, i: int, keep_pairs: int) -> int
    decreases i,
{
    if i <= 0 {
        0
    } else if keeps_pairs_from(ms, i - 1, keep_pairs) {
        i - 1
    } else {
        spec_pairs_target(ms, i - 1, keep_pairs)
    }
}

/// Whether `message` is an assistant message that announces tool calls.
pub fn assistant_has_tool_calls(message: &StoredMessage) -> (r: bool)
    ensures
        r == opens_tool_calls(*message),
{
    text_eq(message.role.as_str(), "assistant") && has_nonempty_array(
        message.content.as_str(),
        "tool_calls",
    )
}

/// Whether splitting `messages` before `split` keeps every tool exchange whole.
pub fn is_safe_boundary(messages: &[StoredMessage], split: usize) -> (r: bool)
    ensures
        r == spec_safe_boundary(messages@, split as int),
{
    if split == 0 || split > messages.len() {
        return false;
    }
    let next_is_tool = split < messages.len() && text_eq(messages[split].role.as_str(), "tool");
    !next_is_tool && !assistant_has_tool_calls(&messages[split - 1])
}

/// Find a safe split point that preserves the (assistant+tool_calls, tool...)
/// pairing invariant. Walks backward from `proposed_split` while the boundary
/// would orphan a tool message or sever a tool_calls -> tool group.
pub fn safe_split_index(messages: &[StoredMessage], proposed_split: usize) -> (r: usize)
    ensures
        r == spec_backward_split(
            messages@,
            if proposed_split <= messages.len() {
                proposed_split as int
            } else {
                messages.len() as int
            },
        ),
        r <= proposed_split,
        r <= messages.len(),
        r > 0 ==> spec_safe_boundary(messages@, r as int),
        forall|k: int|
            r < k <= proposed_split && k <= messages.len() ==> !spec_safe_boundary(
                messages@,
                k,
            ),
{
    let start = if proposed_split <= messages.len() {
        proposed_split
    } else {
        messages.len()
    };
    let mut split = start;
    while split > 0 && !is_safe_boundary(messages, split)
        invariant
            split <= start,
            start <= proposed_split,
            start <= messages.len(),
            spec_backward_split(messages@, start as int) == spec_backward_split(
                messages@,
                split as int,
            ),
            forall|k: int| split < k <= start ==> !spec_safe_boundary(messages@, k),
        decreases split,
    {
        split = split - 1;
    }
    split
}

/// Forward fallback for tool-heavy histories where backward scan collapses
/// to zero. Starting at `proposed_split`, walks forward until finding a
/// boundary that does not split assistant tool_calls from following tool
/// messages.
pub fn safe_split_index_forward(messages: &[StoredMessage], proposed_split: usize) -> (r: usize)
    ensures
        r == spec_forward_split(
            messages@,
            if proposed_split <= messages.len() {
                proposed_split as int
            } else {
                messages.len() as int
            },
        ),
        r != 0 ==> {
            &&& proposed_split <= r || r == messages.len()
            &&& r <= messages.len()
            &&& spec_safe_boundary(messages@, r as int)
            &&& forall|k: int|
                (if proposed_split <= messages.len() {
                    proposed_split as int
                } else {
                    messages.len() as int
                }) <= k < r ==> !spec_safe_boundary(messages@, k)
        },
        r == 0 ==> forall|k: int|
            (if proposed_split <= messages.len() {
                proposed_split as int
            } else {
                messages.len() as int
            }) <= k <= messages.len() ==> !spec_safe_boundary(messages@, k),
{
    let start = if proposed_split <= messages.len() {
        proposed_split
    } else {
        messages.len()
    };
    let mut split = start;
    loop
        invariant
            start <= split <= messages.len(),
            start <= proposed_split,
            start <= messages.len(),
            start == messages.len() || start == proposed_split,
            spec_forward_split(messages@, start as int) == spec_forward_split(
                messages@,
                split as int,
            ),
            forall|k: int| start <= k < split ==> !spec_safe_boundary(messages@, k),
        decreases messages.len() - split,
    {
        if is_safe_boundary(messages, split) {
            return split;
        }
        if split == messages.len() {
            return 0;
        }
        split = split + 1;
    }
}

/// Compute a target split that keeps the last N user/assistant pairs intact:
/// the greatest index of a user message with at least `keep_pairs` user
/// messages from it to the end, or 0 when there is none.
pub fn target_split_keeping_pairs(messages: &[StoredMessage], keep_pairs: usize) -> (r: usize)
    ensures
        r == spec_pairs_target(messages@, messages.len() as int, keep_pairs as int),
        r <= messages.len(),
{
    let mut pairs_seen: usize = 0;
    let mut i: usize = messages.len();
    assert(messages@.subrange(i as int, messages.len() as int) =~= Seq::<StoredMessage>::empty());
    while i > 0
        invariant
            i <= messages.len(),
            pairs_seen == user_count(messages@.subrange(i as int, messages.len() as int)),
            pairs_seen <= messages.len() - i,
            spec_pairs_target(messages@, messages.len() as int, keep_pairs as int)
                == spec_pairs_target(messages@, i as int, keep_pairs as int),
        decreases i,
    {
        let ghost tail = messages@.subrange(i - 1, messages.len() as int);
        assert(tail.drop_first() =~= messages@.subrange(i as int, messages.len() as int));
        assert(tail[0] == messages@[i - 1]);
        i = i - 1;
        if text_eq(messages[i].role.as_str(), "user") {
            pairs_seen = pairs_seen + 1;
            if pairs_seen >= keep_pairs {
                return i;
            }
        }
    }
    0
}

// ---------------------------------------------------------------------------
// Split strategy
// ---------------------------------------------------------------------------

/// Where compaction cuts the history.
#[derive(Debug, Clone, Copy, PartialEq, Eq, Structural)]
pub enum SplitPlan {
    /// Summarize `[0, split)`; `fallback_keep_pairs` is the pair count that
    /// was settled for when it is not the default.
    Split { split: usize, fallback_keep_pairs: Option<usize> },
    /// No safe split exists: the history is one run of tool calls.
    TooManyToolCalls,
}

/// The backward-safe split when keeping `keep_pairs` pairs.
pub open spec fn split_keeping(ms: Seq<StoredMessage>, keep_pairs: int) -> int {
    spec_backward_split(ms, spec_pairs_target(ms, ms.len() as int, keep_pairs))
}

/// The split strategy: try keeping 4 pairs, then 2, then 1, each with a
/// backward-safe split; if all collapse to zero, walk forward from the
/// 1-pair target; if that finds nothing either, give up.
pub open spec fn spec_split_plan(ms: Seq<StoredMessage>) -> SplitPlan {
    if split_keeping(ms, 4) > 0 {
        SplitPlan::Split { split: split_keeping(ms, 4) as usize, fallback_keep_pairs: None }
    } else if split_keeping(ms, 2) > 0 {
        SplitPlan::Split { split: split_keeping(ms, 2) as usize, fallback_keep_pairs: Some(2) }
    } else if split_keeping(ms, 1) > 0 {
        SplitPlan::Split { split: split_keeping(ms, 1) as usize, fallback_keep_pairs: Some(1) }
    } else {
        let forward = spec_forward_split(ms, spec_pairs_target(ms, ms.len() as int, 1));
        if forward == 0 {
            SplitPlan::TooManyToolCalls
        } else {
            SplitPlan::Split { split: forward as usize, fallback_keep_pairs: Some(1) }
        }
    }
}

/// The split plan tries keeping 4, then 2, then 1 pairs, each with a
/// backward-safe split, and falls back to a forward walk only when all
/// three give none: the first pair count whose split is positive gives
/// the plan, with the fallback count named when it is not 4.
pub proof fn lemma_split_plan_tries_pair_counts_in_order(ms: Seq<StoredMessage>)
    ensures
        split_keeping(ms, 4) > 0 ==> spec_split_plan(ms) == (SplitPlan::Split {
            split: split_keeping(ms, 4) as usize,
            fallback_keep_pairs: None,
        }),
        split_keeping(ms, 4) == 0 && split_keeping(ms, 2) > 0 ==> spec_split_plan(ms) == (
        SplitPlan::Split { split: split_keeping(ms, 2) as usize, fallback_keep_pairs: Some(2) }),
        split_keeping(ms, 4) == 0 && split_keeping(ms, 2) == 0 && split_keeping(ms, 1) > 0
            ==> spec_split_plan(ms) == (SplitPlan::Split {
            split: split_keeping(ms, 1) as usize,
            fallback_keep_pairs: Some(1),
        }),
        spec_split_plan(ms) matches SplitPlan::Split { fallback_keep_pairs, .. } ==> (
        fallback_keep_pairs is None <==> split_keeping(ms, 4) > 0),
        spec_split_plan(ms) is TooManyToolCalls ==> split_keeping(ms, 4) == 0 && split_keeping(ms, 2)
            == 0 && split_keeping(ms, 1) == 0,
{
    lemma_backward_split_nonneg(ms, spec_pairs_target(ms, ms.len() as int, 4));
    lemma_backward_split_nonneg(ms, spec_pairs_target(ms, ms.len() as int, 2));
    lemma_backward_split_nonneg(ms, spec_pairs_target(ms, ms.len() as int, 1));
}

proof fn lemma_backward_split_nonneg(ms: Seq<StoredMessage>, split: int)
    ensures
        spec_backward_split(ms, split) >= 0,
    decreases split,
{
    if split > 0 && !spec_safe_boundary(ms, split) {
        lemma_backward_split_nonneg(ms, split - 1);
    }
}

/// Chooses where to split `messages` for compaction.
pub fn plan_split(messages: &[StoredMessage]) -> (r: SplitPlan)
    ensures
        r == spec_split_plan(messages@),
        r matches SplitPlan::Split { split, .. } ==> 0 < split <= messages.len()
            && spec_safe_boundary(messages@, split as int),
{
    let keep_candidates: [usize; 3] = [KEEP_LAST_PAIRS, 2, 1];
    let mut k: usize = 0;
    while k < 3
        invariant
            k <= 3,
            keep_candidates@ == seq![4usize, 2, 1],
            forall|j: int| 0 <= j < k ==> split_keeping(messages@, keep_candidates@[j] as int) == 0,
        decreases 3 - k,
    {
        let keep_pairs = keep_candidates[k];
        let proposed = target_split_keeping_pairs(messages, keep_pairs);
        let split = safe_split_index(messages, proposed);
        if split > 0 {
            let fallback = if keep_pairs != KEEP_LAST_PAIRS {
                Some(keep_pairs)
            } else {
                None
            };
            return SplitPlan::Split { split, fallback_keep_pairs: fallback };
        }
        k = k + 1;
    }
    let fallback_proposed = target_split_keeping_pairs(messages, 1);
    let forward_split = safe_split_index_forward(messages, fallback_proposed);
    if forward_split == 0 {
        SplitPlan::TooManyToolCalls
    } else {
        SplitPlan::Split { split: forward_split, fallback_keep_pairs: Some(1) }
    }
}


// ---------------------------------------------------------------------------
// Compaction run
// ---------------------------------------------------------------------------

/// The warning given when no safe split exists.
pub const TOOL_HEAVY_COMPACTION_WARNING: &'static str = "Context compaction failed: history has too many consecutive tool calls — consider clearing the session or asking a more focused question";

/// What a finished compaction reports.
#[derive(Debug, Clone)]
pub struct CompactionInfo {
    pub trigger: String,
    pub pre_tokens: usize,
    pub post_tokens: usize,
    pub removed_count: usize,
    pub fallback_keep_pairs: Option<usize>,
}

/// What a compaction run does with a loaded history.
#[derive(Debug, Clone, Copy, PartialEq, Eq, Structural)]
pub enum CompactionPlan {
    /// Automatic compaction below the threshold: nothing to do.
    NotNeeded,
    /// No safe split exists; the run fails with the tool-heavy warning.
    TooManyToolCalls,
    /// Summarize the messages before `split`; `pre_tokens` and `post_tokens`
    /// are the estimates of the summarized and the kept messages.
    Summarize { split: usize, fallback_keep_pairs: Option<usize>, pre_tokens: usize, post_tokens: usize },
}

proof fn lemma_total_tokens_concat(a: Seq<usize>, b: Seq<usize>)
    ensures
        total_tokens(a + b) == total_tokens(a) + total_tokens(b),
    decreases b.len(),
{
    if b.len() == 0 {
        assert(a + b =~= a);
    } else {
        assert((a + b).drop_last() =~= a + b.drop_last());
        lemma_total_tokens_concat(a, b.drop_last());
    }
}

proof fn lemma_total_tokens_nonneg(a: Seq<usize>)
    ensures
        total_tokens(a) >= 0,
    decreases a.len(),
{
    if a.len() > 0 {
        lemma_total_tokens_nonneg(a.drop_last());
    }
}

/// The estimates of the messages before `split` and from `split` on.
pub fn split_token_totals(message_tokens: &[usize], split: usize) -> (r: (usize, usize))
    requires
        split <= message_tokens.len(),
        total_tokens(message_tokens@) <= usize::MAX,
    ensures
        r.0 == total_tokens(message_tokens@.subrange(0, split as int)),
        r.1 == total_tokens(message_tokens@.subrange(split as int, message_tokens.len() as int)),
{
    let total = sum_tokens(message_tokens);
    proof {
        let t = message_tokens@;
        assert(t =~= t.subrange(0, split as int) + t.subrange(split as int, t.len() as int));
        lemma_total_tokens_concat(t.subrange(0, split as int), t.subrange(split as int, t.len() as int));
        lemma_total_tokens_nonneg(t.subrange(0, split as int));
        lemma_total_tokens_nonneg(t.subrange(split as int, t.len() as int));
    }
    let mut pre: usize = 0;
    let mut i: usize = 0;
    while i < split
        invariant
            split <= message_tokens.len(),
            i <= split,
            pre == total_tokens(message_tokens@.subrange(0, i as int)),
            total == total_tokens(message_tokens@),
            total_tokens(message_tokens@.subrange(0, split as int)) <= total,
        decreases split - i,
    {
        proof {
            assert(message_tokens@.subrange(0, i + 1).drop_last() =~= message_tokens@.subrange(0, i as int));
            assert(message_tokens@.subrange(0, split as int).subrange(0, i + 1) =~= message_tokens@.subrange(0, i + 1));
            lemma_total_tokens_prefix(message_tokens@.subrange(0, split as int), i + 1);
        }
        pre = pre + message_tokens[i];
        i = i + 1;
    }
    (pre, total - pre)
}

/// The plan of a compaction run: automatic runs (`force` false) below the
/// threshold do nothing; otherwise the history is split by the split
/// strategy and the two sides' estimates are totalled.
pub open spec fn spec_compaction_plan(
    messages: Seq<StoredMessage>,
    message_tokens: Seq<usize>,
    context_window: int,
    output_reserve: int,
    force: bool,
) -> CompactionPlan {
    if !force && total_tokens(message_tokens) < spec_trigger_threshold(context_window, output_reserve) {
        CompactionPlan::NotNeeded
    } else {
        match spec_split_plan(messages) {
            SplitPlan::TooManyToolCalls => CompactionPlan::TooManyToolCalls,
            SplitPlan::Split { split, fallback_keep_pairs } => CompactionPlan::Summarize {
                split,
                fallback_keep_pairs,
                pre_tokens: total_tokens(message_tokens.subrange(0, split as int)) as usize,
                post_tokens: total_tokens(
                    message_tokens.subrange(split as int, message_tokens.len() as int),
                ) as usize,
            },
        }
    }
}

/// Decides a compaction run over a loaded history, given the token estimate
/// of each message (`message_tokens[i]` for `messages[i]`).
pub fn plan_compaction(
    messages: &[StoredMessage],
    message_tokens: &[usize],
    spec: &ModelSpec,
    force: bool,
) -> (r: CompactionPlan)
    requires
        message_tokens.len() == messages.len(),
        total_tokens(message_tokens@) <= usize::MAX,
    ensures
        r == spec_compaction_plan(
            messages@,
            message_tokens@,
            spec.context_window as int,
            spec.output_reserve as int,
            force,
        ),
{
    let decision = evaluate(message_tokens, spec);
    if !force && !decision.should_compact {
        return CompactionPlan::NotNeeded;
    }
    match plan_split(messages) {
        SplitPlan::TooManyToolCalls => CompactionPlan::TooManyToolCalls,
        SplitPlan::Split { split, fallback_keep_pairs } => {
            let (pre_tokens, post_tokens) = split_token_totals(message_tokens, split);
            CompactionPlan::Summarize { split, fallback_keep_pairs, pre_tokens, post_tokens }
        },
    }
}

/// The report of a compaction that summarized the messages before `split`.
pub fn compaction_info(
    trigger: &str,
    split: usize,
    fallback_keep_pairs: Option<usize>,
    pre_tokens: usize,
    post_tokens: usize,
) -> (r: CompactionInfo)
    ensures
        r.trigger@ == trigger@,
        r.pre_tokens == pre_tokens,
        r.post_tokens == post_tokens,
        r.removed_count == split,
        r.fallback_keep_pairs == fallback_keep_pairs,
{
    CompactionInfo {
        trigger: trigger.to_owned(),
        pre_tokens,
        post_tokens,
        removed_count: split,
        fallback_keep_pairs,
    }
}

// ---------------------------------------------------------------------------
// Laws
// ---------------------------------------------------------------------------

/// The trigger threshold is at least 1; it never exceeds the capacity (when
/// there is any), nor the ratio share or the capacity less the safety buffer
/// (when those are at least 1).
pub proof fn lemma_threshold_bounds(context_window: usize, output_reserve: usize)
    ensures
        ({
            let capacity = spec_usable_window(context_window as int, output_reserve as int);
            let t = spec_trigger_threshold(context_window as int, output_reserve as int);
            let buffer = spec_safety_buffer(context_window as int);
            &&& 1 <= t
            &&& capacity >= 1 ==> t <= capacity
            &&& spec_ratio_share(capacity, context_window as int) >= 1 ==> t <= spec_ratio_share(
                capacity,
                context_window as int,
            )
            &&& capacity >= buffer + 1 ==> t <= capacity - buffer
        }),
{
    let capacity = spec_usable_window(context_window as int, output_reserve as int);
    assert(capacity >= 0);
    assert((capacity * 17) / 20 <= capacity) by (nonlinear_arith)
        requires
            capacity >= 0,
    ;
    assert((capacity * 3) / 4 <= capacity) by (nonlinear_arith)
        requires
            capacity >= 0,
    ;
    assert((capacity * 17) / 20 >= 0) by (nonlinear_arith)
        requires
            capacity >= 0,
    ;
    assert((capacity * 3) / 4 >= 0) by (nonlinear_arith)
        requires
            capacity >= 0,
    ;
}

/// The safety buffer never shrinks as the context window grows.
pub proof fn lemma_safety_buffer_monotone(small: usize, large: usize)
    requires
        small <= large,
    ensures
        spec_safety_buffer(small as int) <= spec_safety_buffer(large as int),
{
}

/// Adding a message to a history never turns a compaction verdict off.
pub proof fn lemma_growth_keeps_compaction(
    tokens: Seq<usize>,
    more: usize,
    context_window: usize,
    output_reserve: usize,
)
    ensures
        total_tokens(tokens.push(more)) == total_tokens(tokens) + more,
        total_tokens(tokens) >= spec_trigger_threshold(context_window as int, output_reserve as int)
            ==> total_tokens(tokens.push(more)) >= spec_trigger_threshold(
            context_window as int,
            output_reserve as int,
        ),
{
    assert(tokens.push(more).drop_last() =~= tokens);
}

/// The backward split is the greatest safe boundary at or below where it
/// starts, or 0 when there is none.
pub proof fn lemma_backward_split_greatest(ms: Seq<StoredMessage>, split: int)
    ensures
        0 <= spec_backward_split(ms, split),
        split >= 0 ==> spec_backward_split(ms, split) <= split,
        spec_backward_split(ms, split) > 0 ==> spec_safe_boundary(ms, spec_backward_split(ms, split)),
        forall|k: int|
            spec_backward_split(ms, split) < k <= split ==> !spec_safe_boundary(ms, k),
    decreases split,
{
    if split > 0 && !spec_safe_boundary(ms, split) {
        lemma_backward_split_greatest(ms, split - 1);
    }
}

/// The forward split is the least safe boundary from where it starts to the
/// end of the history, or 0 when there is none.
pub proof fn lemma_forward_split_least(ms: Seq<StoredMessage>, split: int)
    requires
        0 <= split <= ms.len(),
    ensures
        spec_forward_split(ms, split) != 0 ==> {
            &&& split <= spec_forward_split(ms, split) <= ms.len()
            &&& spec_safe_boundary(ms, spec_forward_split(ms, split))
            &&& forall|k: int| split <= k < spec_forward_split(ms, split) ==> !spec_safe_boundary(ms, k)
        },
        spec_forward_split(ms, split) == 0 ==> forall|k: int|
            split <= k <= ms.len() ==> !spec_safe_boundary(ms, k),
    decreases ms.len() - split,
{
    if !spec_safe_boundary(ms, split) && split < ms.len() {
        lemma_forward_split_least(ms, split + 1);
    }
}

/// The pairs target is the greatest user message with at least `keep_pairs`
/// user messages from it to the end, or 0 when there is none.
pub proof fn lemma_pairs_target_greatest(ms: Seq<StoredMessage>, i: int, keep_pairs: int)
    requires
        i <= ms.len(),
    ensures
        0 <= spec_pairs_target(ms, i, keep_pairs),
        i > 0 ==> spec_pairs_target(ms, i, keep_pairs) < i,
        spec_pairs_target(ms, i, keep_pairs) == 0 || keeps_pairs_from(
            ms,
            spec_pairs_target(ms, i, keep_pairs),
            keep_pairs,
        ),
        forall|j: int|
            spec_pairs_target(ms, i, keep_pairs) < j < i ==> !keeps_pairs_from(ms, j, keep_pairs),
    decreases i,
{
    if i > 0 && !keeps_pairs_from(ms, i - 1, keep_pairs) {
        lemma_pairs_target_greatest(ms, i - 1, keep_pairs);
    }
}

} // verus!
