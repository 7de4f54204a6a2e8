//! Decisions of the agent loop: error classification and retries, budgets,
//! the runaway guard, argument-parse failures, the tool-call gate, and the
//! execution plan of approved tool calls.
use vstd::prelude::*;

use crate::json::{decimal_digits, decimal_text, field_str, field_u64, json_get, parse_json, parsed_json, Json};
use crate::text::{has_prefix, starts_with, text_eq};

verus! {

// ---------------------------------------------------------------------------
// Error classification
// ---------------------------------------------------------------------------

/// The `error.type` of an error body, where the body is JSON and has one.
pub open spec fn spec_classify_error(body: Seq<char>) -> Option<Seq<char>> {
    match parsed_json(body) {
        Some(v) => match json_get(v, "error"@) {
            Some(e) => field_str(e, "type"@),
            None => None,
        },
        None => None,
    }
}

/// The `error.type` of an error body.
pub fn classify_error(body: &str) -> (r: Option<String>)
    ensures
        match r {
            Some(t) => spec_classify_error(body@) == Some(t@),
            None => spec_classify_error(body@) is None,
        },
{
    let v = parse_json(body)?;
    let e = v.get("error")?;
    let t = e.get_str("type")?;
    Some(t.to_owned())
}

/// Error types on which the agent loop retries.
pub open spec fn spec_is_retryable(err_type: Seq<char>) -> bool {
    err_type == "rate_limit_exceeded"@ || err_type == "service_unavailable"@ || err_type
        == "overloaded_error"@
}

/// Error types that end the agent loop at once.
pub open spec fn spec_is_fatal(err_type: Seq<char>) -> bool {
    err_type == "insufficient_quota"@ || err_type == "invalid_request_error"@ || err_type
        == "authentication_error"@
}

pub fn is_retryable(err_type: &str) -> (r: bool)
    ensures
        r == spec_is_retryable(err_type@),
{
    text_eq(err_type, "rate_limit_exceeded") || text_eq(err_type, "service_unavailable")
        || text_eq(err_type, "overloaded_error")
}

pub fn is_fatal(err_type: &str) -> (r: bool)
    ensures
        r == spec_is_fatal(err_type@),
{
    text_eq(err_type, "insufficient_quota") || text_eq(err_type, "invalid_request_error")
        || text_eq(err_type, "authentication_error")
}

/// Error types on which the compaction request retries (quota errors
/// included).
pub open spec fn spec_is_retryable_for_compaction(err_type: Seq<char>) -> bool {
    err_type == "rate_limit_exceeded"@ || err_type == "insufficient_quota"@ || err_type
        == "service_unavailable"@ || err_type == "overloaded_error"@
}

pub fn is_retryable_for_compaction(err_type: &str) -> (r: bool)
    ensures
        r == spec_is_retryable_for_compaction(err_type@),
{
    text_eq(err_type, "rate_limit_exceeded") || text_eq(err_type, "insufficient_quota")
        || text_eq(err_type, "service_unavailable") || text_eq(err_type, "overloaded_error")
}

pub open spec fn error_type_or_empty(body: Seq<char>) -> Seq<char> {
    match spec_classify_error(body) {
        Some(t) => t,
        None => Seq::empty(),
    }
}

fn error_type_of(body: &str) -> (r: String)
    ensures
        r@ == error_type_or_empty(body@),
{
    match classify_error(body) {
        Some(t) => t,
        None => String::new(),
    }
}

// ---------------------------------------------------------------------------
// Retries
// ---------------------------------------------------------------------------

/// Delays before the next attempt of an LLM request, in milliseconds.
pub open spec fn spec_retry_delay_ms(attempt: int) -> Option<u64> {
    if attempt == 0 {
        Some(1_000)
    } else if attempt == 1 {
        Some(3_000)
    } else if attempt == 2 {
        Some(8_000)
    } else {
        None
    }
}

/// The delay after attempt `attempt` (counted from 0); `None` once the three
/// attempts are spent.
pub fn retry_delay_ms(attempt: usize) -> (r: Option<u64>)
    ensures
        r == spec_retry_delay_ms(attempt as int),
{
    if attempt == 0 {
        Some(1_000)
    } else if attempt == 1 {
        Some(3_000)
    } else if attempt == 2 {
        Some(8_000)
    } else {
        None
    }
}

/// The retry schedule: three retries, after 1 s, 3 s and 8 s; attempts
/// from the fourth on get none, and an attempt has a delay only when every
/// earlier one had.
pub proof fn lemma_retry_schedule(attempt: int)
    ensures
        spec_retry_delay_ms(0) == Some(1_000u64),
        spec_retry_delay_ms(1) == Some(3_000u64),
        spec_retry_delay_ms(2) == Some(8_000u64),
        0 <= attempt < 3 <==> spec_retry_delay_ms(attempt) is Some,
        spec_retry_delay_ms(attempt) is Some ==> forall|a: int|
            0 <= a <= attempt ==> #[trigger] spec_retry_delay_ms(a) is Some,
{
}

/// The error types: `rate_limit_exceeded`, `service_unavailable` and
/// `overloaded_error` are retried, and nothing else; `insufficient_quota`,
/// `invalid_request_error` and `authentication_error` are fatal, and
/// nothing else; no type is both. Compaction also retries
/// `insufficient_quota`.
pub proof fn lemma_error_type_tables(t: Seq<char>)
    ensures
        spec_is_retryable("rate_limit_exceeded"@),
        spec_is_retryable("service_unavailable"@),
        spec_is_retryable("overloaded_error"@),
        spec_is_fatal("insufficient_quota"@),
        spec_is_fatal("invalid_request_error"@),
        spec_is_fatal("authentication_error"@),
        !spec_is_retryable(t) || !spec_is_fatal(t),
        spec_is_retryable(t) ==> spec_is_retryable_for_compaction(t),
        spec_is_retryable_for_compaction("insufficient_quota"@),
        spec_is_retryable(t) ==> t.len() >= 16,
        spec_is_fatal(t) ==> t.len() >= 18,
        t.len() == 0 ==> !spec_is_retryable(t) && !spec_is_fatal(t),
{
    reveal_strlit("rate_limit_exceeded");
    reveal_strlit("service_unavailable");
    reveal_strlit("overloaded_error");
    reveal_strlit("insufficient_quota");
    reveal_strlit("invalid_request_error");
    reveal_strlit("authentication_error");
    assert("rate_limit_exceeded"@.len() == 19 && "service_unavailable"@.len() == 19
        && "overloaded_error"@.len() == 16);
    assert("insufficient_quota"@.len() == 18 && "invalid_request_error"@.len() == 21
        && "authentication_error"@.len() == 20);
    assert("rate_limit_exceeded"@[0] != "insufficient_quota"@[0]);
    assert("rate_limit_exceeded"@[0] != "invalid_request_error"@[0]);
    assert("rate_limit_exceeded"@[0] != "authentication_error"@[0]);
    assert("service_unavailable"@[0] != "insufficient_quota"@[0]);
    assert("service_unavailable"@[0] != "invalid_request_error"@[0]);
    assert("service_unavailable"@[0] != "authentication_error"@[0]);
    assert("overloaded_error"@[0] != "insufficient_quota"@[0]);
    assert("overloaded_error"@[0] != "invalid_request_error"@[0]);
    assert("overloaded_error"@[0] != "authentication_error"@[0]);
}

/// A streaming request that failed with a retryable error type is retried
/// whatever its HTTP status; one with a fatal type never is.
pub proof fn lemma_stream_retry_by_error_type(status: u16, body: Seq<char>)
    ensures
        spec_is_retryable(error_type_or_empty(body)) ==> !spec_is_fatal(error_type_or_empty(body))
            && (status == 429 || status == 503 || spec_is_retryable(error_type_or_empty(body))),
        error_type_or_empty(body) == "service_unavailable"@ ==> spec_is_retryable(
            error_type_or_empty(body),
        ) && !spec_is_fatal(error_type_or_empty(body)),
{
    lemma_error_type_tables(error_type_or_empty(body));
}

/// The most a delay is moved either way by jitter.
pub const RETRY_JITTER_MS: u64 = 250;

/// A delay of `base_ms` moved by `jitter_ms`, but not below zero.
pub fn jittered_delay_ms(base_ms: u64, jitter_ms: i64) -> (r: u64)
    requires
        -250 <= jitter_ms <= 250,
        base_ms <= i64::MAX - 250,
    ensures
        r == (if base_ms + jitter_ms >= 0 {
            base_ms + jitter_ms
        } else {
            0
        }),
{
    let delay = base_ms as i64 + jitter_ms;
    if delay >= 0 {
        delay as u64
    } else {
        0
    }
}

/// A random jitter: calls `rand::Rng::gen_range` on `rand::thread_rng()`
/// with the range `-250..=250`. The contract claims only that the value
/// lies in that range, which is what `gen_range` returns for a non-empty
/// range; which value comes is chance.
#[verifier::external_body]
fn random_jitter_ms() -> (r: i64)
    ensures
        -250 <= r <= 250,
{
    rand::Rng::gen_range(&mut rand::thread_rng(), -250i64..=250i64)
}

/// `base` moved by `j`, but not below zero.
pub open spec fn jittered(base: int, j: int) -> int {
    if base + j >= 0 {
        base + j
    } else {
        0
    }
}

/// The delay before the next attempt: `base_ms` moved by a random jitter
/// of at most `RETRY_JITTER_MS` either way, but not below zero.
pub fn jittered_retry_delay_ms(base_ms: u64) -> (r: u64)
    requires
        base_ms <= i64::MAX - 250,
    ensures
        exists|j: int| -250 <= j <= 250 && r == #[trigger] jittered(base_ms as int, j),
{
    let jitter = random_jitter_ms();
    let r = jittered_delay_ms(base_ms, jitter);
    assert(r == jittered(base_ms as int, jitter as int));
    r
}

/// Whether a failed compaction request is worth another attempt: HTTP 429
/// or 503, or a retryable error type.
pub fn compaction_request_retryable(status: u16, body: &str) -> (r: bool)
    ensures
        r == (status == 429 || status == 503 || spec_is_retryable_for_compaction(
            error_type_or_empty(body@),
        )),
{
    let err_type = error_type_of(body);
    status == 429 || status == 503 || is_retryable_for_compaction(err_type.as_str())
}

/// Whether a failed streaming request is worth another attempt: not for a
/// fatal error type; otherwise on HTTP 429 or 503, or a retryable error type.
pub fn stream_request_retryable(status: u16, body: &str) -> (r: bool)
    ensures
        ({
            let t = error_type_or_empty(body@);
            r == (!spec_is_fatal(t) && (status == 429 || status == 503 || spec_is_retryable(t)))
        }),
{
    let err_type = error_type_of(body);
    !is_fatal(err_type.as_str()) && (status == 429 || status == 503 || is_retryable(
        err_type.as_str(),
    ))
}

/// How the loop ends on a failed LLM stream.
#[derive(Debug, Clone, Copy, PartialEq, Eq, Structural)]
pub enum StreamFailure {
    /// Report an error (fatal error types and HTTP 4xx).
    Error,
    /// Stop the loop with reason `llm_error`.
    Stopped,
}

/// The ending for a stream error message: an error when the message's
/// error type is fatal or it is an HTTP 4xx failure, a stop otherwise.
pub fn stream_failure(error: &str) -> (r: StreamFailure)
    ensures
        r == (if spec_is_fatal(error_type_or_empty(error@)) || has_prefix(error@, "LLM HTTP 4"@) {
            StreamFailure::Error
        } else {
            StreamFailure::Stopped
        }),
{
    let err_type = error_type_of(error);
    if is_fatal(err_type.as_str()) || starts_with(error, "LLM HTTP 4") {
        StreamFailure::Error
    } else {
        StreamFailure::Stopped
    }
}

// ---------------------------------------------------------------------------
// Budgets
// ---------------------------------------------------------------------------

pub const DEFAULT_MAX_ITERATIONS: usize = 200;

pub const DEFAULT_WALL_CLOCK_BUDGET_SECS: u64 = 1800;

pub const DEFAULT_TOKEN_BUDGET: usize = 20_000_000;

/// How long a tool call waits for the user's confirmation, in seconds.
pub const CONFIRM_TIMEOUT_SECS: u64 = 300;

/// The limits of one agent loop run.
#[derive(Debug, Clone, Copy, PartialEq, Eq, Structural)]
pub struct LoopLimits {
    pub max_iterations: usize,
    pub wall_clock_budget_secs: u64,
    pub token_budget: usize,
}

/// The limits from the settings: `maxIterations` (default 200),
/// `wallClockBudgetMin` in minutes (default 30), and `tokenBudget` (default
/// 20 million).
pub open spec fn spec_loop_limits(settings: Json) -> LoopLimits {
    LoopLimits {
        max_iterations: match field_u64(settings, "maxIterations"@) {
            Some(n) => n as usize,
            None => 200,
        },
        wall_clock_budget_secs: match field_u64(settings, "wallClockBudgetMin"@) {
            Some(n) => if n * 60 <= u64::MAX {
                (n * 60) as u64
            } else {
                u64::MAX
            },
            None => 1800,
        },
        token_budget: match field_u64(settings, "tokenBudget"@) {
            Some(n) => n as usize,
            None => 20_000_000,
        },
    }
}

pub fn loop_limits(settings: &Json) -> (r: LoopLimits)
    ensures
        r == spec_loop_limits(*settings),
{
    let max_iterations = match settings.get_u64("maxIterations") {
        Some(n) => n as usize,
        None => DEFAULT_MAX_ITERATIONS,
    };
    let wall_clock_budget_secs = match settings.get_u64("wallClockBudgetMin") {
        Some(n) => if n <= u64::MAX / 60 {
            n * 60
        } else {
            u64::MAX
        },
        None => DEFAULT_WALL_CLOCK_BUDGET_SECS,
    };
    let token_budget = match settings.get_u64("tokenBudget") {
        Some(n) => n as usize,
        None => DEFAULT_TOKEN_BUDGET,
    };
    LoopLimits { max_iterations, wall_clock_budget_secs, token_budget }
}

/// Why the loop paused.
#[derive(Debug, Clone, Copy, PartialEq, Eq, Structural)]
pub enum StopReason {
    IterationCap,
    WallClockBudget,
    TokenBudget,
}

impl StopReason {
    /// The reason as it is reported.
    pub fn code(&self) -> (r: &'static str)
        ensures
            r@ == match self {
                StopReason::IterationCap => "iteration_cap"@,
                StopReason::WallClockBudget => "wall_clock_budget"@,
                StopReason::TokenBudget => "token_budget"@,
            },
    {
        match self {
            StopReason::IterationCap => "iteration_cap",
            StopReason::WallClockBudget => "wall_clock_budget",
            StopReason::TokenBudget => "token_budget",
        }
    }
}

/// The check at the top of each iteration: the iteration cap first, then
/// the wall-clock budget.
pub fn iteration_stop(iter_count: usize, elapsed_secs: u64, limits: &LoopLimits) -> (r: Option<
    StopReason,
>)
    ensures
        r == (if iter_count >= limits.max_iterations {
            Some(StopReason::IterationCap)
        } else if elapsed_secs >= limits.wall_clock_budget_secs {
            Some(StopReason::WallClockBudget)
        } else {
            None
        }),
{
    if iter_count >= limits.max_iterations {
        Some(StopReason::IterationCap)
    } else if elapsed_secs >= limits.wall_clock_budget_secs {
        Some(StopReason::WallClockBudget)
    } else {
        None
    }
}

/// Adds a request's input tokens to the running total (saturating) and says
/// whether the token budget is spent.
pub fn charge_tokens(cumulative: usize, request_tokens: usize, limits: &LoopLimits) -> (r: (
    usize,
    bool,
))
    ensures
        r.0 == (if cumulative + request_tokens <= usize::MAX {
            (cumulative + request_tokens) as usize
        } else {
            usize::MAX
        }),
        r.1 == (r.0 >= limits.token_budget),
{
    let total = cumulative.saturating_add(request_tokens);
    (total, total >= limits.token_budget)
}

// ---------------------------------------------------------------------------
// Runaway guard
// ---------------------------------------------------------------------------

/// `a` comes before `b` or equals it, comparing character by character.
pub open spec fn text_le(a: Seq<char>, b: Seq<char>) -> bool
    decreases a.len(),
{
    if a.len() == 0 {
        true
    } else if b.len() == 0 {
        false
    } else if a[0] != b[0] {
        (a[0] as int) < (b[0] as int)
    } else {
        text_le(a.drop_first(), b.drop_first())
    }
}

/// `x` inserted into `sorted` after every element that is not greater.
pub open spec fn insert_sorted(sorted: Seq<Seq<char>>, x: Seq<char>) -> Seq<Seq<char>>
    decreases sorted.len(),
{
    if sorted.len() == 0 {
        seq![x]
    } else if text_le(sorted[0], x) {
        seq![sorted[0]] + insert_sorted(sorted.drop_first(), x)
    } else {
        seq![x] + sorted
    }
}

/// `items` sorted by insertion.
pub open spec fn sort_texts(items: Seq<Seq<char>>) -> Seq<Seq<char>>
    decreases items.len(),
{
    if items.len() == 0 {
        Seq::empty()
    } else {
        insert_sorted(sort_texts(items.drop_last()), items.last())
    }
}

/// `items` joined with `sep` between neighbours.
pub open spec fn joined(items: Seq<Seq<char>>, sep: Seq<char>) -> Seq<char>
    decreases items.len(),
{
    if items.len() == 0 {
        Seq::empty()
    } else if items.len() == 1 {
        items[0]
    } else {
        joined(items.drop_last(), sep) + sep + items.last()
    }
}

/// The signature of one tool call: `name:arguments`.
pub open spec fn call_signature(call: (String, String)) -> Seq<char> {
    call.0@ + ":"@ + call.1@
}

/// The signature of an iteration's tool calls: the calls' signatures,
/// sorted, joined with `|`.
pub open spec fn spec_iteration_signature(calls: Seq<(String, String)>) -> Seq<char> {
    joined(sort_texts(calls.map_values(|c: (String, String)| call_signature(c))), "|"@)
}

fn text_le_exec(a: &Vec<char>, b: &Vec<char>) -> (r: bool)
    ensures
        r == text_le(a@, b@),
{
    let mut i: usize = 0;
    assert(a@.subrange(0, a.len() as int) =~= a@);
    assert(b@.subrange(0, b.len() as int) =~= b@);
    while i < a.len() && i < b.len() && a[i] == b[i]
        invariant
            i <= a.len(),
            i <= b.len(),
            text_le(a@, b@) == text_le(a@.subrange(i as int, a.len() as int), b@.subrange(i as int, b.len() as int)),
        decreases a.len() - i,
    {
        let ghost sa = a@.subrange(i as int, a.len() as int);
        let ghost sb = b@.subrange(i as int, b.len() as int);
        assert(sa.drop_first() =~= a@.subrange(i + 1, a.len() as int));
        assert(sb.drop_first() =~= b@.subrange(i + 1, b.len() as int));
        i = i + 1;
    }
    let ghost sa = a@.subrange(i as int, a.len() as int);
    let ghost sb = b@.subrange(i as int, b.len() as int);
    if i == a.len() {
        assert(sa.len() == 0);
        true
    } else if i == b.len() {
        false
    } else {
        assert(sa[0] == a@[i as int] && sb[0] == b@[i as int]);
        a[i] < b[i]
    }
}

proof fn lemma_insert_sorted_at(s: Seq<Seq<char>>, x: Seq<char>, i: int)
    requires
        0 <= i <= s.len(),
        forall|j: int| 0 <= j < i ==> text_le(#[trigger] s[j], x),
        i < s.len() ==> !text_le(s[i], x),
    ensures
        insert_sorted(s, x) == s.insert(i, x),
    decreases i,
{
    if i == 0 {
        if s.len() == 0 {
            assert(s.insert(0, x) =~= seq![x]);
        } else {
            assert(s.insert(0, x) =~= seq![x] + s);
        }
    } else {
        assert(text_le(s[0], x));
        assert forall|j: int| 0 <= j < i - 1 implies text_le(#[trigger] s.drop_first()[j], x) by {
            assert(s.drop_first()[j] == s[j + 1]);
        }
        lemma_insert_sorted_at(s.drop_first(), x, i - 1);
        assert(s.insert(i, x) =~= seq![s[0]] + s.drop_first().insert(i - 1, x));
    }
}

struct SortedTexts {
    items: Vec<Vec<char>>,
}

pub open spec fn char_views(items: Seq<Vec<char>>) -> Seq<Seq<char>> {
    items.map_values(|v: Vec<char>| v@)
}

fn insert_sorted_exec(items: &mut Vec<Vec<char>>, x: Vec<char>)
    ensures
        char_views(final(items)@) == insert_sorted(char_views(old(items)@), x@),
{
    let mut i: usize = 0;
    while i < items.len() && text_le_exec(&items[i], &x)
        invariant
            i <= items.len(),
            forall|j: int| 0 <= j < i ==> text_le(#[trigger] char_views(items@)[j], x@),
        decreases items.len() - i,
    {
        i = i + 1;
    }
    let ghost before = char_views(items@);
    proof {
        lemma_insert_sorted_at(before, x@, i as int);
    }
    let ghost xv = x@;
    items.insert(i, x);
    assert(char_views(items@) =~= before.insert(i as int, xv));
}

fn join_chars(items: &Vec<Vec<char>>, sep: &str) -> (r: String)
    ensures
        r@ == joined(char_views(items@), sep@),
{
    let mut out = String::new();
    let mut i: usize = 0;
    while i < items.len()
        invariant
            i <= items.len(),
            out@ == joined(char_views(items@).subrange(0, i as int), sep@),
        decreases items.len() - i,
    {
        let ghost prefix = char_views(items@).subrange(0, i + 1);
        assert(prefix.drop_last() =~= char_views(items@).subrange(0, i as int));
        if i > 0 {
            out.append(sep);
        }
        let mut j: usize = 0;
        let ghost start = out@;
        while j < items[i].len()
            invariant
                i < items.len(),
                j <= items[i as int].len(),
                out@ == start + items[i as int]@.subrange(0, j as int),
            decreases items[i as int].len() - j,
        {
            crate::text::push_char(&mut out, items[i][j]);
            assert(out@ =~= start + items[i as int]@.subrange(0, j + 1));
            j = j + 1;
        }
        assert(items[i as int]@.subrange(0, j as int) =~= items[i as int]@);
        if i == 0 {
            assert(out@ =~= prefix[0]);
        }
        i = i + 1;
    }
    assert(char_views(items@).subrange(0, i as int) =~= char_views(items@));
    out
}

/// The signature of an iteration's tool calls `(name, arguments)`: each
/// call as `name:arguments`, sorted, joined with `|`.
pub fn iteration_signature(calls: &[(String, String)]) -> (r: String)
    ensures
        r@ == spec_iteration_signature(calls@),
{
    let ghost sigs = calls@.map_values(|c: (String, String)| call_signature(c));
    let mut sorted: Vec<Vec<char>> = Vec::new();
    let mut i: usize = 0;
    while i < calls.len()
        invariant
            i <= calls.len(),
            sigs == calls@.map_values(|c: (String, String)| call_signature(c)),
            char_views(sorted@) == sort_texts(sigs.subrange(0, i as int)),
        decreases calls.len() - i,
    {
        let mut sig = crate::text::chars_of(calls[i].0.as_str());
        sig.push(':');
        let args = crate::text::chars_of(calls[i].1.as_str());
        let mut k: usize = 0;
        let ghost base = sig@;
        while k < args.len()
            invariant
                k <= args.len(),
                sig@ == base + args@.subrange(0, k as int),
            decreases args.len() - k,
        {
            sig.push(args[k]);
            assert(sig@ =~= base + args@.subrange(0, k + 1));
            k = k + 1;
        }
        assert(args@.subrange(0, k as int) =~= args@);
        proof {
            reveal_strlit(":");
        }
        assert(sig@ =~= call_signature(calls@[i as int]));
        let ghost prefix = sigs.subrange(0, i + 1);
        assert(prefix.drop_last() =~= sigs.subrange(0, i as int));
        insert_sorted_exec(&mut sorted, sig);
        i = i + 1;
    }
    assert(sigs.subrange(0, i as int) =~= sigs);
    join_chars(&sorted, "|")
}

/// The last three iteration signatures: `recent` with `sig` added and
/// trimmed to three.
pub open spec fn guard_window(recent: Seq<Seq<char>>, sig: Seq<char>) -> Seq<Seq<char>> {
    let pushed = recent.push(sig);
    if pushed.len() > 3 {
        pushed.drop_first()
    } else {
        pushed
    }
}

/// The window shows no progress: three signatures, all equal to `sig`.
pub open spec fn window_stuck(window: Seq<Seq<char>>, sig: Seq<char>) -> bool {
    window.len() == 3 && forall|i: int| 0 <= i < 3 ==> #[trigger] window[i] == sig
}

/// Stops a loop in which the LLM emits the same tool-call set three
/// iterations in a row.
pub struct RunawayGuard {
    recent: Vec<String>,
}

impl RunawayGuard {
    /// The signatures of the last (up to three) iterations.
    pub closed spec fn window(&self) -> Seq<Seq<char>> {
        texts(self.recent@)
    }

    pub closed spec fn wf(&self) -> bool {
        self.recent@.len() <= 3
    }

    pub fn new() -> (r: Self)
        ensures
            r.wf(),
            r.window() == Seq::<Seq<char>>::empty(),
    {
        let r = RunawayGuard { recent: Vec::new() };
        assert(texts(r.recent@) =~= Seq::<Seq<char>>::empty());
        r
    }

    /// Records an iteration's signature; true when it is the third equal one
    /// in a row.
    pub fn observe(&mut self, sig: &str) -> (stuck: bool)
        requires
            old(self).wf(),
        ensures
            final(self).wf(),
            final(self).window() == guard_window(old(self).window(), sig@),
            stuck == window_stuck(final(self).window(), sig@),
    {
        self.recent.push(sig.to_owned());
        if self.recent.len() > 3 {
            self.recent.remove(0);
        }
        assert(texts(self.recent@) =~= guard_window(texts(old(self).recent@), sig@));
        if self.recent.len() != 3 {
            return false;
        }
        let mut i: usize = 0;
        while i < 3
            invariant
                self.recent@.len() == 3,
                texts(self.recent@) == guard_window(texts(old(self).recent@), sig@),
                i <= 3,
                forall|j: int| 0 <= j < i ==> #[trigger] texts(self.recent@)[j] == sig@,
            decreases 3 - i,
        {
            if !text_eq(self.recent[i].as_str(), sig) {
                assert(texts(self.recent@)[i as int] != sig@);
                return false;
            }
            i = i + 1;
        }
        true
    }
}

pub open spec fn texts(v: Seq<String>) -> Seq<Seq<char>> {
    v.map_values(|s: String| s@)
}

/// Three observations of the same signature in a row stop the loop, and a
/// stop means the last three observed signatures were equal.
pub proof fn lemma_guard_stops_on_third_repeat(w0: Seq<Seq<char>>, sig: Seq<char>)
    requires
        w0.len() <= 3,
    ensures
        window_stuck(guard_window(guard_window(guard_window(w0, sig), sig), sig), sig),
        !window_stuck(guard_window(w0, sig), sig) || (w0.len() >= 2 && w0[w0.len() - 1] == sig
            && w0[w0.len() - 2] == sig),
{
    let w1 = guard_window(w0, sig);
    let w2 = guard_window(w1, sig);
    let w3 = guard_window(w2, sig);
    assert(w1.len() >= 1 && w1.last() == sig);
    assert(w2.len() >= 2 && w2[w2.len() - 1] == sig && w2[w2.len() - 2] == sig);
    assert(w3.len() == 3);
    assert(w3[0] == sig && w3[1] == sig && w3[2] == sig);
    if window_stuck(w1, sig) {
        assert(w1[1] == sig && w1[2] == sig);
        if w0.len() == 3 {
            assert(w1 =~= w0.drop_first().push(sig));
            assert(w0[2] == w1[1] && w0[1] == w1[0]);
        } else {
            assert(w1 =~= w0.push(sig));
            assert(w0.len() == 2);
            assert(w0[1] == w1[1] && w0[0] == w1[0]);
        }
    }
}

/// The character-by-character order on texts, as a relation.
pub open spec fn text_order() -> spec_fn(Seq<char>, Seq<char>) -> bool {
    |a: Seq<char>, b: Seq<char>| text_le(a, b)
}

proof fn lemma_text_le_reflexive(a: Seq<char>)
    ensures
        text_le(a, a),
    decreases a.len(),
{
    if a.len() > 0 {
        lemma_text_le_reflexive(a.drop_first());
    }
}

proof fn lemma_text_le_total(a: Seq<char>, b: Seq<char>)
    ensures
        text_le(a, b) || text_le(b, a),
    decreases a.len(),
{
    if a.len() > 0 && b.len() > 0 {
        if a[0] == b[0] {
            lemma_text_le_total(a.drop_first(), b.drop_first());
        }
    }
}

proof fn lemma_text_le_antisymmetric(a: Seq<char>, b: Seq<char>)
    requires
        text_le(a, b),
        text_le(b, a),
    ensures
        a == b,
    decreases a.len(),
{
    if a.len() == 0 {
        assert(a =~= b);
    } else {
        assert(a[0] == b[0]);
        lemma_text_le_antisymmetric(a.drop_first(), b.drop_first());
        assert forall|i: int| 0 <= i < a.len() implies a[i] == b[i] by {
            if i > 0 {
                assert(a[i] == a.drop_first()[i - 1]);
                assert(b[i] == b.drop_first()[i - 1]);
            }
        }
        assert(a =~= b);
    }
}

proof fn lemma_text_le_transitive(a: Seq<char>, b: Seq<char>, c: Seq<char>)
    requires
        text_le(a, b),
        text_le(b, c),
    ensures
        text_le(a, c),
    decreases a.len(),
{
    if a.len() > 0 && a[0] == b[0] && b[0] == c[0] {
        lemma_text_le_transitive(a.drop_first(), b.drop_first(), c.drop_first());
    }
}

/// `text_le` is a total order.
proof fn lemma_text_order_total()
    ensures
        vstd::relations::total_ordering(text_order()),
{
    let r = text_order();
    assert forall|x: Seq<char>| #[trigger] r(x, x) by {
        lemma_text_le_reflexive(x);
    }
    assert forall|x: Seq<char>, y: Seq<char>| #[trigger] r(x, y) && #[trigger] r(y, x) implies x
        == y by {
        lemma_text_le_antisymmetric(x, y);
    }
    assert forall|x: Seq<char>, y: Seq<char>, z: Seq<char>| #[trigger] r(x, y) && #[trigger] r(
        y,
        z,
    ) implies r(x, z) by {
        lemma_text_le_transitive(x, y, z);
    }
    assert forall|x: Seq<char>, y: Seq<char>| #[trigger] r(x, y) || #[trigger] r(y, x) by {
        lemma_text_le_total(x, y);
    }
}

/// A lower bound of `s` and of `x` bounds `insert_sorted(s, x)` too.
proof fn lemma_insert_sorted_bound(s: Seq<Seq<char>>, x: Seq<char>, y: Seq<char>)
    requires
        forall|k: int| 0 <= k < s.len() ==> text_le(y, #[trigger] s[k]),
        text_le(y, x),
    ensures
        forall|j: int| 0 <= j < insert_sorted(s, x).len() ==> text_le(y, #[trigger] insert_sorted(s, x)[j]),
    decreases s.len(),
{
    if s.len() > 0 && text_le(s[0], x) {
        let t = s.drop_first();
        assert forall|k: int| 0 <= k < t.len() implies text_le(y, #[trigger] t[k]) by {
            assert(t[k] == s[k + 1]);
        }
        lemma_insert_sorted_bound(t, x, y);
        let r = insert_sorted(s, x);
        assert forall|j: int| 0 <= j < r.len() implies text_le(y, #[trigger] r[j]) by {
            if j > 0 {
                assert(r[j] == insert_sorted(t, x)[j - 1]);
            }
        }
    }
}

/// Inserting into a sorted sequence keeps it sorted and adds `x` to its
/// elements.
proof fn lemma_insert_sorted_props(s: Seq<Seq<char>>, x: Seq<char>)
    requires
        vstd::relations::sorted_by(s, text_order()),
    ensures
        vstd::relations::sorted_by(insert_sorted(s, x), text_order()),
        insert_sorted(s, x).to_multiset() == s.to_multiset().insert(x),
    decreases s.len(),
{
    broadcast use {vstd::seq_lib::group_to_multiset_ensures, vstd::multiset::group_multiset_axioms};

    let r = insert_sorted(s, x);
    if s.len() == 0 {
        assert(r =~= Seq::<Seq<char>>::empty().push(x));
        assert(s =~= Seq::<Seq<char>>::empty());
    } else if text_le(s[0], x) {
        let t = s.drop_first();
        assert forall|i: int, j: int| 0 <= i < j < t.len() implies #[trigger] text_order()(
            t[i],
            t[j],
        ) by {
            assert(t[i] == s[i + 1] && t[j] == s[j + 1]);
            assert(text_order()(s[i + 1], s[j + 1]));
        }
        lemma_insert_sorted_props(t, x);
        assert forall|k: int| 0 <= k < t.len() implies text_le(s[0], #[trigger] t[k]) by {
            assert(t[k] == s[k + 1]);
            assert(text_order()(s[0], s[k + 1]));
        }
        lemma_insert_sorted_bound(t, x, s[0]);
        let rt = insert_sorted(t, x);
        assert(r =~= seq![s[0]] + rt);
        assert forall|i: int, j: int| 0 <= i < j < r.len() implies #[trigger] text_order()(
            r[i],
            r[j],
        ) by {
            assert(r[j] == rt[j - 1]);
            if i > 0 {
                assert(r[i] == rt[i - 1]);
                assert(text_order()(rt[i - 1], rt[j - 1]));
            }
        }
        vstd::seq_lib::lemma_multiset_commutative(seq![s[0]], rt);
        vstd::seq_lib::lemma_multiset_commutative(seq![s[0]], t);
        assert(s =~= seq![s[0]] + t);
        assert(rt + seq![s[0]] =~= rt.push(s[0]));
        assert(t + seq![s[0]] =~= t.push(s[0]));
        assert(r.to_multiset() =~= s.to_multiset().insert(x));
    } else {
        lemma_text_le_total(s[0], x);
        assert(r =~= seq![x] + s);
        assert forall|i: int, j: int| 0 <= i < j < r.len() implies #[trigger] text_order()(
            r[i],
            r[j],
        ) by {
            assert(r[j] == s[j - 1]);
            if i == 0 {
                if j > 1 {
                    assert(text_order()(s[0], s[j - 1]));
                    lemma_text_le_transitive(x, s[0], s[j - 1]);
                }
            } else {
                assert(r[i] == s[i - 1]);
                assert(text_order()(s[i - 1], s[j - 1]));
            }
        }
        vstd::seq_lib::lemma_multiset_commutative(seq![x], s);
        assert(s + seq![x] =~= s.push(x));
    }
}

/// `sort_texts` sorts: its result is ordered and has the same elements.
proof fn lemma_sort_texts_props(items: Seq<Seq<char>>)
    ensures
        vstd::relations::sorted_by(sort_texts(items), text_order()),
        sort_texts(items).to_multiset() == items.to_multiset(),
    decreases items.len(),
{
    broadcast use {vstd::seq_lib::group_to_multiset_ensures, vstd::multiset::group_multiset_axioms};

    if items.len() == 0 {
        assert(items =~= Seq::<Seq<char>>::empty());
    } else {
        lemma_sort_texts_props(items.drop_last());
        lemma_insert_sorted_props(sort_texts(items.drop_last()), items.last());
        assert(items =~= items.drop_last().push(items.last()));
    }
}

/// Tool-call lists with the same calls have signature lists with the same
/// signatures.
proof fn lemma_signatures_same_multiset(c1: Seq<(String, String)>, c2: Seq<(String, String)>)
    requires
        c1.to_multiset() == c2.to_multiset(),
    ensures
        c1.map_values(|c: (String, String)| call_signature(c)).to_multiset() == c2.map_values(
            |c: (String, String)| call_signature(c),
        ).to_multiset(),
    decreases c1.len(),
{
    broadcast use {vstd::seq_lib::group_to_multiset_ensures, vstd::multiset::group_multiset_axioms};

    let f = |c: (String, String)| call_signature(c);
    if c1.len() == 0 {
        vstd::seq_lib::to_multiset_len(c1);
        vstd::seq_lib::to_multiset_len(c2);
        assert(c2.len() == 0);
        assert(c1.map_values(f) =~= c2.map_values(f));
    } else {
        let x = c1.last();
        let d1 = c1.drop_last();
        assert(c1 =~= d1.push(x));
        assert(c2.to_multiset().count(x) > 0);
        assert(c2.contains(x));
        let k = choose|k: int| 0 <= k < c2.len() && c2[k] == x;
        let d2 = c2.remove(k);
        assert(d1.to_multiset() =~= d2.to_multiset());
        lemma_signatures_same_multiset(d1, d2);
        assert(c1.map_values(f) =~= d1.map_values(f).push(f(x)));
        assert(c2.map_values(f) =~= d2.map_values(f).insert(k, f(x)));
        vstd::seq_lib::to_multiset_insert(d2.map_values(f), k, f(x));
    }
}

/// The signature of an iteration names the set of tool calls, not their
/// order: two lists with the same calls, each the same number of times,
/// have the same signature.
pub proof fn lemma_signature_ignores_call_order(
    calls1: Seq<(String, String)>,
    calls2: Seq<(String, String)>,
)
    requires
        calls1.to_multiset() == calls2.to_multiset(),
    ensures
        spec_iteration_signature(calls1) == spec_iteration_signature(calls2),
{
    let f = |c: (String, String)| call_signature(c);
    lemma_signatures_same_multiset(calls1, calls2);
    lemma_sort_texts_props(calls1.map_values(f));
    lemma_sort_texts_props(calls2.map_values(f));
    lemma_text_order_total();
    vstd::seq_lib::lemma_sorted_unique(
        sort_texts(calls1.map_values(f)),
        sort_texts(calls2.map_values(f)),
        text_order(),
    );
}

// ---------------------------------------------------------------------------
// Argument-parse failures
// ---------------------------------------------------------------------------

/// Consecutive argument-parse failures per tool name.
pub struct ParseFailures {
    counts: Vec<(String, usize)>,
}

/// The count of `name` among `entries` (the first entry for it; 0 if none).
pub open spec fn failures_in(entries: Seq<(String, usize)>, name: Seq<char>) -> nat
    decreases entries.len(),
{
    if entries.len() == 0 {
        0
    } else if entries[0].0@ == name {
        entries[0].1 as nat
    } else {
        failures_in(entries.drop_first(), name)
    }
}

proof fn lemma_failures_set(entries: Seq<(String, usize)>, i: int, e: (String, usize), name: Seq<char>)
    requires
        0 <= i < entries.len(),
        entries[i].0@ == e.0@,
        forall|j: int| 0 <= j < i ==> #[trigger] entries[j].0@ != e.0@,
    ensures
        failures_in(entries.update(i, e), name) == if name == e.0@ {
            e.1 as nat
        } else {
            failures_in(entries, name)
        },
    decreases i,
{
    if i == 0 {
        assert(entries.update(i, e).drop_first() =~= entries.drop_first());
    } else {
        assert(entries.update(i, e).drop_first() =~= entries.drop_first().update(i - 1, e));
        assert forall|j: int| 0 <= j < i - 1 implies #[trigger] entries.drop_first()[j].0@ != e.0@ by {
            assert(entries.drop_first()[j] == entries[j + 1]);
        }
        lemma_failures_set(entries.drop_first(), i - 1, e, name);
    }
}

proof fn lemma_failures_absent(entries: Seq<(String, usize)>, e: (String, usize), name: Seq<char>)
    requires
        forall|j: int| 0 <= j < entries.len() ==> #[trigger] entries[j].0@ != e.0@,
    ensures
        failures_in(entries.push(e), name) == if name == e.0@ {
            e.1 as nat
        } else {
            failures_in(entries, name)
        },
        name == e.0@ ==> failures_in(entries, name) == 0,
    decreases entries.len(),
{
    if entries.len() > 0 {
        assert(entries.push(e).drop_first() =~= entries.drop_first().push(e));
        assert forall|j: int| 0 <= j < entries.len() - 1 implies #[trigger] entries.drop_first()[j].0@ != e.0@ by {
            assert(entries.drop_first()[j] == entries[j + 1]);
        }
        lemma_failures_absent(entries.drop_first(), e, name);
    } else {
        assert(entries.push(e).drop_first() =~= entries);
    }
}

proof fn lemma_failures_none(entries: Seq<(String, usize)>, name: Seq<char>)
    requires
        forall|j: int| 0 <= j < entries.len() ==> #[trigger] entries[j].0@ != name,
    ensures
        failures_in(entries, name) == 0,
    decreases entries.len(),
{
    if entries.len() > 0 {
        assert forall|j: int| 0 <= j < entries.len() - 1 implies #[trigger] entries.drop_first()[j].0@ != name by {
            assert(entries.drop_first()[j] == entries[j + 1]);
        }
        lemma_failures_none(entries.drop_first(), name);
    }
}

impl ParseFailures {
    /// No tool name is listed twice.
    #[verifier::type_invariant]
    closed spec fn names_distinct(&self) -> bool {
        forall|i: int, j: int|
            0 <= i < j < self.counts@.len() ==> #[trigger] self.counts@[i].0@ != #[trigger] self.counts@[j].0@
    }

    /// The consecutive parse failures of tool `name`.
    pub closed spec fn count(&self, name: Seq<char>) -> nat {
        failures_in(self.counts@, name)
    }

    pub fn new() -> (r: Self)
        ensures
            forall|n: Seq<char>| r.count(n) == 0,
    {
        ParseFailures { counts: Vec::new() }
    }

    fn find(&self, name: &str) -> (r: Option<usize>)
        ensures
            match r {
                Some(i) => i < self.counts.len() && self.counts@[i as int].0@ == name@ && forall|j: int|
                    0 <= j < i ==> #[trigger] self.counts@[j].0@ != name@,
                None => forall|j: int| 0 <= j < self.counts.len() ==> #[trigger] self.counts@[j].0@ != name@,
            },
    {
        let mut i: usize = 0;
        while i < self.counts.len()
            invariant
                i <= self.counts.len(),
                forall|j: int| 0 <= j < i ==> #[trigger] self.counts@[j].0@ != name@,
            decreases self.counts.len() - i,
        {
            if text_eq(self.counts[i].0.as_str(), name) {
                return Some(i);
            }
            i = i + 1;
        }
        None
    }

    /// The arguments of a call to `name` parsed: its failure run ends.
    pub fn record_success(&mut self, name: &str)
        ensures
            final(self).count(name@) == 0,
            forall|n: Seq<char>| n != name@ ==> #[trigger] final(self).count(n) == old(self).count(n),
    {
        proof {
            use_type_invariant(&*self);
        }
        if let Some(i) = self.find(name) {
            let e = (self.counts[i].0.clone(), 0usize);
            let ghost before = self.counts@;
            let mut counts: Vec<(String, usize)> = Vec::new();
            std::mem::swap(&mut counts, &mut self.counts);
            counts.set(i, e);
            assert forall|a: int, b: int| 0 <= a < b < counts@.len() implies #[trigger] counts@[a].0@
                != #[trigger] counts@[b].0@ by {
                assert(counts@[a].0@ == before[a].0@ && counts@[b].0@ == before[b].0@);
            }
            self.counts = counts;
            proof {
                assert forall|n: Seq<char>| #[trigger] failures_in(self.counts@, n) == if n == name@ {
                    0
                } else {
                    failures_in(before, n)
                } by {
                    lemma_failures_set(before, i as int, e, n);
                }
            }
        } else {
            proof {
                lemma_failures_none(self.counts@, name@);
            }
        }
    }

    /// The arguments of a call to `name` failed to parse: its failure run
    /// grows by one (saturating), and the new count is returned.
    pub fn record_failure(&mut self, name: &str) -> (n: usize)
        ensures
            n == (if old(self).count(name@) < usize::MAX {
                old(self).count(name@) + 1
            } else {
                usize::MAX as nat
            }),
            final(self).count(name@) == n,
            forall|m: Seq<char>| m != name@ ==> #[trigger] final(self).count(m) == old(self).count(m),
    {
        proof {
            use_type_invariant(&*self);
        }
        let ghost before = self.counts@;
        match self.find(name) {
            Some(i) => {
                let c = self.counts[i].1;
                let next = if c < usize::MAX {
                    c + 1
                } else {
                    c
                };
                proof {
                    assert(before[i as int].0@ == name@);
                    if i > 0 {
                        assert(before.drop_first()[i - 1] == before[i as int]);
                    }
                    lemma_failures_set(before, i as int, (before[i as int].0, c), name@);
                    assert(before.update(i as int, (before[i as int].0, c)) =~= before);
                }
                let e = (self.counts[i].0.clone(), next);
                let mut counts: Vec<(String, usize)> = Vec::new();
                std::mem::swap(&mut counts, &mut self.counts);
                counts.set(i, e);
                assert forall|a: int, b: int| 0 <= a < b < counts@.len() implies #[trigger] counts@[a].0@
                    != #[trigger] counts@[b].0@ by {
                    assert(counts@[a].0@ == before[a].0@ && counts@[b].0@ == before[b].0@);
                }
                self.counts = counts;
                proof {
                    assert forall|m: Seq<char>| #[trigger] failures_in(self.counts@, m) == if m == name@ {
                        next as nat
                    } else {
                        failures_in(before, m)
                    } by {
                        lemma_failures_set(before, i as int, e, m);
                    }
                }
                next
            },
            None => {
                let e = (name.to_owned(), 1usize);
                let mut counts: Vec<(String, usize)> = Vec::new();
                std::mem::swap(&mut counts, &mut self.counts);
                counts.push(e);
                assert forall|a: int, b: int| 0 <= a < b < counts@.len() implies #[trigger] counts@[a].0@
                    != #[trigger] counts@[b].0@ by {
                    assert(counts@[a] == before[a]);
                    if b < before.len() {
                        assert(counts@[b] == before[b]);
                    }
                }
                self.counts = counts;
                proof {
                    assert forall|m: Seq<char>| #[trigger] failures_in(self.counts@, m) == if m == name@ {
                        1nat
                    } else {
                        failures_in(before, m)
                    } by {
                        lemma_failures_absent(before, e, m);
                    }
                    lemma_failures_absent(before, e, name@);
                }
                1
            },
        }
    }
}

/// How many consecutive parse failures of one tool stop the loop.
pub const PARSE_FAILURE_LIMIT: usize = 2;

// ---------------------------------------------------------------------------
// Tool-call gate
// ---------------------------------------------------------------------------

/// What happens to a parsed tool call before confirmation.
#[derive(Debug, Clone, Copy, PartialEq, Eq, Structural)]
pub enum ToolGate {
    /// The tool is not among the session's tools.
    NotAllowed,
    /// The call names a connection that is not available.
    UnknownConnection,
    /// Connections are available but the call names none.
    MissingConnection,
    /// Use the connection at this index of the available connection ids.
    Connection(usize),
    /// No connections are available: use the fallback configuration.
    Fallback,
}

/// `items` holds an element with the text `s`.
pub open spec fn lists(items: Seq<String>, s: Seq<char>) -> bool {
    exists|i: int| 0 <= i < items.len() && #[trigger] items[i]@ == s
}

/// The first index of `s` in `items`.
pub open spec fn first_index(items: Seq<String>, s: Seq<char>) -> int
    decreases items.len(),
{
    if items.len() == 0 {
        0
    } else if items[0]@ == s {
        0
    } else {
        1 + first_index(items.drop_first(), s)
    }
}

/// Where a parsed tool call goes: the tool must be one of the session's
/// tools (none are allowed when the list is empty); then a `connection_id` argument must
/// name an available connection, and without one the fallback applies only
/// when no connections are available.
pub open spec fn spec_gate(
    tool_name: Seq<char>,
    allowed_tools: Seq<String>,
    arguments: Json,
    connection_ids: Seq<String>,
) -> ToolGate {
    if allowed_tools.len() == 0 || !lists(allowed_tools, tool_name) {
        ToolGate::NotAllowed
    } else {
        match field_str(arguments, "connection_id"@) {
            Some(id) => if lists(connection_ids, id) {
                ToolGate::Connection(first_index(connection_ids, id) as usize)
            } else {
                ToolGate::UnknownConnection
            },
            None => if connection_ids.len() > 0 {
                ToolGate::MissingConnection
            } else {
                ToolGate::Fallback
            },
        }
    }
}

proof fn lemma_first_index(items: Seq<String>, s: Seq<char>, i: int)
    requires
        0 <= i < items.len(),
        items[i]@ == s,
        forall|j: int| 0 <= j < i ==> #[trigger] items[j]@ != s,
    ensures
        first_index(items, s) == i,
    decreases i,
{
    if i > 0 {
        assert forall|j: int| 0 <= j < i - 1 implies #[trigger] items.drop_first()[j]@ != s by {
            assert(items.drop_first()[j] == items[j + 1]);
        }
        lemma_first_index(items.drop_first(), s, i - 1);
    }
}

fn find_text(items: &[String], s: &str) -> (r: Option<usize>)
    ensures
        r is Some == lists(items@, s@),
        r matches Some(i) ==> i < items.len() && first_index(items@, s@) == i,
{
    let mut i: usize = 0;
    while i < items.len()
        invariant
            i <= items.len(),
            forall|j: int| 0 <= j < i ==> #[trigger] items@[j]@ != s@,
        decreases items.len() - i,
    {
        if text_eq(items[i].as_str(), s) {
            proof {
                lemma_first_index(items@, s@, i as int);
            }
            return Some(i);
        }
        i = i + 1;
    }
    None
}

/// Decides how a parsed tool call proceeds.
pub fn gate_tool_call(
    tool_name: &str,
    allowed_tools: &[String],
    arguments: &Json,
    connection_ids: &[String],
) -> (r: ToolGate)
    ensures
        r == spec_gate(tool_name@, allowed_tools@, *arguments, connection_ids@),
{
    if allowed_tools.len() == 0 || find_text(allowed_tools, tool_name).is_none() {
        return ToolGate::NotAllowed;
    }
    match arguments.get_str("connection_id") {
        Some(id) => match find_text(connection_ids, id) {
            Some(i) => ToolGate::Connection(i),
            None => ToolGate::UnknownConnection,
        },
        None => if connection_ids.len() > 0 {
            ToolGate::MissingConnection
        } else {
            ToolGate::Fallback
        },
    }
}

// ---------------------------------------------------------------------------
// Execution plan
// ---------------------------------------------------------------------------

/// A run of consecutive approved tool calls with the same `parallel_ok`.
#[derive(Debug, Clone, Copy, PartialEq, Eq, Structural)]
pub struct ExecBatch {
    pub start: usize,
    pub end: usize,
    pub parallel: bool,
}

/// The batches are the maximal runs of equal flags in `flags`, in order:
/// they tile `[0, flags.len())`, each is non-empty with one flag, and
/// neighbours differ.
pub open spec fn batches_are_runs(batches: Seq<ExecBatch>, flags: Seq<bool>) -> bool {
    &&& (flags.len() == 0) == (batches.len() == 0)
    &&& batches.len() > 0 ==> batches[0].start == 0 && batches.last().end == flags.len()
    &&& forall|k: int| 0 <= k < batches.len() ==> #[trigger] batches[k].start < batches[k].end
    &&& forall|k: int| 0 <= k < batches.len() - 1 ==> #[trigger] batches[k].end == batches[k + 1].start
    &&& forall|k: int, i: int|
        0 <= k < batches.len() && batches[k].start <= i < batches[k].end ==> #[trigger] flags[i]
            == #[trigger] batches[k].parallel
    &&& forall|k: int| 0 <= k < batches.len() - 1 ==> #[trigger] batches[k].parallel != batches[k + 1].parallel
}

/// Partitions approved tool calls, given each one's `parallel_ok`, into
/// execution batches.
pub fn plan_batches(parallel_ok: &[bool]) -> (r: Vec<ExecBatch>)
    ensures
        batches_are_runs(r@, parallel_ok@),
{
    let mut batches: Vec<ExecBatch> = Vec::new();
    let mut pos: usize = 0;
    while pos < parallel_ok.len()
        invariant
            pos <= parallel_ok.len(),
            (pos == 0) == (batches.len() == 0),
            batches.len() > 0 ==> batches[0].start == 0 && batches@.last().end == pos,
            forall|k: int| 0 <= k < batches.len() ==> #[trigger] batches@[k].start < batches@[k].end,
            forall|k: int| 0 <= k < batches.len() - 1 ==> #[trigger] batches@[k].end == batches@[k + 1].start,
            forall|k: int, i: int|
                0 <= k < batches.len() && batches@[k].start <= i < batches@[k].end ==> #[trigger] parallel_ok@[i]
                    == #[trigger] batches@[k].parallel,
            forall|k: int| 0 <= k < batches.len() - 1 ==> #[trigger] batches@[k].parallel != batches@[k + 1].parallel,
            pos < parallel_ok.len() && batches.len() > 0 ==> parallel_ok@[pos as int] != batches@.last().parallel,
        decreases parallel_ok.len() - pos,
    {
        let group_start = pos;
        let is_parallel = parallel_ok[pos];
        while pos < parallel_ok.len() && parallel_ok[pos] == is_parallel
            invariant
                group_start < pos || pos == group_start,
                pos <= parallel_ok.len(),
                group_start < parallel_ok.len(),
                parallel_ok@[group_start as int] == is_parallel,
                forall|i: int| group_start <= i < pos ==> parallel_ok@[i] == is_parallel,
            decreases parallel_ok.len() - pos,
        {
            pos = pos + 1;
        }
        let ghost before = batches@;
        batches.push(ExecBatch { start: group_start, end: pos, parallel: is_parallel });
        assert(batches@.drop_last() == before);
        assert forall|k: int, i: int|
            0 <= k < batches.len() && batches@[k].start <= i < batches@[k].end implies #[trigger] parallel_ok@[i]
                == #[trigger] batches@[k].parallel by {
            if k < before.len() {
                assert(batches@[k] == before[k]);
            }
        }
    }
    batches
}

/// The indices below `n` that are not in `done`, in order: the calls to be
/// reported as cancelled.
pub open spec fn spec_unprocessed(n: int, done: Seq<usize>) -> Seq<usize>
    decreases n,
{
    if n <= 0 {
        Seq::empty()
    } else if done.contains((n - 1) as usize) {
        spec_unprocessed(n - 1, done)
    } else {
        spec_unprocessed(n - 1, done).push((n - 1) as usize)
    }
}

/// The indices in `[lo, hi)` that are not in `done`, in order.
pub fn unprocessed_indices(lo: usize, hi: usize, done: &[usize]) -> (r: Vec<usize>)
    requires
        lo <= hi,
    ensures
        forall|i: int| 0 <= i < r@.len() ==> lo <= #[trigger] r@[i] < hi && !done@.contains(r@[i]),
        forall|i: usize| lo <= i < hi && !done@.contains(i) ==> r@.contains(i),
        forall|a: int, b: int| 0 <= a < b < r@.len() ==> r@[a] < r@[b],
{
    let mut out: Vec<usize> = Vec::new();
    let mut j: usize = lo;
    while j < hi
        invariant
            lo <= j <= hi,
            forall|i: int| 0 <= i < out@.len() ==> lo <= #[trigger] out@[i] < j && !done@.contains(out@[i]),
            forall|i: usize| lo <= i < j && !done@.contains(i) ==> out@.contains(i),
            forall|a: int, b: int| 0 <= a < b < out@.len() ==> out@[a] < out@[b],
        decreases hi - j,
    {
        let mut found = false;
        let mut k: usize = 0;
        while k < done.len()
            invariant
                k <= done.len(),
                found == (exists|m: int| 0 <= m < k && done@[m] == j),
            decreases done.len() - k,
        {
            if done[k] == j {
                found = true;
            }
            k = k + 1;
        }
        if !found {
            let ghost before = out@;
            out.push(j);
            assert forall|i: usize| lo <= i < j + 1 && !done@.contains(i) implies out@.contains(i) by {
                if i == j {
                    assert(out@[out@.len() - 1] == i);
                } else {
                    let w = choose|w: int| 0 <= w < before.len() && before[w] == i;
                    assert(out@[w] == i);
                }
            }
        } else {
            assert(done@.contains(j));
        }
        j = j + 1;
    }
    out
}

/// How a finished tool call is recorded.
#[derive(Debug, Clone, Copy, PartialEq, Eq, Structural)]
pub enum ToolOutcome {
    Completed,
    Failed,
    Cancelled,
}

impl ToolOutcome {
    /// The tool call's status after this outcome.
    pub fn status(&self) -> (r: &'static str)
        ensures
            r@ == match self {
                ToolOutcome::Completed => "completed"@,
                _ => "failed"@,
            },
    {
        match self {
            ToolOutcome::Completed => "completed",
            _ => "failed",
        }
    }
}

// ---------------------------------------------------------------------------
// Messages
// ---------------------------------------------------------------------------

/// The content of a cancelled tool call's result.
pub const TOOL_CANCELLED_MESSAGE: &'static str = "Tool call was cancelled.";

/// The message that stops a loop repeating the same tool calls.
pub const RUNAWAY_MESSAGE: &'static str = "Agent stopped: detected the same tool call repeating across 3 iterations with no progress. Try rephrasing your request or check the tool's previous results.";

fn concat3(a: &str, b: &str, c: &str) -> (r: String)
    ensures
        r@ == a@ + b@ + c@,
{
    let mut s = a.to_owned();
    s.append(b);
    s.append(c);
    s
}

/// "Tool '<name>' is not allowed in this session."
pub fn not_allowed_message(tool_name: &str) -> (r: String)
    ensures
        r@ == "Tool '"@ + tool_name@ + "' is not allowed in this session."@,
{
    concat3("Tool '", tool_name, "' is not allowed in this session.")
}

/// "Unknown connection_id '<id>' for tool '<name>'."
pub fn unknown_connection_message(connection_id: &str, tool_name: &str) -> (r: String)
    ensures
        r@ == "Unknown connection_id '"@ + connection_id@ + "' for tool '"@ + tool_name@ + "'."@,
{
    let mut s = concat3("Unknown connection_id '", connection_id, "' for tool '");
    s.append(tool_name);
    s.append("'.");
    s
}

/// Joins `items` with `sep` between neighbours.
pub fn join_texts(items: &[String], sep: &str) -> (r: String)
    ensures
        r@ == joined(texts(items@), sep@),
{
    let mut out = String::new();
    let mut i: usize = 0;
    while i < items.len()
        invariant
            i <= items.len(),
            out@ == joined(texts(items@).subrange(0, i as int), sep@),
        decreases items.len() - i,
    {
        let ghost prefix = texts(items@).subrange(0, i + 1);
        assert(prefix.drop_last() =~= texts(items@).subrange(0, i as int));
        if i > 0 {
            out.append(sep);
        }
        out.append(items[i].as_str());
        if i == 0 {
            assert(out@ =~= prefix[0]);
        }
        i = i + 1;
    }
    assert(texts(items@).subrange(0, i as int) =~= texts(items@));
    out
}

/// "Tool '<name>' requires a connection_id argument. Available connections:
/// <ids joined by ', '>."
pub fn missing_connection_message(tool_name: &str, connection_ids: &[String]) -> (r: String)
    ensures
        r@ == "Tool '"@ + tool_name@ + "' requires a connection_id argument. Available connections: "@
            + joined(texts(connection_ids@), ", "@) + "."@,
{
    let mut s = concat3("Tool '", tool_name, "' requires a connection_id argument. Available connections: ");
    let ids = join_texts(connection_ids, ", ");
    s.append(ids.as_str());
    s.append(".");
    s
}

/// "Tool call '<name>' was denied by the user. Try an alternative approach."
pub fn denied_message(tool_name: &str) -> (r: String)
    ensures
        r@ == "Tool call '"@ + tool_name@ + "' was denied by the user. Try an alternative approach."@,
{
    concat3("Tool call '", tool_name, "' was denied by the user. Try an alternative approach.")
}

/// "Agent paused after <n> iterations (configured cap). ..."
pub fn iteration_cap_message(iter_count: usize) -> (r: String)
    ensures
        r@ == "Agent paused after "@ + decimal_digits(iter_count as nat)
            + " iterations (configured cap). The task may need more work — reply 'continue' or raise the cap in settings."@,
{
    let n = decimal_text(iter_count as u64);
    concat3(
        "Agent paused after ",
        n.as_str(),
        " iterations (configured cap). The task may need more work — reply 'continue' or raise the cap in settings.",
    )
}

/// "Agent paused after <minutes>m wall-clock budget. ...", with the elapsed
/// time in whole minutes.
pub fn wall_clock_message(elapsed_secs: u64) -> (r: String)
    ensures
        r@ == "Agent paused after "@ + decimal_digits((elapsed_secs / 60) as nat)
            + "m wall-clock budget. Reply 'continue' to keep going or raise the budget in settings."@,
{
    let n = decimal_text(elapsed_secs / 60);
    concat3(
        "Agent paused after ",
        n.as_str(),
        "m wall-clock budget. Reply 'continue' to keep going or raise the budget in settings.",
    )
}

/// "Agent paused after consuming <n> input tokens (configured budget <b>). ..."
pub fn token_budget_message(cumulative_tokens: usize, token_budget: usize) -> (r: String)
    ensures
        r@ == "Agent paused after consuming "@ + decimal_digits(cumulative_tokens as nat)
            + " input tokens (configured budget "@ + decimal_digits(token_budget as nat)
            + "). Reply 'continue' to keep going or raise the budget in settings."@,
{
    let n = decimal_text(cumulative_tokens as u64);
    let b = decimal_text(token_budget as u64);
    let mut s = concat3("Agent paused after consuming ", n.as_str(), " input tokens (configured budget ");
    s.append(b.as_str());
    s.append("). Reply 'continue' to keep going or raise the budget in settings.");
    s
}

/// The content of the tool result for arguments that are not valid JSON:
/// "Invalid arguments for '<name>': <error>." and, where the tool's required
/// parameters are known, " Required parameters: <params>.".
pub fn invalid_arguments_message(tool_name: &str, error: &str, required: Option<&str>) -> (r: String)
    ensures
        r@ == "Invalid arguments for '"@ + tool_name@ + "': "@ + error@ + "."@ + match required {
            Some(p) => " Required parameters: "@ + p@ + "."@,
            None => Seq::empty(),
        },
{
    let mut s = concat3("Invalid arguments for '", tool_name, "': ");
    s.append(error);
    s.append(".");
    match required {
        Some(p) => {
            s.append(" Required parameters: ");
            s.append(p);
            s.append(".");
        },
        None => {},
    }
    s
}

/// The message that stops a loop once the model has sent invalid arguments
/// for a tool too often; it names the required fields when they are known
/// (`param_hint` not empty).
pub fn invalid_tool_calls_message(tool_name: &str, param_hint: &str) -> (r: String)
    ensures
        r@ == if param_hint@.len() == 0 {
            "Model keeps generating invalid tool calls for '"@ + tool_name@
                + "'. Try rephrasing your request or switch to a model with better function-calling support."@
        } else {
            "Model keeps generating invalid tool calls for '"@ + tool_name@
                + "'. The tool requires valid JSON arguments with fields: "@ + param_hint@
                + ". Try rephrasing your request to include all required parameters, or switch to a model with better function-calling support."@
        },
{
    if param_hint.is_empty() {
        concat3(
            "Model keeps generating invalid tool calls for '",
            tool_name,
            "'. Try rephrasing your request or switch to a model with better function-calling support.",
        )
    } else {
        let mut s = concat3(
            "Model keeps generating invalid tool calls for '",
            tool_name,
            "'. The tool requires valid JSON arguments with fields: ",
        );
        s.append(param_hint);
        s.append(
            ". Try rephrasing your request to include all required parameters, or switch to a model with better function-calling support.",
        );
        s
    }
}

/// The names of the session's tools: `function.name` of each item of the
/// settings' `tools` array that has one.
pub open spec fn tool_names(items: Seq<Json>) -> Seq<Seq<char>>
    decreases items.len(),
{
    if items.len() == 0 {
        Seq::empty()
    } else {
        let earlier = tool_names(items.drop_last());
        match json_get(items.last(), "function"@) {
            Some(f) => match field_str(f, "name"@) {
                Some(n) => earlier.push(n),
                None => earlier,
            },
            None => earlier,
        }
    }
}

pub open spec fn spec_allowed_tools(settings: Json) -> Seq<Seq<char>> {
    match crate::json::field_array(settings, "tools"@) {
        Some(items) => tool_names(items),
        None => Seq::empty(),
    }
}

/// The tools the session may call, from the settings' `tools` array.
pub fn allowed_tools(settings: &Json) -> (r: Vec<String>)
    ensures
        texts(r@) == spec_allowed_tools(*settings),
{
    let mut out: Vec<String> = Vec::new();
    match settings.get_array("tools") {
        Some(items) => {
            let mut i: usize = 0;
            assert(items@.subrange(0, 0) =~= Seq::<Json>::empty());
            assert(texts(out@) =~= Seq::<Seq<char>>::empty());
            while i < items.len()
                invariant
                    i <= items.len(),
                    texts(out@) == tool_names(items@.subrange(0, i as int)),
                decreases items.len() - i,
            {
                let ghost prefix = items@.subrange(0, i + 1);
                assert(prefix.drop_last() =~= items@.subrange(0, i as int));
                assert(prefix.last() == items@[i as int]);
                if let Some(f) = items[i].get("function") {
                    if let Some(n) = f.get_str("name") {
                        let ghost before = texts(out@);
                        out.push(n.to_owned());
                        assert(texts(out@) =~= before.push(n@));
                    }
                }
                i = i + 1;
            }
            assert(items@.subrange(0, i as int) =~= items@);
            out
        },
        None => {
            assert(texts(out@) =~= Seq::<Seq<char>>::empty());
            out
        },
    }
}

} // verus!
