//! Model specifications: context window, output reserve and tokenizer, and
//! the per-session tokenizer pinning.
use vstd::prelude::*;

use crate::json::{field_str, field_u64, Json};
use crate::text::text_eq;

verus! {

/// The tokenizer family used to count a model's tokens.
#[derive(Debug, Clone, Copy, PartialEq, Eq, Structural)]
pub enum TokenizerFamily {
    Generic,
    OpenAiO200k,
}

/// What compaction needs to know about a model.
#[derive(Debug, Clone)]
pub struct ModelSpec {
    pub model_id: String,
    pub context_window: usize,
    pub output_reserve: usize,
    pub tokenizer: TokenizerFamily,
}

/// The part of the context window left for the prompt: the window less the
/// output reserve, and zero where the reserve is larger.
pub open spec fn spec_usable_window(context_window: int, output_reserve: int) -> int {
    if context_window >= output_reserve {
        context_window - output_reserve
    } else {
        0
    }
}

/// The prompt capacity of `spec`.
pub fn usable_window(spec: &ModelSpec) -> (r: usize)
    ensures
        r == spec_usable_window(spec.context_window as int, spec.output_reserve as int),
{
    spec.context_window.saturating_sub(spec.output_reserve)
}

/// What the settings say of the model: the provider (default
/// `OPEN_AI`), the model (default `gpt-4o-mini`), and the context-window
/// override, if any.
pub struct ModelSettings {
    pub provider: String,
    pub model: String,
    pub context_window_override: Option<usize>,
}

/// The text of `field` in `settings`, or `default`.
pub open spec fn text_or(settings: Json, field: Seq<char>, default: Seq<char>) -> Seq<char> {
    match field_str(settings, field) {
        Some(s) => s,
        None => default,
    }
}

/// Reads `provider`, `model` and `contextWindowOverride` from the settings.
pub fn model_settings(settings: &Json) -> (r: ModelSettings)
    ensures
        r.provider@ == text_or(*settings, "provider"@, "OPEN_AI"@),
        r.model@ == text_or(*settings, "model"@, "gpt-4o-mini"@),
        r.context_window_override == match field_u64(*settings, "contextWindowOverride"@) {
            Some(n) => Some(n as usize),
            None => None::<usize>,
        },
{
    let provider = match settings.get_str("provider") {
        Some(p) => p.to_owned(),
        None => "OPEN_AI".to_owned(),
    };
    let model = match settings.get_str("model") {
        Some(m) => m.to_owned(),
        None => "gpt-4o-mini".to_owned(),
    };
    let context_window_override = match settings.get_u64("contextWindowOverride") {
        Some(n) => Some(n as usize),
        None => None,
    };
    ModelSettings { provider, model, context_window_override }
}

/// Tokenizer families pinned per session. The first resolution for a session
/// fixes its tokenizer; later resolutions keep it even if the provider or
/// model settings drift mid-session.
pub struct TokenizerPins {
    entries: Vec<(String, TokenizerFamily)>,
}

/// The pin of `session` among `entries` (the first entry for it).
pub open spec fn pin_in(entries: Seq<(String, TokenizerFamily)>, session: Seq<char>) -> Option<
    TokenizerFamily,
>
    decreases entries.len(),
{
    if entries.len() == 0 {
        None
    } else if entries[0].0@ == session {
        Some(entries[0].1)
    } else {
        pin_in(entries.drop_first(), session)
    }
}

impl TokenizerPins {
    /// No session is pinned twice.
    #[verifier::type_invariant]
    closed spec fn sessions_distinct(&self) -> bool {
        forall|i: int, j: int|
            0 <= i < j < self.entries@.len() ==> #[trigger] self.entries@[i].0@ != #[trigger] self.entries@[j].0@
    }

    /// The pinned tokenizer of `session`, if it has one.
    pub closed spec fn pinned(&self, session: Seq<char>) -> Option<TokenizerFamily> {
        pin_in(self.entries@, session)
    }

    /// The pins as a map from session to tokenizer.
    pub closed spec fn pin_map(&self) -> Map<Seq<char>, TokenizerFamily> {
        Map::new(|s: Seq<char>| self.pinned(s) is Some, |s: Seq<char>| self.pinned(s)->0)
    }

    pub fn new() -> (r: Self)
        ensures
            forall|s: Seq<char>| r.pinned(s) is None,
            r.pin_map() == Map::<Seq<char>, TokenizerFamily>::empty(),
    {
        let r = TokenizerPins { entries: Vec::new() };
        assert(r.pin_map() =~= Map::<Seq<char>, TokenizerFamily>::empty());
        r
    }

    fn find(&self, session_id: &str) -> (r: Option<TokenizerFamily>)
        ensures
            r == self.pinned(session_id@),
    {
        let mut i: usize = 0;
        assert(self.entries@.subrange(0, self.entries.len() as int) =~= self.entries@);
        while i < self.entries.len()
            invariant
                i <= self.entries.len(),
                pin_in(self.entries@, session_id@) == pin_in(
                    self.entries@.subrange(i as int, self.entries.len() as int),
                    session_id@,
                ),
            decreases self.entries.len() - i,
        {
            let ghost rest = self.entries@.subrange(i as int, self.entries.len() as int);
            assert(rest.drop_first() =~= self.entries@.subrange(i + 1, self.entries.len() as int));
            assert(rest[0] == self.entries@[i as int]);
            if text_eq(self.entries[i].0.as_str(), session_id) {
                return Some(self.entries[i].1);
            }
            i = i + 1;
        }
        None
    }

    /// Resolves `spec` for `session_id`: where the session already has a
    /// pinned tokenizer, the result carries it; otherwise the spec's own
    /// tokenizer becomes the session's pin. Everything else of `spec` is
    /// kept.
    pub fn resolve_for_session(&mut self, session_id: &str, spec: ModelSpec) -> (r: ModelSpec)
        ensures
            r.model_id == spec.model_id,
            r.context_window == spec.context_window,
            r.output_reserve == spec.output_reserve,
            r.tokenizer == match old(self).pinned(session_id@) {
                Some(t) => t,
                None => spec.tokenizer,
            },
            final(self).pinned(session_id@) == Some(r.tokenizer),
            forall|s: Seq<char>|
                s != session_id@ ==> #[trigger] final(self).pinned(s) == old(self).pinned(s),
            final(self).pin_map() == pinned_with(old(self).pin_map(), session_id@, spec.tokenizer),
            r.tokenizer == pinned_with(old(self).pin_map(), session_id@, spec.tokenizer)[session_id@],
    {
        let r = self.resolve_inner(session_id, spec);
        assert(self.pin_map() =~= pinned_with(old(self).pin_map(), session_id@, r.tokenizer));
        r
    }

    fn resolve_inner(&mut self, session_id: &str, spec: ModelSpec) -> (r: ModelSpec)
        ensures
            r.model_id == spec.model_id,
            r.context_window == spec.context_window,
            r.output_reserve == spec.output_reserve,
            r.tokenizer == match old(self).pinned(session_id@) {
                Some(t) => t,
                None => spec.tokenizer,
            },
            final(self).pinned(session_id@) == Some(r.tokenizer),
            forall|s: Seq<char>|
                s != session_id@ ==> #[trigger] final(self).pinned(s) == old(self).pinned(s),
    {
        match self.find(session_id) {
            Some(t) => ModelSpec { tokenizer: t, ..spec },
            None => {
                let ghost before = self.entries@;
                let key = session_id.to_owned();
                let entry = (key, spec.tokenizer);
                proof {
                    use_type_invariant(&*self);
                    lemma_pin_absent(before, session_id@);
                }
                let mut entries: Vec<(String, TokenizerFamily)> = Vec::new();
                std::mem::swap(&mut entries, &mut self.entries);
                entries.push(entry);
                assert forall|a: int, b: int| 0 <= a < b < entries@.len() implies #[trigger] entries@[a].0@
                    != #[trigger] entries@[b].0@ by {
                    assert(entries@[a] == before[a]);
                    if b < before.len() {
                        assert(entries@[b] == before[b]);
                    }
                }
                self.entries = entries;
                proof {
                    assert forall|s: Seq<char>| #[trigger] pin_in(before.push(entry), s) == (
                    if s == session_id@ {
                        Some(spec.tokenizer)
                    } else {
                        pin_in(before, s)
                    }) by {
                        lemma_pin_in_push(before, entry, s);
                    }
                }
                spec
            },
        }
    }
}

/// The pins after resolving `session` with tokenizer `t`: a session that
/// has a pin keeps it, otherwise `t` becomes its pin.
pub open spec fn pinned_with(pins: Map<Seq<char>, TokenizerFamily>, session: Seq<char>, t: TokenizerFamily) -> Map<
    Seq<char>,
    TokenizerFamily,
> {
    if pins.contains_key(session) {
        pins
    } else {
        pins.insert(session, t)
    }
}

/// The pins after the resolutions `calls`, each a session and the
/// tokenizer its settings name, made in order from no pins.
pub open spec fn pins_after(calls: Seq<(Seq<char>, TokenizerFamily)>) -> Map<Seq<char>, TokenizerFamily>
    decreases calls.len(),
{
    if calls.len() == 0 {
        Map::empty()
    } else {
        pinned_with(pins_after(calls.drop_last()), calls.last().0, calls.last().1)
    }
}

/// The tokenizer that resolution `j` of `calls` gives.
pub open spec fn resolved_tokenizer(calls: Seq<(Seq<char>, TokenizerFamily)>, j: int) -> TokenizerFamily {
    pinned_with(pins_after(calls.take(j)), calls[j].0, calls[j].1)[calls[j].0]
}

proof fn lemma_pins_domain(calls: Seq<(Seq<char>, TokenizerFamily)>, s: Seq<char>)
    ensures
        pins_after(calls).contains_key(s) <==> exists|i: int| 0 <= i < calls.len() && #[trigger] calls[i].0 == s,
    decreases calls.len(),
{
    if calls.len() > 0 {
        let d = calls.drop_last();
        lemma_pins_domain(d, s);
        if pins_after(calls).contains_key(s) {
            if pins_after(d).contains_key(s) {
                let i = choose|i: int| 0 <= i < d.len() && #[trigger] d[i].0 == s;
                assert(calls[i].0 == s);
            } else {
                assert(calls[calls.len() - 1].0 == s);
            }
        }
        if exists|i: int| 0 <= i < calls.len() && #[trigger] calls[i].0 == s {
            let i = choose|i: int| 0 <= i < calls.len() && #[trigger] calls[i].0 == s;
            if i < d.len() {
                assert(d[i].0 == s);
            }
        }
    }
}

proof fn lemma_first_pin_kept(calls: Seq<(Seq<char>, TokenizerFamily)>, k: int, n: int)
    requires
        0 <= k < n <= calls.len(),
        forall|i: int| 0 <= i < k ==> #[trigger] calls[i].0 != calls[k].0,
    ensures
        pins_after(calls.take(n)).contains_key(calls[k].0),
        pins_after(calls.take(n))[calls[k].0] == calls[k].1,
    decreases n,
{
    let s = calls[k].0;
    let t = calls.take(n);
    assert(t.drop_last() =~= calls.take(n - 1));
    if n == k + 1 {
        lemma_pins_domain(calls.take(k), s);
        if pins_after(calls.take(k)).contains_key(s) {
            let i = choose|i: int| 0 <= i < calls.take(k).len() && #[trigger] calls.take(k)[i].0 == s;
            assert(calls[i].0 == s);
        }
    } else {
        lemma_first_pin_kept(calls, k, n - 1);
    }
}

/// Resolution `j` moves the pins from those after the first `j`
/// resolutions to those after `j + 1`. With `TokenizerPins::new` starting
/// at no pins and `resolve_for_session` moving `pin_map()` by
/// `pinned_with` and returning `pinned_with(..)[session]`, a run of
/// `resolve_for_session` calls follows `pins_after` and returns
/// `resolved_tokenizer` at each call.
pub proof fn lemma_resolution_follows_calls(calls: Seq<(Seq<char>, TokenizerFamily)>, j: int)
    requires
        0 <= j < calls.len(),
    ensures
        pins_after(calls.take(j + 1)) == pinned_with(pins_after(calls.take(j)), calls[j].0, calls[j].1),
{
    assert(calls.take(j + 1).drop_last() =~= calls.take(j));
    assert(calls.take(j + 1).last() == calls[j]);
}

/// A session's first resolution pins its tokenizer: every later
/// resolution of that session gives the same tokenizer, whatever the
/// settings name then and whatever other sessions resolve in between.
pub proof fn lemma_first_resolution_pins_tokenizer(
    calls: Seq<(Seq<char>, TokenizerFamily)>,
    k: int,
    j: int,
)
    requires
        0 <= k < j < calls.len(),
        calls[j].0 == calls[k].0,
        forall|i: int| 0 <= i < k ==> #[trigger] calls[i].0 != calls[k].0,
    ensures
        resolved_tokenizer(calls, j) == calls[k].1,
        resolved_tokenizer(calls, k) == calls[k].1,
{
    lemma_first_pin_kept(calls, k, j);
    lemma_pins_domain(calls.take(k), calls[k].0);
    if pins_after(calls.take(k)).contains_key(calls[k].0) {
        let i = choose|i: int| 0 <= i < calls.take(k).len() && #[trigger] calls.take(k)[i].0 == calls[k].0;
        assert(calls[i].0 == calls[k].0);
    }
}

proof fn lemma_pin_absent(entries: Seq<(String, TokenizerFamily)>, session: Seq<char>)
    requires
        pin_in(entries, session) is None,
    ensures
        forall|j: int| 0 <= j < entries.len() ==> #[trigger] entries[j].0@ != session,
    decreases entries.len(),
{
    if entries.len() > 0 {
        lemma_pin_absent(entries.drop_first(), session);
        assert forall|j: int| 0 <= j < entries.len() implies #[trigger] entries[j].0@ != session by {
            if j > 0 {
                assert(entries[j] == entries.drop_first()[j - 1]);
            }
        }
    }
}

proof fn lemma_pin_in_push(
    entries: Seq<(String, TokenizerFamily)>,
    e: (String, TokenizerFamily),
    s: Seq<char>,
)
    ensures
        pin_in(entries.push(e), s) == match pin_in(entries, s) {
            Some(t) => Some(t),
            None => if e.0@ == s {
                Some(e.1)
            } else {
                None
            },
        },
    decreases entries.len(),
{
    if entries.len() > 0 {
        assert(entries.push(e).drop_first() =~= entries.drop_first().push(e));
        lemma_pin_in_push(entries.drop_first(), e, s);
    } else {
        assert(entries.push(e).drop_first() =~= entries);
    }
}

} // verus!
