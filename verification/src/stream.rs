//! The streamed reply of an LLM: server-sent-event framing of the response
//! text into `data:` payloads, and the accumulation of the parsed deltas
//! into the reply's content, thinking, tool calls and finish reason.
use vstd::prelude::*;

use crate::loop_control::texts;
use crate::text::{char_is_whitespace, has_prefix, is_white_space, push_char, text_eq};

verus! {

// ---------------------------------------------------------------------------
// Text helpers
// ---------------------------------------------------------------------------

/// `s` without its leading white space.
pub open spec fn trim_start(s: Seq<char>) -> Seq<char>
    decreases s.len(),
{
    if s.len() > 0 && is_white_space(s[0]) {
        trim_start(s.drop_first())
    } else {
        s
    }
}

/// `s` without its trailing white space.
pub open spec fn trim_end(s: Seq<char>) -> Seq<char>
    decreases s.len(),
{
    if s.len() > 0 && is_white_space(s.last()) {
        trim_end(s.drop_last())
    } else {
        s
    }
}

/// `s` without leading and trailing white space (what `str::trim` gives).
pub open spec fn trimmed(s: Seq<char>) -> Seq<char> {
    trim_end(trim_start(s))
}

/// The characters `v[lo..hi)` as a string.
fn string_of(v: &Vec<char>, lo: usize, hi: usize) -> (r: String)
    requires
        lo <= hi <= v.len(),
    ensures
        r@ == v@.subrange(lo as int, hi as int),
{
    let mut out = String::new();
    let mut i: usize = lo;
    while i < hi
        invariant
            lo <= i <= hi <= v.len(),
            out@ == v@.subrange(lo as int, i as int),
        decreases hi - i,
    {
        push_char(&mut out, v[i]);
        assert(out@ =~= v@.subrange(lo as int, i + 1));
        i = i + 1;
    }
    out
}

/// The bounds of `v[lo..hi)` with white space removed at both ends.
fn trim_bounds(v: &Vec<char>, lo: usize, hi: usize) -> (r: (usize, usize))
    requires
        lo <= hi <= v.len(),
    ensures
        lo <= r.0 <= r.1 <= hi,
        v@.subrange(r.0 as int, r.1 as int) == trimmed(v@.subrange(lo as int, hi as int)),
{
    let mut a: usize = lo;
    while a < hi && char_is_whitespace(v[a])
        invariant
            lo <= a <= hi <= v.len(),
            trim_start(v@.subrange(lo as int, hi as int)) == trim_start(
                v@.subrange(a as int, hi as int),
            ),
        decreases hi - a,
    {
        assert(v@.subrange(a as int, hi as int).drop_first() =~= v@.subrange(a + 1, hi as int));
        a = a + 1;
    }
    let mut e: usize = hi;
    while e > a && char_is_whitespace(v[e - 1])
        invariant
            lo <= a <= e <= hi <= v.len(),
            trim_end(v@.subrange(a as int, hi as int)) == trim_end(v@.subrange(a as int, e as int)),
        decreases e - a,
    {
        assert(v@.subrange(a as int, e as int).drop_last() =~= v@.subrange(a as int, e - 1));
        e = e - 1;
    }
    (a, e)
}

/// `s` without leading and trailing white space (what `str::trim` gives).
pub fn trimmed_text(s: &str) -> (r: String)
    ensures
        r@ == trimmed(s@),
{
    let v = crate::text::chars_of(s);
    assert(v@.subrange(0, v.len() as int) =~= s@);
    let (a, e) = trim_bounds(&v, 0, v.len());
    string_of(&v, a, e)
}

// ---------------------------------------------------------------------------
// Server-sent-event framing
// ---------------------------------------------------------------------------

/// The first blank-line separator (`"\n\n"`) at or after `from`.
pub open spec fn first_sep_from(s: Seq<char>, from: int) -> Option<int>
    decreases s.len() - from,
{
    if from < 0 || from + 1 >= s.len() {
        None
    } else if s[from] == '\n' && s[from + 1] == '\n' {
        Some(from)
    } else {
        first_sep_from(s, from + 1)
    }
}

/// The first line break at or after `from`.
pub open spec fn first_newline_from(s: Seq<char>, from: int) -> Option<int>
    decreases s.len() - from,
{
    if from < 0 || from >= s.len() {
        None
    } else if s[from] == '\n' {
        Some(from)
    } else {
        first_newline_from(s, from + 1)
    }
}

/// The event blocks of `s` from `from` on, each ended by a blank line, and
/// the text after the last one, which waits for more input.
pub open spec fn blocks_from(s: Seq<char>, from: int) -> (Seq<Seq<char>>, Seq<char>)
    decreases s.len() - from,
{
    if from < 0 || from > s.len() {
        (Seq::empty(), Seq::empty())
    } else {
        match first_sep_from(s, from) {
            Some(p) => if from <= p && p + 2 <= s.len() {
                let rest = blocks_from(s, p + 2);
                (seq![s.subrange(from, p)] + rest.0, rest.1)
            } else {
                (Seq::empty(), s.subrange(from, s.len() as int))
            },
            None => (Seq::empty(), s.subrange(from, s.len() as int)),
        }
    }
}

/// The payload of one line of an event: the trimmed text after `data:`,
/// where the trimmed line starts with it.
pub open spec fn line_payload(line: Seq<char>) -> Option<Seq<char>> {
    let t = trimmed(line);
    if has_prefix(t, "data:"@) {
        Some(trimmed(t.subrange(5, t.len() as int)))
    } else {
        None
    }
}

/// The payload of a line as a sequence of none or one payloads.
pub open spec fn payload_seq(line: Seq<char>) -> Seq<Seq<char>> {
    match line_payload(line) {
        Some(p) => seq![p],
        None => Seq::empty(),
    }
}

/// The payloads of the lines of `block` from `from` on, in order; lines
/// end at line breaks.
pub open spec fn payloads_from(block: Seq<char>, from: int) -> Seq<Seq<char>>
    decreases block.len() - from,
{
    if from < 0 || from > block.len() {
        Seq::empty()
    } else {
        match first_newline_from(block, from) {
            Some(q) => if from <= q < block.len() {
                payload_seq(block.subrange(from, q)) + payloads_from(block, q + 1)
            } else {
                Seq::empty()
            },
            None => payload_seq(block.subrange(from, block.len() as int)),
        }
    }
}

/// The `data:` payloads of one event block, line by line.
pub open spec fn block_payloads(block: Seq<char>) -> Seq<Seq<char>> {
    payloads_from(block, 0)
}

/// The payloads of a sequence of event blocks, block after block.
pub open spec fn all_payloads(blocks: Seq<Seq<char>>) -> Seq<Seq<char>>
    decreases blocks.len(),
{
    if blocks.len() == 0 {
        Seq::empty()
    } else {
        block_payloads(blocks[0]) + all_payloads(blocks.drop_first())
    }
}

proof fn lemma_all_payloads_append(x: Seq<Seq<char>>, y: Seq<Seq<char>>)
    ensures
        all_payloads(x + y) == all_payloads(x) + all_payloads(y),
    decreases x.len(),
{
    if x.len() == 0 {
        assert(x + y =~= y);
        assert(all_payloads(x) + all_payloads(y) =~= all_payloads(y));
    } else {
        assert((x + y).drop_first() =~= x.drop_first() + y);
        assert((x + y)[0] == x[0]);
        lemma_all_payloads_append(x.drop_first(), y);
        assert(all_payloads(x + y) =~= all_payloads(x) + all_payloads(y));
    }
}

/// Looking for a separator in a suffix is looking in the whole text from
/// where the suffix starts.
proof fn lemma_first_sep_shift(s: Seq<char>, from: int, k: int)
    requires
        0 <= from <= s.len(),
        0 <= k,
    ensures
        first_sep_from(s, from + k) == (match first_sep_from(s.subrange(from, s.len() as int), k) {
            Some(q) => Some(q + from),
            None => None,
        }),
    decreases s.len() - from - k,
{
    let t = s.subrange(from, s.len() as int);
    if from + k + 1 >= s.len() {
    } else {
        assert(t[k] == s[from + k] && t[k + 1] == s[from + k + 1]);
        if !(s[from + k] == '\n' && s[from + k + 1] == '\n') {
            lemma_first_sep_shift(s, from, k + 1);
        }
    }
}

/// Framing a suffix is framing the whole text from where the suffix starts.
proof fn lemma_blocks_shift(s: Seq<char>, from: int, k: int)
    requires
        0 <= from <= s.len(),
        0 <= k <= s.len() - from,
    ensures
        blocks_from(s, from + k) == blocks_from(s.subrange(from, s.len() as int), k),
    decreases s.len() - from - k,
{
    let t = s.subrange(from, s.len() as int);
    lemma_first_sep_shift(s, from, k);
    match first_sep_from(t, k) {
        Some(q) => {
            if k <= q && q + 2 <= t.len() {
                lemma_blocks_shift(s, from, q + 2);
                assert(s.subrange(from + k, q + from) =~= t.subrange(k, q));
            } else {
                assert(s.subrange(from + k, s.len() as int) =~= t.subrange(k, t.len() as int));
            }
        },
        None => {
            assert(s.subrange(from + k, s.len() as int) =~= t.subrange(k, t.len() as int));
        },
    }
}

proof fn lemma_first_sep_bounds(s: Seq<char>, from: int)
    ensures
        first_sep_from(s, from) matches Some(p) ==> from <= p && p + 2 <= s.len(),
    decreases s.len() - from,
{
    if !(from < 0 || from + 1 >= s.len()) && !(s[from] == '\n' && s[from + 1] == '\n') {
        lemma_first_sep_bounds(s, from + 1);
    }
}

/// A separator found in `t` is found at the same place in `t + u`.
proof fn lemma_first_sep_extend(t: Seq<char>, u: Seq<char>, from: int)
    requires
        0 <= from,
        first_sep_from(t, from) is Some,
    ensures
        first_sep_from(t + u, from) == first_sep_from(t, from),
    decreases t.len() - from,
{
    assert((t + u)[from] == t[from] && (t + u)[from + 1] == t[from + 1]);
    if !(t[from] == '\n' && t[from + 1] == '\n') {
        lemma_first_sep_extend(t, u, from + 1);
    }
}

/// Framing `t + u` from `from`: the blocks of `t`, then the blocks of what
/// `t` left waiting followed by `u`.
proof fn lemma_blocks_concat(t: Seq<char>, u: Seq<char>, from: int)
    requires
        0 <= from <= t.len(),
    ensures
        ({
            let (b1, r1) = blocks_from(t, from);
            let (b2, r2) = blocks_from(r1 + u, 0);
            blocks_from(t + u, from) == (b1 + b2, r2)
        }),
    decreases t.len() - from,
{
    let (b1, r1) = blocks_from(t, from);
    match first_sep_from(t, from) {
        Some(p) => {
            lemma_first_sep_extend(t, u, from);
            lemma_first_sep_bounds(t, from);
            lemma_blocks_concat(t, u, p + 2);
            assert((t + u).subrange(from, p) =~= t.subrange(from, p));
            let rest = blocks_from(t, p + 2);
            assert(b1 == seq![t.subrange(from, p)] + rest.0);
            assert(r1 == rest.1);
            let (b2, r2) = blocks_from(rest.1 + u, 0);
            let whole = blocks_from(t + u, p + 2);
            assert(whole.0 == rest.0 + b2 && whole.1 == r2);
            assert(blocks_from(t + u, from).0 == seq![t.subrange(from, p)] + whole.0);
            assert(blocks_from(t + u, from).1 == whole.1);
            assert(seq![t.subrange(from, p)] + rest.0 + b2 =~= seq![t.subrange(from, p)] + (
            rest.0 + b2));
        },
        None => {
            lemma_blocks_shift(t + u, from, 0);
            assert((t + u).subrange(from, (t + u).len() as int) =~= t.subrange(
                from,
                t.len() as int,
            ) + u);
            assert(b1 =~= Seq::<Seq<char>>::empty());
            let (b2, r2) = blocks_from(r1 + u, 0);
            assert(b1 + b2 =~= b2);
        },
    }
}

/// How the response text is cut into chunks does not change what the
/// decoder reads: feeding `a` and then `b` gives the payloads and the
/// waiting text that feeding `a + b` at once gives.
pub proof fn lemma_chunking_does_not_matter(pending: Seq<char>, a: Seq<char>, b: Seq<char>)
    ensures
        ({
            let (b1, r1) = blocks_from(pending + a, 0);
            let (b2, r2) = blocks_from(r1 + b, 0);
            let (ball, rall) = blocks_from(pending + (a + b), 0);
            &&& r2 == rall
            &&& all_payloads(b1) + all_payloads(b2) == all_payloads(ball)
        }),
{
    assert(pending + (a + b) =~= (pending + a) + b);
    lemma_blocks_concat(pending + a, b, 0);
    let (b1, r1) = blocks_from(pending + a, 0);
    let (b2, r2) = blocks_from(r1 + b, 0);
    lemma_all_payloads_append(b1, b2);
}

/// The first blank-line separator in `v` at or after `from`.
fn find_sep(v: &Vec<char>, from: usize) -> (r: Option<usize>)
    requires
        from <= v.len(),
    ensures
        match r {
            Some(p) => first_sep_from(v@, from as int) == Some(p as int) && from <= p && p + 2
                <= v.len(),
            None => first_sep_from(v@, from as int) is None,
        },
{
    let mut i: usize = from;
    while v.len() - i > 1
        invariant
            from <= i <= v.len(),
            first_sep_from(v@, from as int) == first_sep_from(v@, i as int),
        decreases v.len() - i,
    {
        if v[i] == '\n' && v[i + 1] == '\n' {
            return Some(i);
        }
        i = i + 1;
    }
    None
}

/// The first line break in `v` at or after `from`.
fn find_newline(v: &Vec<char>, from: usize) -> (r: Option<usize>)
    requires
        from <= v.len(),
    ensures
        match r {
            Some(q) => first_newline_from(v@, from as int) == Some(q as int) && from <= q < v.len(),
            None => first_newline_from(v@, from as int) is None,
        },
{
    let mut i: usize = from;
    while i < v.len()
        invariant
            from <= i <= v.len(),
            first_newline_from(v@, from as int) == first_newline_from(v@, i as int),
        decreases v.len() - i,
    {
        if v[i] == '\n' {
            return Some(i);
        }
        i = i + 1;
    }
    None
}

/// Whether `v[a..e)` begins with `data:`.
fn has_data_prefix(v: &Vec<char>, a: usize, e: usize) -> (r: bool)
    requires
        a <= e <= v.len(),
    ensures
        r == has_prefix(v@.subrange(a as int, e as int), "data:"@),
{
    proof {
        reveal_strlit("data:");
    }
    if e - a < 5 {
        return false;
    }
    let ghost t = v@.subrange(a as int, e as int);
    let r = v[a] == 'd' && v[a + 1] == 'a' && v[a + 2] == 't' && v[a + 3] == 'a' && v[a + 4] == ':';
    assert(t[0] == v@[a as int] && t[1] == v@[a + 1] && t[2] == v@[a + 2] && t[3] == v@[a + 3]
        && t[4] == v@[a + 4]);
    if r {
        assert(t.subrange(0, 5) =~= "data:"@);
    } else {
        assert(t.subrange(0, 5) != "data:"@ ) by {
            if t.subrange(0, 5) == "data:"@ {
                assert(t.subrange(0, 5)[0] == 'd');
                assert(t.subrange(0, 5)[1] == 'a');
                assert(t.subrange(0, 5)[2] == 't');
                assert(t.subrange(0, 5)[3] == 'a');
                assert(t.subrange(0, 5)[4] == ':');
            }
        }
    }
    r
}

/// The payload of the line `v[lo..hi)`, as none or one string.
fn line_payload_exec(v: &Vec<char>, lo: usize, hi: usize) -> (r: Option<String>)
    requires
        lo <= hi <= v.len(),
    ensures
        match r {
            Some(p) => line_payload(v@.subrange(lo as int, hi as int)) == Some(p@),
            None => line_payload(v@.subrange(lo as int, hi as int)) is None,
        },
{
    let (a, e) = trim_bounds(v, lo, hi);
    if has_data_prefix(v, a, e) {
        let ghost t = v@.subrange(a as int, e as int);
        proof {
            reveal_strlit("data:");
        }
        assert(t.subrange(5, t.len() as int) =~= v@.subrange(a + 5, e as int));
        let (pa, pe) = trim_bounds(v, a + 5, e);
        Some(string_of(v, pa, pe))
    } else {
        None
    }
}

/// The `data:` payloads of the event block `b`.
fn payloads_of_block(b: &Vec<char>) -> (r: Vec<String>)
    ensures
        texts(r@) == block_payloads(b@),
{
    let mut out: Vec<String> = Vec::new();
    let mut from: usize = 0;
    let mut done = false;
    while !done
        invariant
            from <= b.len(),
            !done ==> texts(out@) + payloads_from(b@, from as int) == block_payloads(b@),
            done ==> texts(out@) == block_payloads(b@),
        decreases b.len() - from + (if done { 0int } else { 1int }),
    {
        let ghost before = texts(out@);
        match find_newline(b, from) {
            Some(q) => {
                let p = line_payload_exec(b, from, q);
                if let Some(text) = p {
                    out.push(text);
                }
                assert(texts(out@) =~= before + payload_seq(b@.subrange(from as int, q as int)));
                from = q + 1;
            },
            None => {
                let p = line_payload_exec(b, from, b.len());
                if let Some(text) = p {
                    out.push(text);
                }
                assert(texts(out@) =~= before + payload_seq(b@.subrange(from as int, b.len() as int)));
                assert(payloads_from(b@, from as int) == payload_seq(b@.subrange(from as int, b.len() as int)));
                done = true;
            },
        }
    }
    out
}

/// Reads server-sent events out of streamed text: text that has not yet
/// been ended by a blank line waits in the decoder for the next chunk.
pub struct SseDecoder {
    pending: String,
}

impl SseDecoder {
    /// The text received but not yet framed into an event.
    pub closed spec fn pending_text(&self) -> Seq<char> {
        self.pending@
    }

    pub fn new() -> (r: Self)
        ensures
            r.pending_text() == Seq::<char>::empty(),
    {
        SseDecoder { pending: String::new() }
    }

    /// Adds a chunk of the response text; returns the `data:` payloads of
    /// the events it completes, in order, and keeps the rest.
    pub fn push(&mut self, chunk: &str) -> (payloads: Vec<String>)
        ensures
            ({
                let (blocks, rest) = blocks_from(old(self).pending_text() + chunk@, 0);
                &&& final(self).pending_text() == rest
                &&& texts(payloads@) == all_payloads(blocks)
            }),
    {
        let mut v = crate::text::chars_of(self.pending.as_str());
        let c = crate::text::chars_of(chunk);
        let ghost all = old(self).pending_text() + chunk@;
        let mut k: usize = 0;
        let ghost base = v@;
        while k < c.len()
            invariant
                k <= c.len(),
                v@ == base + c@.subrange(0, k as int),
            decreases c.len() - k,
        {
            v.push(c[k]);
            assert(v@ =~= base + c@.subrange(0, k + 1));
            k = k + 1;
        }
        assert(c@.subrange(0, k as int) =~= c@);
        assert(v@ =~= all);
        let mut out: Vec<String> = Vec::new();
        let mut start: usize = 0;
        let mut done = false;
        while !done
            invariant
                v@ == all,
                start <= v.len(),
                blocks_from(all, start as int).1 == blocks_from(all, 0).1,
                !done ==> texts(out@) + all_payloads(blocks_from(all, start as int).0) == all_payloads(blocks_from(all, 0).0),
                done ==> texts(out@) == all_payloads(blocks_from(all, 0).0),
                done ==> blocks_from(all, start as int).0.len() == 0,
            decreases v.len() - start + (if done { 0int } else { 1int }),
        {
            match find_sep(&v, start) {
                Some(p) => {
                    let ghost bs = blocks_from(all, start as int);
                    let ghost rest = blocks_from(all, p + 2);
                    assert(bs.0 == seq![all.subrange(start as int, p as int)] + rest.0);
                    assert(bs.0.drop_first() =~= rest.0);
                    let mut block: Vec<char> = Vec::new();
                    let mut j: usize = start;
                    while j < p
                        invariant
                            start <= j <= p <= v.len(),
                            block@ == v@.subrange(start as int, j as int),
                        decreases p - j,
                    {
                        block.push(v[j]);
                        assert(block@ =~= v@.subrange(start as int, j + 1));
                        j = j + 1;
                    }
                    let ps = payloads_of_block(&block);
                    let ghost before = texts(out@);
                    let mut m: usize = 0;
                    while m < ps.len()
                        invariant
                            m <= ps.len(),
                            texts(out@) == before + texts(ps@).subrange(0, m as int),
                        decreases ps.len() - m,
                    {
                        let item = ps[m].as_str().to_owned();
                        let ghost old_out = out@;
                        out.push(item);
                        assert(texts(out@) =~= texts(old_out).push(ps@[m as int]@));
                        assert(texts(ps@).subrange(0, m + 1) =~= texts(ps@).subrange(0, m as int).push(
                            ps@[m as int]@,
                        ));
                        assert(texts(out@) =~= before + texts(ps@).subrange(0, m + 1));
                        m = m + 1;
                    }
                    assert(texts(ps@).subrange(0, m as int) =~= texts(ps@));
                    assert(texts(out@) =~= before + block_payloads(bs.0[0]));
                    start = p + 2;
                },
                None => {
                    assert(blocks_from(all, start as int).0 =~= Seq::<Seq<char>>::empty());
                    assert(texts(out@) + all_payloads(Seq::<Seq<char>>::empty()) =~= texts(out@));
                    done = true;
                },
            }
        }
        self.pending = string_of(&v, start, v.len());
        out
    }
}

// ---------------------------------------------------------------------------
// Accumulating the reply
// ---------------------------------------------------------------------------

/// A piece of one tool call of the reply: `index` says which call.
#[derive(Debug, Clone)]
pub struct ToolCallDelta {
    pub index: usize,
    pub id: String,
    pub name: String,
    pub arguments_delta: String,
}

/// What one streamed chunk adds to the reply.
#[derive(Debug, Clone)]
pub struct StreamDelta {
    pub content_delta: String,
    pub thinking_delta: String,
    pub tool_call_deltas: Vec<ToolCallDelta>,
    pub finish_reason: Option<String>,
}

/// A tool call as accumulated so far.
#[derive(Debug, Clone)]
pub struct AccTool {
    pub id: String,
    pub name: String,
    pub arguments: String,
}

/// The reply as accumulated so far.
#[derive(Debug, Clone)]
pub struct StreamAccumulator {
    pub content: String,
    pub thinking: String,
    pub tool_calls: Vec<AccTool>,
    pub finish_reason: String,
}

/// A tool call of the reply, as text.
pub struct AccToolView {
    pub id: Seq<char>,
    pub name: Seq<char>,
    pub arguments: Seq<char>,
}

/// The reply so far, as text.
pub struct AccumulatorView {
    pub content: Seq<char>,
    pub thinking: Seq<char>,
    pub tool_calls: Seq<AccToolView>,
    pub finish_reason: Seq<char>,
}

impl View for AccTool {
    type V = AccToolView;

    open spec fn view(&self) -> AccToolView {
        AccToolView { id: self.id@, name: self.name@, arguments: self.arguments@ }
    }
}

impl View for StreamAccumulator {
    type V = AccumulatorView;

    open spec fn view(&self) -> AccumulatorView {
        AccumulatorView {
            content: self.content@,
            thinking: self.thinking@,
            tool_calls: self.tool_calls@.map_values(|t: AccTool| t@),
            finish_reason: self.finish_reason@,
        }
    }
}

/// A tool call with nothing received yet.
pub open spec fn empty_tool() -> AccToolView {
    AccToolView { id: Seq::empty(), name: Seq::empty(), arguments: Seq::empty() }
}

/// `tools` extended with empty tool calls to at least `n` entries.
pub open spec fn padded(tools: Seq<AccToolView>, n: int) -> Seq<AccToolView> {
    if tools.len() >= n {
        tools
    } else {
        tools + Seq::new((n - tools.len()) as nat, |i: int| empty_tool())
    }
}

/// A tool call after one delta: a non-empty id or name replaces the old
/// one, and the arguments text is extended.
pub open spec fn merged_tool(t: AccToolView, d: ToolCallDelta) -> AccToolView {
    AccToolView {
        id: if d.id@.len() > 0 {
            d.id@
        } else {
            t.id
        },
        name: if d.name@.len() > 0 {
            d.name@
        } else {
            t.name
        },
        arguments: t.arguments + d.arguments_delta@,
    }
}

/// The tool calls after one delta: the list is extended to reach the
/// delta's index, and the call there merges the delta.
pub open spec fn with_tool_delta(tools: Seq<AccToolView>, d: ToolCallDelta) -> Seq<AccToolView> {
    let p = padded(tools, d.index + 1);
    p.update(d.index as int, merged_tool(p[d.index as int], d))
}

/// The tool calls after the deltas `ds`, applied in order.
pub open spec fn with_tool_deltas(tools: Seq<AccToolView>, ds: Seq<ToolCallDelta>) -> Seq<
    AccToolView,
>
    decreases ds.len(),
{
    if ds.len() == 0 {
        tools
    } else {
        with_tool_delta(with_tool_deltas(tools, ds.drop_last()), ds.last())
    }
}

/// The reply after one chunk's delta: content and thinking extended, tool
/// calls updated, and the finish reason replaced when the delta has one.
pub open spec fn applied(acc: AccumulatorView, d: StreamDelta) -> AccumulatorView {
    AccumulatorView {
        content: acc.content + d.content_delta@,
        thinking: acc.thinking + d.thinking_delta@,
        tool_calls: with_tool_deltas(acc.tool_calls, d.tool_call_deltas@),
        finish_reason: match d.finish_reason {
            Some(r) => r@,
            None => acc.finish_reason,
        },
    }
}

/// Indices that leave room to extend the list of tool calls up to them.
pub open spec fn indices_fit(d: StreamDelta) -> bool {
    forall|k: int| 0 <= k < d.tool_call_deltas@.len() ==> #[trigger] d.tool_call_deltas@[k].index
        < usize::MAX
}

fn empty_acc_tool() -> (r: AccTool)
    ensures
        r@ == empty_tool(),
{
    AccTool { id: String::new(), name: String::new(), arguments: String::new() }
}

impl StreamAccumulator {
    /// An empty reply.
    pub fn new() -> (r: Self)
        ensures
            r@ == (AccumulatorView {
                content: Seq::empty(),
                thinking: Seq::empty(),
                tool_calls: Seq::empty(),
                finish_reason: Seq::empty(),
            }),
    {
        let r = StreamAccumulator {
            content: String::new(),
            thinking: String::new(),
            tool_calls: Vec::new(),
            finish_reason: String::new(),
        };
        assert(r@.tool_calls =~= Seq::<AccToolView>::empty());
        r
    }

    /// Applies one tool-call delta.
    fn apply_tool_delta(&mut self, d: &ToolCallDelta)
        requires
            d.index < usize::MAX,
        ensures
            final(self)@ == (AccumulatorView {
                tool_calls: with_tool_delta(old(self)@.tool_calls, *d),
                ..old(self)@
            }),
    {
        let idx = d.index;
        let ghost start = old(self)@.tool_calls;
        while self.tool_calls.len() <= idx
            invariant
                idx < usize::MAX,
                self@.content == old(self)@.content,
                self@.thinking == old(self)@.thinking,
                self@.finish_reason == old(self)@.finish_reason,
                start == old(self)@.tool_calls,
                start.len() <= self@.tool_calls.len(),
                self@.tool_calls.len() <= idx + 1 || self@.tool_calls.len() == start.len(),
                self@.tool_calls =~= padded(start, self@.tool_calls.len() as int),
            decreases idx + 1 - self.tool_calls.len(),
        {
            let ghost before = self@.tool_calls;
            self.tool_calls.push(empty_acc_tool());
            assert(self@.tool_calls =~= before.push(empty_tool()));
        }
        let ghost p = self@.tool_calls;
        assert(p =~= padded(start, idx + 1));
        let old_tool = &self.tool_calls[idx];
        let id = if d.id.as_str().is_empty() {
            old_tool.id.as_str().to_owned()
        } else {
            d.id.as_str().to_owned()
        };
        let name = if d.name.as_str().is_empty() {
            old_tool.name.as_str().to_owned()
        } else {
            d.name.as_str().to_owned()
        };
        let mut arguments = old_tool.arguments.as_str().to_owned();
        arguments.append(d.arguments_delta.as_str());
        let merged = AccTool { id, name, arguments };
        assert(merged@ == merged_tool(p[idx as int], *d));
        self.tool_calls.set(idx, merged);
        assert(self@.tool_calls =~= p.update(idx as int, merged_tool(p[idx as int], *d)));
    }

    /// Adds one chunk's delta to the reply.
    pub fn apply(&mut self, delta: &StreamDelta)
        requires
            indices_fit(*delta),
        ensures
            final(self)@ == applied(old(self)@, *delta),
    {
        self.content.append(delta.content_delta.as_str());
        self.thinking.append(delta.thinking_delta.as_str());
        let ghost tools0 = old(self)@.tool_calls;
        let mut k: usize = 0;
        while k < delta.tool_call_deltas.len()
            invariant
                indices_fit(*delta),
                k <= delta.tool_call_deltas@.len(),
                self@.content == old(self)@.content + delta.content_delta@,
                self@.thinking == old(self)@.thinking + delta.thinking_delta@,
                self@.finish_reason == old(self)@.finish_reason,
                self@.tool_calls == with_tool_deltas(tools0, delta.tool_call_deltas@.subrange(0, k as int)),
            decreases delta.tool_call_deltas@.len() - k,
        {
            let ghost ds = delta.tool_call_deltas@.subrange(0, k + 1);
            assert(ds.drop_last() =~= delta.tool_call_deltas@.subrange(0, k as int));
            assert(ds.last() == delta.tool_call_deltas@[k as int]);
            self.apply_tool_delta(&delta.tool_call_deltas[k]);
            k = k + 1;
        }
        assert(delta.tool_call_deltas@.subrange(0, k as int) =~= delta.tool_call_deltas@);
        match &delta.finish_reason {
            Some(reason) => {
                self.finish_reason = reason.as_str().to_owned();
            },
            None => {},
        }
    }
}

/// The id each tool call of the reply is recorded under: its own id, or,
/// where the reply left it empty, the fresh id given for it.
pub fn resolved_call_ids(acc: &StreamAccumulator, fresh: &Vec<String>) -> (r: Vec<String>)
    requires
        fresh.len() == acc.tool_calls.len(),
    ensures
        r.len() == acc.tool_calls.len(),
        forall|i: int|
            0 <= i < r.len() ==> #[trigger] r@[i]@ == (if acc.tool_calls@[i].id@.len() == 0 {
                fresh@[i]@
            } else {
                acc.tool_calls@[i].id@
            }),
{
    let mut out: Vec<String> = Vec::new();
    let mut i: usize = 0;
    while i < acc.tool_calls.len()
        invariant
            fresh.len() == acc.tool_calls.len(),
            i <= acc.tool_calls.len(),
            out.len() == i,
            forall|j: int|
                0 <= j < i ==> #[trigger] out@[j]@ == (if acc.tool_calls@[j].id@.len() == 0 {
                    fresh@[j]@
                } else {
                    acc.tool_calls@[j].id@
                }),
        decreases acc.tool_calls.len() - i,
    {
        let id = if acc.tool_calls[i].id.as_str().is_empty() {
            fresh[i].as_str().to_owned()
        } else {
            acc.tool_calls[i].id.as_str().to_owned()
        };
        out.push(id);
        i = i + 1;
    }
    out
}

/// The payload that ends a stream.
pub open spec fn is_done_payload(data: Seq<char>) -> bool {
    data == "[DONE]"@
}

/// Whether a payload is the `[DONE]` marker that ends the stream.
pub fn is_done_marker(data: &str) -> (r: bool)
    ensures
        r == is_done_payload(data@),
{
    text_eq(data, "[DONE]")
}


} // verus!
