//! Answering a chat request: what of the context is reused, what is streamed
//! when, and what is remembered.

use vstd::prelude::*;
use vstd::string::*;
use vstd::utf8::valid_utf8;

use crate::search::{find_bytes, find_from, find_from_finds, find_from_is, stands_at};
use crate::text::{decimal, push_decimal};

verus! {

/// What a request asks for, with the defaults filled in.
#[derive(Debug, Clone, Copy, PartialEq, Eq, Structural)]
pub struct ChatParams {
    pub max_tokens: usize,
    pub seed: u64,
    pub streaming: bool,
}

/// What a request asks for, with its defaults.
pub open spec fn params_of(
    max_tokens: Option<u64>,
    seed: Option<u64>,
    stream: Option<bool>,
) -> ChatParams {
    ChatParams {
        max_tokens: match max_tokens {
            Some(n) => n as usize,
            None => 1024,
        },
        seed: match seed {
            Some(n) => n,
            None => 42,
        },
        streaming: stream == Some(true),
    }
}

/// Fills in the defaults of a request.
pub fn chat_params(max_tokens: Option<u64>, seed: Option<u64>, stream: Option<bool>) -> (p:
    ChatParams)
    ensures
        p == params_of(max_tokens, seed, stream),
        max_tokens matches Some(n) ==> p.max_tokens == n as usize,
        max_tokens is None ==> p.max_tokens == 1024,
        seed matches Some(n) ==> p.seed == n,
        seed is None ==> p.seed == 42,
        p.streaming <==> stream == Some(true),
{
    ChatParams {
        max_tokens: match max_tokens {
            Some(n) => n as usize,
            None => 1024,
        },
        seed: seed.unwrap_or(42),
        streaming: stream.unwrap_or(false),
    }
}

/// Whether a prompt leaves room in the context for an answer.
pub fn prompt_fits(n: usize, ctx: u32) -> (r: bool)
    ensures
        r == (n + 2 < ctx),
{
    ctx >= 3 && n <= (ctx - 3) as usize
}

/// The message for a prompt that does not fit.
pub fn too_long(n: usize, ctx: u32) -> (s: String)
    ensures
        s@ == "prompt exceeds context ("@ + decimal(n as nat) + " tokens, ctx "@ + decimal(
            ctx as nat,
        ) + ")"@,
{
    let mut s: String = String::from_str("prompt exceeds context (");
    push_decimal(&mut s, n as u64);
    s.append(" tokens, ctx ");
    push_decimal(&mut s, ctx as u64);
    s.append(")");
    s
}

/// How many tokens two sequences begin with in common, from `i` on.
pub open spec fn common_from(a: Seq<u32>, b: Seq<u32>, i: int) -> int
    decreases a.len() - i,
{
    if 0 <= i < a.len() && i < b.len() && a[i] == b[i] {
        1 + common_from(a, b, i + 1)
    } else {
        0
    }
}

/// How much of the context the engine already holds.
#[derive(Debug, Clone, Copy, PartialEq, Eq, Structural)]
pub enum Reuse {
    /// This many tokens of the prompt.
    Keep(usize),
    /// What a checkpoint at or before this position holds, if there is one.
    Rewind(usize),
}

/// What can be reused: the common beginning, but never the whole prompt, since
/// its last token has to be forwarded for logits. A recurrent state can only
/// be extended, so where the engine is past the common beginning, or at the
/// end of the prompt, it has to be rewound.
pub open spec fn reuse(hist: Seq<u32>, prompt: Seq<u32>, enabled: bool, recurrent: bool) -> Reuse {
    let common = common_from(hist, prompt, 0);
    if !enabled {
        Reuse::Keep(0)
    } else if recurrent && (common < hist.len() || common == prompt.len()) {
        Reuse::Rewind(
            (if common < prompt.len() {
                common
            } else {
                prompt.len() - 1
            }) as usize,
        )
    } else if common == prompt.len() {
        Reuse::Keep((common - 1) as usize)
    } else {
        Reuse::Keep(common as usize)
    }
}

proof fn common_is_common(a: Seq<u32>, b: Seq<u32>, i: int)
    requires
        0 <= i,
    ensures
        ({
            let n = i + common_from(a, b, i);
            &&& i <= n
            &&& i <= a.len() ==> n <= a.len()
            &&& i <= b.len() ==> n <= b.len()
            &&& forall|k: int| i <= k < n ==> #[trigger] a[k] == b[k]
            &&& n < a.len() && n < b.len() ==> a[n] != b[n]
        }),
    decreases a.len() - i,
{
    if i < a.len() && i < b.len() && a[i] == b[i] {
        common_is_common(a, b, i + 1);
    }
}

/// What is kept is a common beginning, and leaves something to forward.
pub proof fn reuse_is_common(hist: Seq<u32>, prompt: Seq<u32>, enabled: bool, recurrent: bool)
    requires
        prompt.len() > 0,
        prompt.len() <= usize::MAX,
    ensures
        match reuse(hist, prompt, enabled, recurrent) {
            Reuse::Keep(n) => {
                &&& n < prompt.len()
                &&& n <= hist.len()
                &&& hist.take(n as int) == prompt.take(n as int)
                &&& recurrent && n > 0 ==> n == hist.len()
            },
            Reuse::Rewind(n) => {
                &&& recurrent
                &&& n < prompt.len()
                &&& n <= hist.len()
                &&& hist.take(n as int) == prompt.take(n as int)
            },
        },
{
    common_is_common(hist, prompt, 0);
    match reuse(hist, prompt, enabled, recurrent) {
        Reuse::Keep(n) => {
            assert(hist.take(n as int) =~= prompt.take(n as int));
        },
        Reuse::Rewind(n) => {
            assert(hist.take(n as int) =~= prompt.take(n as int));
        },
    }
}

/// Decides what of the context can be reused.
pub fn plan_reuse(hist: &[u32], prompt: &[u32], enabled: bool, recurrent: bool) -> (r: Reuse)
    requires
        prompt@.len() > 0,
    ensures
        r == reuse(hist@, prompt@, enabled, recurrent),
{
    if !enabled {
        return Reuse::Keep(0);
    }
    let mut n: usize = 0;
    while n < hist.len() && n < prompt.len() && hist[n] == prompt[n]
        invariant
            n <= hist@.len(),
            n <= prompt@.len(),
            common_from(hist@, prompt@, 0) == n + common_from(hist@, prompt@, n as int),
        decreases hist@.len() - n,
    {
        n += 1;
    }
    if recurrent && (n < hist.len() || n == prompt.len()) {
        Reuse::Rewind(
            if n < prompt.len() {
                n
            } else {
                prompt.len() - 1
            },
        )
    } else if n == prompt.len() {
        Reuse::Keep(n - 1)
    } else {
        Reuse::Keep(n)
    }
}

/// Whether the engine's context may be reused at all: not while drafts are
/// written into it, and not when switched off.
pub fn reuse_enabled(mtp_depth: u32, ngram_set: bool, disabled: bool) -> (r: bool)
    ensures
        r == (mtp_depth == 0 && !ngram_set && !disabled),
{
    mtp_depth == 0 && !ngram_set && !disabled
}

/// The context after a request: the prompt, what was emitted, and the token
/// that ended it.
pub fn remember(prompt: &[u32], emitted: &[u32], stop: Option<u32>) -> (hist: Vec<u32>)
    ensures
        hist@ == prompt@ + emitted@ + crate::chat::optional_id(stop),
{
    let mut hist: Vec<u32> = Vec::new();
    let mut i: usize = 0;
    while i < prompt.len()
        invariant
            i <= prompt@.len(),
            hist@ == prompt@.take(i as int),
        decreases prompt@.len() - i,
    {
        hist.push(prompt[i]);
        i += 1;
        assert(hist@ =~= prompt@.take(i as int));
    }
    let mut k: usize = 0;
    assert(hist@ =~= prompt@ + emitted@.take(0));
    while k < emitted.len()
        invariant
            k <= emitted@.len(),
            hist@ == prompt@ + emitted@.take(k as int),
        decreases emitted@.len() - k,
    {
        hist.push(emitted[k]);
        k += 1;
        assert(hist@ =~= prompt@ + emitted@.take(k as int));
    }
    if let Some(t) = stop {
        hist.push(t);
    }
    assert(hist@ =~= prompt@ + emitted@ + crate::chat::optional_id(stop));
    hist
}

/// The longest beginning of `b`, of at most `k` bytes, that is valid UTF-8.
pub open spec fn valid_len(b: Seq<u8>, k: int) -> int
    decreases k,
{
    if k <= 0 {
        0
    } else if valid_utf8(b.take(k)) {
        k
    } else {
        valid_len(b, k - 1)
    }
}

/// `std::str::from_utf8`: the length of the text when the bytes are valid
/// UTF-8, else what its error's `valid_up_to` gives, the largest index up to
/// which they are.
#[verifier::external_body]
fn valid_up_to(b: &[u8]) -> (n: usize)
    ensures
        n == valid_len(b@, b@.len() as int),
        n <= b@.len(),
{
    match std::str::from_utf8(b) {
        Ok(s) => s.len(),
        Err(e) => e.valid_up_to(),
    }
}

/// The bytes that begin a tool call.
pub open spec fn mark() -> Seq<u8> {
    seq![0x3c, 0x74, 0x6f, 0x6f, 0x6c, 0x5f, 0x63, 0x61, 0x6c, 0x6c, 0x3e]
}

/// An answer being streamed.
pub struct Streamer {
    /// What was decoded and not yet sent.
    pub bytes: Vec<u8>,
    /// A tool call has begun: nothing is sent any more.
    pub tool_phase: bool,
}

/// The streamer as mathematics.
pub ghost struct Stream {
    pub bytes: Seq<u8>,
    pub tool_phase: bool,
}

impl View for Streamer {
    type V = Stream;

    open spec fn view(&self) -> Stream {
        Stream { bytes: self.bytes@, tool_phase: self.tool_phase }
    }
}

impl Stream {
    /// The streamer with more decoded bytes, cut off where a call begins.
    pub open spec fn with_bytes(self, more: Seq<u8>) -> Stream {
        if self.tool_phase {
            self
        } else {
            let all = self.bytes + more;
            match find_from(all, mark(), 0) {
                Some(p) => Stream { bytes: all.take(p), tool_phase: true },
                None => Stream { bytes: all, tool_phase: false },
            }
        }
    }

    /// How many bytes can go: none behind the last whole character, and not the
    /// last ten while they could be the beginning of a call. The ten are counted
    /// in bytes, so what goes may end inside a character, the rest of which then
    /// goes with the next piece.
    pub open spec fn ready(self) -> int {
        let n = self.bytes.len() as int;
        let valid = valid_len(self.bytes, n);
        let held = if n >= 10 {
            n - 10
        } else {
            0
        };
        if !self.tool_phase && held < valid {
            held
        } else {
            valid
        }
    }
}

/// The bytes before the first call.
pub open spec fn before_mark(all: Seq<u8>) -> Seq<u8> {
    match find_from(all, mark(), 0) {
        Some(p) => all.take(p),
        None => all,
    }
}

/// Whether `sent` and what is held back are what was decoded before the first
/// call, and enough is held back to notice one.
pub open spec fn in_step(s: Stream, sent: Seq<u8>, all: Seq<u8>) -> bool {
    if s.tool_phase {
        &&& find_from(all, mark(), 0) is Some
        &&& sent.len() <= before_mark(all).len()
        &&& sent == before_mark(all).take(sent.len() as int)
    } else {
        &&& find_from(all, mark(), 0) is None
        &&& sent + s.bytes == all
        &&& sent.len() == 0 || s.bytes.len() >= 10
    }
}

proof fn valid_len_bounds(b: Seq<u8>, k: int)
    requires
        0 <= k,
    ensures
        0 <= valid_len(b, k) <= k,
    decreases k,
{
    if k > 0 {
        valid_len_bounds(b, k - 1);
    }
}

proof fn mark_lies_in_rest(sent: Seq<u8>, held: Seq<u8>, more: Seq<u8>)
    requires
        find_from(sent + held, mark(), 0) is None,
        sent.len() == 0 || held.len() >= 10,
    ensures
        match find_from(held + more, mark(), 0) {
            Some(p) => find_from(sent + held + more, mark(), 0) == Some(sent.len() + p),
            None => find_from(sent + held + more, mark(), 0) is None,
        },
{
    let all = sent + held + more;
    let rest = held + more;
    let n = sent.len() as int;
    find_from_finds(sent + held, mark(), 0);
    find_from_finds(rest, mark(), 0);
    find_from_finds(all, mark(), 0);
    assert forall|j: int| 0 <= j < n implies !#[trigger] stands_at(all, mark(), j) by {
        if stands_at(all, mark(), j) {
            assert(j + 11 <= n + held.len());
            assert((sent + held).subrange(j, j + 11) =~= all.subrange(j, j + 11));
            assert(stands_at(sent + held, mark(), j));
        }
    }
    assert forall|j: int| n <= j implies #[trigger] stands_at(all, mark(), j) == stands_at(
        rest,
        mark(),
        j - n,
    ) by {
        if j + 11 <= all.len() {
            assert(all.subrange(j, j + 11) =~= rest.subrange(j - n, j - n + 11));
        }
    }
    match find_from(rest, mark(), 0) {
        Some(p) => {
            assert(stands_at(all, mark(), n + p));
            assert forall|j: int| 0 <= j < n + p implies !#[trigger] stands_at(all, mark(), j) by {
                if j >= n {
                    assert(!stands_at(rest, mark(), j - n));
                }
            }
            find_from_is(all, mark(), 0, n + p);
        },
        None => {
            if let Some(k) = find_from(all, mark(), 0) {
                assert(stands_at(all, mark(), k));
                assert(k >= n);
                assert(stands_at(rest, mark(), k - n));
            }
        },
    }
}

proof fn mark_stays_first(all: Seq<u8>, more: Seq<u8>)
    requires
        find_from(all, mark(), 0) is Some,
    ensures
        find_from(all + more, mark(), 0) == find_from(all, mark(), 0),
{
    find_from_finds(all, mark(), 0);
    let p = find_from(all, mark(), 0)->0;
    let longer = all + more;
    assert(longer.subrange(p, p + 11) =~= all.subrange(p, p + 11));
    assert forall|j: int| 0 <= j < p implies !#[trigger] stands_at(longer, mark(), j) by {
        assert(longer.subrange(j, j + 11) =~= all.subrange(j, j + 11));
        assert(!stands_at(all, mark(), j));
    }
    find_from_is(longer, mark(), 0, p);
}

/// Streaming shows the text before the first call and not a byte more: however
/// the bytes arrive, what was sent is always a beginning of that text, and what
/// was not is held back.
pub proof fn stream_keeps_step(s: Stream, sent: Seq<u8>, all: Seq<u8>, more: Seq<u8>)
    requires
        in_step(s, sent, all),
    ensures
        ({
            let s2 = s.with_bytes(more);
            let n = s2.ready();
            let s3 = Stream { bytes: s2.bytes.skip(n), ..s2 };
            if s.tool_phase {
                in_step(s, sent, all + more)
            } else {
                &&& 0 <= n <= s2.bytes.len()
                &&& in_step(s3, sent + s2.bytes.take(n), all + more)
            }
        }),
{
    if s.tool_phase {
        mark_stays_first(all, more);
        find_from_finds(all, mark(), 0);
        let p = find_from(all, mark(), 0)->0;
        assert((all + more).take(p) =~= all.take(p));
    } else {
        let s2 = s.with_bytes(more);
        let n = s2.ready();
        valid_len_bounds(s2.bytes, s2.bytes.len() as int);
        mark_lies_in_rest(sent, s.bytes, more);
        let stream = sent + s.bytes + more;
        assert(all + more =~= stream);
        let rest = s.bytes + more;
        find_from_finds(rest, mark(), 0);
        match find_from(rest, mark(), 0) {
            Some(p) => {
                let shown = before_mark(all + more);
                assert(shown =~= sent + rest.take(p));
                let out = sent + s2.bytes.take(n);
                assert(out =~= shown.take(out.len() as int));
            },
            None => {
                assert(sent + s2.bytes.take(n) + s2.bytes.skip(n) =~= sent + s2.bytes);
                assert(sent + rest =~= stream);
            },
        }
    }
}

impl Streamer {
    /// Nothing decoded yet.
    pub fn new() -> (s: Streamer)
        ensures
            s@ == (Stream { bytes: Seq::empty(), tool_phase: false }),
            in_step(s@, Seq::empty(), Seq::empty()),
    {
        let s: Streamer = Streamer { bytes: Vec::new(), tool_phase: false };
        assert(s@.bytes =~= Seq::empty());
        assert(Seq::<u8>::empty() + s@.bytes =~= Seq::empty());
        s
    }

    /// Takes the bytes of one more token and hands out those to send. When the
    /// client is gone nothing is handed out.
    pub fn push(&mut self, decoded: &[u8], gone: bool) -> (send: Vec<u8>)
        ensures
            ({
                let s = old(self)@.with_bytes(decoded@);
                let n = s.ready();
                if old(self).tool_phase {
                    final(self)@ == old(self)@ && send@.len() == 0
                } else if n > 0 && !gone {
                    &&& send@ == s.bytes.take(n)
                    &&& final(self)@ == (Stream { bytes: s.bytes.skip(n), ..s })
                } else {
                    send@.len() == 0 && final(self)@ == s
                }
            }),
    {
        if self.tool_phase {
            return Vec::new();
        }
        let marker: [u8; 11] = [
            0x3c,
            0x74,
            0x6f,
            0x6f,
            0x6c,
            0x5f,
            0x63,
            0x61,
            0x6c,
            0x6c,
            0x3e,
        ];
        assert(marker@ =~= mark());
        let mut i: usize = 0;
        assert(self.bytes@ =~= old(self).bytes@ + decoded@.take(0));
        while i < decoded.len()
            invariant
                i <= decoded@.len(),
                self.tool_phase == old(self).tool_phase,
                self.bytes@ == old(self).bytes@ + decoded@.take(i as int),
            decreases decoded@.len() - i,
        {
            self.bytes.push(decoded[i]);
            i += 1;
            assert(self.bytes@ =~= old(self).bytes@ + decoded@.take(i as int));
        }
        assert(decoded@.take(i as int) =~= decoded@);
        proof {
            find_from_finds(self.bytes@, mark(), 0);
        }
        if let Some(p) = find_bytes(&self.bytes, &marker, 0) {
            self.bytes.truncate(p);
            self.tool_phase = true;
            assert(self.bytes@ =~= (old(self).bytes@ + decoded@).take(p as int));
        }
        let ghost s = self@;
        assert(s == old(self)@.with_bytes(decoded@));
        let mut n: usize = valid_up_to(&self.bytes);
        if !self.tool_phase {
            let held: usize = if self.bytes.len() >= 10 {
                self.bytes.len() - 10
            } else {
                0
            };
            if held < n {
                n = held;
            }
        }
        assert(n == s.ready());
        if n == 0 || gone {
            return Vec::new();
        }
        let mut send: Vec<u8> = self.bytes.split_off(n);
        core::mem::swap(&mut self.bytes, &mut send);
        assert(send@ =~= s.bytes.take(n as int));
        assert(self.bytes@ =~= s.bytes.skip(n as int));
        send
    }

    /// What is left to send at the end.
    pub fn flush(&self, gone: bool) -> (send: Option<&Vec<u8>>)
        ensures
            match send {
                Some(b) => {
                    &&& !self.tool_phase
                    &&& !gone
                    &&& b@ == self.bytes@
                    &&& b@.len() > 0
                },
                None => self.tool_phase || gone || self.bytes@.len() == 0,
            },
    {
        if !self.tool_phase && self.bytes.len() > 0 && !gone {
            Some(&self.bytes)
        } else {
            None
        }
    }
}

/// Why a reply with this many tool calls ended.
pub open spec fn reason_of(n_calls: int) -> Seq<char> {
    if n_calls == 0 {
        "stop"@
    } else {
        "tool_calls"@
    }
}

/// Why an answer ended.
pub fn finish_reason(n_calls: usize) -> (s: &'static str)
    ensures
        s@ == reason_of(n_calls as int),
{
    if n_calls == 0 {
        "stop"
    } else {
        "tool_calls"
    }
}

/// The id of a request.
pub fn chat_id(request: u64) -> (s: String)
    ensures
        s@ == "chatcmpl-"@ + decimal(request as nat),
{
    let mut s: String = String::from_str("chatcmpl-");
    push_decimal(&mut s, request);
    s
}

/// The id of the `k`-th tool call of a request.
pub open spec fn call_name(request: u64, k: usize) -> Seq<char> {
    "call_"@ + decimal(request as nat) + "_"@ + decimal(k as nat)
}

/// Makes the id of a tool call.
pub fn call_id(request: u64, k: usize) -> (s: String)
    ensures
        s@ == call_name(request, k),
{
    let mut s: String = String::from_str("call_");
    push_decimal(&mut s, request);
    s.append("_");
    push_decimal(&mut s, k as u64);
    s
}

} // verus!
