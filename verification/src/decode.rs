//! The decode loop as a state machine. The caller runs the model and hands
//! back what came out; the machine says what to emit and what to run next.
//!
//! Besides one token at a time there are two ways to speculate, both for
//! greedy decoding only: drafts from repeated n-grams and drafts from a draft
//! layer. A draft is verified in one forward pass and accepted as far as it
//! agrees with what the model would have picked, so the stream stays the same.

use vstd::prelude::*;

use crate::ngram::{ngram, ngram_draft};
#[allow(unused_imports)]
use crate::settings::less;
#[allow(unused_imports)]
use crate::speculation::in_step;
use crate::text::{parse_unsigned, to_chars, unsigned_in};

verus! {

/// How tokens are produced.
#[derive(Debug, Clone, Copy, PartialEq, Eq, Structural)]
pub enum Mode {
    /// One at a time.
    Plain,
    /// With n-gram drafts of at most this many tokens.
    Ngram(usize),
    /// With drafts of at most this many tokens from the draft layer.
    Layer(u32),
}

/// The mode for a sampler, a model and a setting: the draft layer where there
/// is one, n-grams where they are asked for, and neither unless greedy.
pub open spec fn mode_of(greedy: bool, mtp: bool, depth: u32, ngram_env: Option<&str>) -> Mode {
    if !greedy {
        Mode::Plain
    } else if mtp {
        Mode::Layer(
            if depth >= 1 {
                depth
            } else {
                1
            },
        )
    } else {
        match ngram_env {
            Some(v) => match unsigned_in(v@, usize::MAX as nat) {
                Some(n) => Mode::Ngram(
                    if n < 1 {
                        1
                    } else if n > 15 {
                        15
                    } else {
                        n as usize
                    },
                ),
                None => Mode::Plain,
            },
            None => Mode::Plain,
        }
    }
}

/// Chooses how tokens are produced.
pub fn choose_mode(greedy: bool, mtp: bool, depth: u32, ngram_env: Option<&str>) -> (m: Mode)
    ensures
        m == mode_of(greedy, mtp, depth, ngram_env),
        m matches Mode::Ngram(d) ==> 1 <= d <= 15,
        m matches Mode::Layer(d) ==> 1 <= d,
        !greedy ==> m == Mode::Plain,
        m is Layer <==> greedy && mtp,
        m matches Mode::Layer(d) ==> d == depth || (depth == 0 && d == 1),
        m is Ngram <==> greedy && !mtp && ngram_env is Some && unsigned_in(
            ngram_env->0@,
            usize::MAX as nat,
        ) is Some,
        m matches Mode::Ngram(d) ==> {
            let n = unsigned_in(ngram_env->0@, usize::MAX as nat)->0;
            ||| d == n
            ||| n < 1 && d == 1
            ||| n > 15 && d == 15
        },
{
    if !greedy {
        return Mode::Plain;
    }
    if mtp {
        return Mode::Layer(
            if depth >= 1 {
                depth
            } else {
                1
            },
        );
    }
    match ngram_env {
        Some(v) => {
            let chars: Vec<char> = to_chars(v);
            match parse_unsigned(&chars, usize::MAX as u64) {
                Some(n) => Mode::Ngram(
                    if n < 1 {
                        1
                    } else if n > 15 {
                        15
                    } else {
                        n as usize
                    },
                ),
                None => Mode::Plain,
            }
        },
        None => Mode::Plain,
    }
}

/// What the machine waits for.
#[derive(Debug, Clone, Copy, PartialEq, Eq, Structural)]
pub enum Phase {
    /// A token picked from the latest logits.
    Pick,
    /// A forward pass of the token just emitted.
    Forward,
    /// A forward pass of the token that ended the stream.
    Close,
    /// A token from the draft layer.
    Draft,
    /// What the model picks after each token of the chain.
    Verify,
    /// The draft layer's cache brought up to date.
    Refill,
    /// Nothing.
    Over,
}

/// What came back.
pub enum Event {
    /// The token picked from the latest logits, and whether it ends the stream.
    Picked(u32, bool),
    /// The forward pass went through.
    Forwarded,
    /// The draft layer's token, and whether it ends the stream.
    Drafted(u32, bool),
    /// For each token of the chain, the token picked after it, and whether
    /// that one ends the stream.
    Verified(Vec<(u32, bool)>),
    /// The draft layer's cache is up to date.
    Refilled,
}

/// What to run next.
#[derive(Debug, Clone, Copy, PartialEq, Eq, Structural)]
pub enum Todo {
    /// Pick a token from the latest logits.
    Pick,
    /// Run the model on `token` at the current position.
    Forward { token: u32, logits: bool },
    /// Run the draft layer on `token` at `pos`.
    Draft { token: u32, pos: u32 },
    /// Run the model on the chain at the current position.
    Verify,
    /// Bring the draft layer's cache up to date for this many rows of the
    /// chain, at the current position.
    Refill { rows: u32 },
    /// Stop.
    Over,
}

/// What to emit, and then to run.
pub struct Action {
    pub emit: Vec<u32>,
    pub todo: Todo,
}

/// A decode in progress.
pub struct Decoder {
    pub mode: Mode,
    pub ctx: u32,
    pub max_tokens: usize,
    pub pos: u32,
    pub emitted: usize,
    /// The prompt and everything emitted.
    pub hist: Vec<u32>,
    /// The last emitted token and the draft behind it.
    pub chain: Vec<u32>,
    /// Tokens to draft this round.
    pub depth: u32,
    /// What the model picked after each token of the chain.
    pub rows: Vec<(u32, bool)>,
    pub phase: Phase,
    pub drafted: u64,
    pub accepted: u64,
}

/// The machine as mathematics.
pub ghost struct Machine {
    pub mode: Mode,
    pub ctx: int,
    pub max_tokens: int,
    pub pos: int,
    pub emitted: int,
    pub hist: Seq<u32>,
    pub chain: Seq<u32>,
    pub depth: int,
    pub rows: Seq<(u32, bool)>,
    pub phase: Phase,
    pub drafted: int,
    pub accepted: int,
}

impl View for Decoder {
    type V = Machine;

    open spec fn view(&self) -> Machine {
        Machine {
            mode: self.mode,
            ctx: self.ctx as int,
            max_tokens: self.max_tokens as int,
            pos: self.pos as int,
            emitted: self.emitted as int,
            hist: self.hist@,
            chain: self.chain@,
            depth: self.depth as int,
            rows: self.rows@,
            phase: self.phase,
            drafted: self.drafted as int,
            accepted: self.accepted as int,
        }
    }
}

/// Positions to keep free for a round.
pub open spec fn slack(mode: Mode) -> int {
    match mode {
        Mode::Layer(_) => 2,
        _ => 1,
    }
}

/// The machine after a step, what it emits and what is to be run.
pub ghost struct Outcome {
    pub m: Machine,
    pub emit: Seq<u32>,
    pub todo: Todo,
}

impl Machine {
    /// The machine after emitting `t`.
    pub open spec fn emitting(self, t: u32) -> Machine {
        Machine { emitted: self.emitted + 1, hist: self.hist.push(t), ..self }
    }

    /// Emits `t` and runs the model on it.
    pub open spec fn single(self, t: u32) -> Outcome {
        Outcome {
            m: Machine { phase: Phase::Forward, ..self.emitting(t) },
            emit: seq![t],
            todo: Todo::Forward { token: t, logits: true },
        }
    }

    /// A round that begins with candidate `t`.
    pub open spec fn round(self, t: u32, stop: bool) -> Outcome {
        if self.emitted >= self.max_tokens {
            Outcome {
                m: Machine { phase: Phase::Over, ..self },
                emit: Seq::empty(),
                todo: Todo::Over,
            }
        } else if stop || self.pos + slack(self.mode) >= self.ctx {
            Outcome {
                m: Machine { phase: Phase::Close, ..self },
                emit: Seq::empty(),
                todo: Todo::Forward { token: t, logits: false },
            }
        } else {
            match self.mode {
                Mode::Plain => self.single(t),
                Mode::Ngram(depth) => {
                    let draft = ngram(self.hist.push(t), depth as int);
                    if draft.len() == 0 || self.pos + 2 + draft.len() >= self.ctx {
                        self.single(t)
                    } else {
                        Outcome {
                            m: Machine {
                                phase: Phase::Verify,
                                chain: seq![t] + draft,
                                drafted: self.drafted + draft.len(),
                                ..self.emitting(t)
                            },
                            emit: seq![t],
                            todo: Todo::Verify,
                        }
                    }
                },
                Mode::Layer(most) => {
                    let left = self.ctx - self.pos - 2;
                    Outcome {
                        m: Machine {
                            phase: Phase::Draft,
                            chain: seq![t],
                            depth: if most < left {
                                most as int
                            } else {
                                left
                            },
                            ..self.emitting(t)
                        },
                        emit: seq![t],
                        todo: Todo::Draft { token: t, pos: self.pos as u32 },
                    }
                },
            }
        }
    }

    /// A token of the draft layer.
    pub open spec fn drafts(self, t: u32, stop: bool) -> Outcome {
        let m = Machine { chain: self.chain.push(t), drafted: self.drafted + 1, ..self };
        let n = m.chain.len() - 1;
        if stop || n >= self.depth {
            Outcome {
                m: Machine { phase: Phase::Verify, ..m },
                emit: Seq::empty(),
                todo: Todo::Verify,
            }
        } else {
            Outcome {
                m,
                emit: Seq::empty(),
                todo: Todo::Draft { token: t, pos: (self.pos + n) as u32 },
            }
        }
    }

    /// A verified chain, taken as far as it was right.
    pub open spec fn settled(self) -> Outcome {
        let j = agreed(self.chain, self.rows, 0);
        let n = emit_count(self.rows, 0, j, self.max_tokens - self.emitted);
        let tokens = self.chain.subrange(1, 1 + n);
        let m = Machine {
            pos: self.pos + j + 1,
            emitted: self.emitted + n,
            hist: self.hist + tokens,
            ..self
        };
        if n < j {
            Outcome { m: Machine { phase: Phase::Over, ..m }, emit: tokens, todo: Todo::Over }
        } else {
            let r = m.round(self.rows[j].0, self.rows[j].1);
            Outcome { emit: tokens + r.emit, ..r }
        }
    }

    /// What the model picked after each token of the chain.
    pub open spec fn verified(self, rows: Seq<(u32, bool)>) -> Outcome {
        let j = agreed(self.chain, rows, 0);
        let m = Machine { rows, accepted: self.accepted + j, ..self };
        match self.mode {
            Mode::Layer(_) => Outcome {
                m: Machine { phase: Phase::Refill, ..m },
                emit: Seq::empty(),
                todo: Todo::Refill { rows: (j + 1) as u32 },
            },
            _ => m.settled(),
        }
    }

    /// A forward pass that went through.
    pub open spec fn forwarded(self) -> Outcome {
        let m = Machine { pos: self.pos + 1, ..self };
        if self.phase == Phase::Forward && self.emitted < self.max_tokens {
            Outcome {
                m: Machine { phase: Phase::Pick, ..m },
                emit: Seq::empty(),
                todo: Todo::Pick,
            }
        } else {
            Outcome {
                m: Machine { phase: Phase::Over, ..m },
                emit: Seq::empty(),
                todo: Todo::Over,
            }
        }
    }

    /// What holds between steps.
    pub open spec fn wf(self) -> bool {
        &&& self.pos <= self.ctx
        &&& self.mode matches Mode::Ngram(d) ==> 1 <= d <= 15
        &&& self.mode matches Mode::Layer(d) ==> 1 <= d
        &&& self.phase == Phase::Pick ==> self.mode != Mode::Plain || self.emitted < self.max_tokens
        &&& self.phase == Phase::Forward ==> self.pos < self.ctx
        &&& self.phase == Phase::Draft ==> {
            &&& self.mode is Layer
            &&& 1 <= self.chain.len() <= self.depth
            &&& self.pos + self.depth + 2 <= self.ctx
        }
        &&& self.phase == Phase::Verify || self.phase == Phase::Refill ==> {
            &&& self.chain.len() >= 1
            &&& self.pos + self.chain.len() < self.ctx
            &&& self.mode != Mode::Plain
        }
        &&& self.phase == Phase::Refill ==> self.rows.len() == self.chain.len() && self.mode is Layer
        &&& self.emitted <= self.max_tokens
    }
}

/// How many drafted tokens, from `i` on, are what the model picked.
pub open spec fn agreed(chain: Seq<u32>, rows: Seq<(u32, bool)>, i: int) -> int
    decreases chain.len() - i,
{
    if 0 <= i < chain.len() - 1 && rows[i].0 == chain[i + 1] {
        1 + agreed(chain, rows, i + 1)
    } else {
        0
    }
}

/// How many of the tokens picked at rows `i..j` are emitted: up to the first
/// that ends the stream, and no more than there is room for.
pub open spec fn emit_count(rows: Seq<(u32, bool)>, i: int, j: int, room: int) -> int
    decreases j - i,
{
    if i < j && !rows[i].1 && room > 0 {
        1 + emit_count(rows, i + 1, j, room - 1)
    } else {
        0
    }
}

/// Agreement is a prefix: every accepted token is what the model picked, and
/// the first that is not accepted is not.
pub proof fn agreed_is_longest(chain: Seq<u32>, rows: Seq<(u32, bool)>, i: int)
    requires
        0 <= i,
        chain.len() >= 1,
    ensures
        ({
            let j = i + agreed(chain, rows, i);
            &&& i <= j
            &&& i <= chain.len() - 1 ==> j <= chain.len() - 1
            &&& forall|k: int| i <= k < j ==> (#[trigger] rows[k]).0 == chain[k + 1]
            &&& j < chain.len() - 1 ==> rows[j].0 != chain[j + 1]
        }),
    decreases chain.len() - i,
{
    if i < chain.len() - 1 && rows[i].0 == chain[i + 1] {
        agreed_is_longest(chain, rows, i + 1);
    }
}

proof fn emit_count_bounds(rows: Seq<(u32, bool)>, i: int, j: int, room: int)
    ensures
        0 <= emit_count(rows, i, j, room),
        i <= j ==> emit_count(rows, i, j, room) <= j - i,
        room >= 0 ==> emit_count(rows, i, j, room) <= room,
        forall|k: int| i <= k < i + emit_count(rows, i, j, room) ==> !(#[trigger] rows[k]).1,
    decreases j - i,
{
    if i < j && !rows[i].1 && room > 0 {
        emit_count_bounds(rows, i + 1, j, room - 1);
    }
}

/// Whether `out` is what greedy decoding gives after `base`, when `pick` is
/// the model's choice after a context.
pub open spec fn greedy(pick: spec_fn(Seq<u32>) -> u32, base: Seq<u32>, out: Seq<u32>) -> bool {
    forall|i: int| 0 <= i < out.len() ==> #[trigger] out[i] == pick(base + out.take(i))
}

/// Whether an event reports what a model with choice `pick` does.
pub open spec fn faithful(m: Machine, ev: Event, pick: spec_fn(Seq<u32>) -> u32) -> bool {
    match ev {
        Event::Picked(t, _) => t == pick(m.hist),
        Event::Verified(rows) => forall|i: int|
            0 <= i < rows@.len() ==> (#[trigger] rows@[i]).0 == pick(
                m.hist + m.chain.subrange(1, i + 1),
            ),
        _ => true,
    }
}

/// Whether the stream so far is the greedy one, and what is known of the rows
/// still agrees with it.
pub open spec fn stream_greedy(m: Machine, prompt: Seq<u32>, pick: spec_fn(Seq<u32>) -> u32) -> bool {
    &&& prompt.len() <= m.hist.len()
    &&& m.hist.take(prompt.len() as int) == prompt
    &&& greedy(pick, prompt, m.hist.skip(prompt.len() as int))
    &&& m.phase == Phase::Refill ==> forall|i: int|
        0 <= i < m.rows.len() ==> (#[trigger] m.rows[i]).0 == pick(
            m.hist + m.chain.subrange(1, i + 1),
        )
}

/// What a step makes of an event.
pub open spec fn outcome(m: Machine, ev: Event) -> Outcome {
    match ev {
        Event::Picked(t, stop) => m.round(t, stop),
        Event::Forwarded => m.forwarded(),
        Event::Drafted(t, stop) => m.drafts(t, stop),
        Event::Verified(rows) => m.verified(rows@),
        Event::Refilled => m.settled(),
    }
}

/// Whether an event is one that the machine waits for.
pub open spec fn awaited(m: Machine, ev: Event) -> bool {
    match ev {
        Event::Picked(_, _) => m.phase == Phase::Pick,
        Event::Forwarded => m.phase == Phase::Forward || (m.phase == Phase::Close && m.pos < m.ctx),
        Event::Drafted(_, _) => m.phase == Phase::Draft,
        Event::Verified(rows) => m.phase == Phase::Verify && rows@.len() == m.chain.len(),
        Event::Refilled => m.phase == Phase::Refill,
    }
}

proof fn greedy_push(pick: spec_fn(Seq<u32>) -> u32, prompt: Seq<u32>, hist: Seq<u32>, t: u32)
    requires
        prompt.len() <= hist.len(),
        hist.take(prompt.len() as int) == prompt,
        greedy(pick, prompt, hist.skip(prompt.len() as int)),
        t == pick(hist),
    ensures
        hist.push(t).take(prompt.len() as int) == prompt,
        greedy(pick, prompt, hist.push(t).skip(prompt.len() as int)),
{
    let n = prompt.len() as int;
    let out = hist.skip(n);
    let more = hist.push(t).skip(n);
    assert(hist.push(t).take(n) =~= hist.take(n));
    assert forall|i: int| 0 <= i < more.len() implies #[trigger] more[i] == pick(
        prompt + more.take(i),
    ) by {
        assert(more.take(i) =~= out.take(i));
        if i < out.len() {
            assert(more[i] == out[i]);
        } else {
            assert(prompt + out.take(i) =~= hist);
        }
    }
}

proof fn greedy_extend(
    pick: spec_fn(Seq<u32>) -> u32,
    prompt: Seq<u32>,
    hist: Seq<u32>,
    chain: Seq<u32>,
    n: int,
)
    requires
        prompt.len() <= hist.len(),
        hist.take(prompt.len() as int) == prompt,
        greedy(pick, prompt, hist.skip(prompt.len() as int)),
        0 <= n < chain.len(),
        forall|i: int|
            0 <= i < n ==> chain[i + 1] == pick(hist + #[trigger] chain.subrange(1, i + 1)),
    ensures
        (hist + chain.subrange(1, 1 + n)).take(prompt.len() as int) == prompt,
        greedy(pick, prompt, (hist + chain.subrange(1, 1 + n)).skip(prompt.len() as int)),
    decreases n,
{
    if n == 0 {
        assert(hist + chain.subrange(1, 1 + n) =~= hist);
    } else {
        greedy_extend(pick, prompt, hist, chain, n - 1);
        let before = hist + chain.subrange(1, n);
        assert(chain[n - 1 + 1] == pick(hist + chain.subrange(1, n - 1 + 1)));
        greedy_push(pick, prompt, before, chain[n]);
        assert(hist + chain.subrange(1, 1 + n) =~= before.push(chain[n]));
    }
}

proof fn round_greedy(m: Machine, t: u32, stop: bool, prompt: Seq<u32>, pick: spec_fn(Seq<u32>) -> u32)
    requires
        prompt.len() <= m.hist.len(),
        m.hist.take(prompt.len() as int) == prompt,
        greedy(pick, prompt, m.hist.skip(prompt.len() as int)),
        t == pick(m.hist),
    ensures
        stream_greedy(m.round(t, stop).m, prompt, pick),
        m.round(t, stop).m.hist == m.hist + m.round(t, stop).emit,
{
    greedy_push(pick, prompt, m.hist, t);
    assert(m.hist + seq![t] =~= m.hist.push(t));
    assert(m.hist + Seq::<u32>::empty() =~= m.hist);
}

proof fn settled_greedy(m: Machine, prompt: Seq<u32>, pick: spec_fn(Seq<u32>) -> u32)
    requires
        m.chain.len() >= 1,
        m.rows.len() == m.chain.len(),
        m.emitted <= m.max_tokens,
        prompt.len() <= m.hist.len(),
        m.hist.take(prompt.len() as int) == prompt,
        greedy(pick, prompt, m.hist.skip(prompt.len() as int)),
        forall|i: int|
            0 <= i < m.rows.len() ==> (#[trigger] m.rows[i]).0 == pick(
                m.hist + m.chain.subrange(1, i + 1),
            ),
    ensures
        stream_greedy(m.settled().m, prompt, pick),
        m.settled().m.hist == m.hist + m.settled().emit,
{
    let j = agreed(m.chain, m.rows, 0);
    let n = emit_count(m.rows, 0, j, m.max_tokens - m.emitted);
    agreed_is_longest(m.chain, m.rows, 0);
    emit_count_bounds(m.rows, 0, j, m.max_tokens - m.emitted);
    assert forall|i: int| 0 <= i < n implies m.chain[i + 1] == pick(
        m.hist + #[trigger] m.chain.subrange(1, i + 1),
    ) by {
        assert(m.rows[i].0 == m.chain[i + 1]);
    }
    greedy_extend(pick, prompt, m.hist, m.chain, n);
    let tokens = m.chain.subrange(1, 1 + n);
    let m2 = Machine {
        pos: m.pos + j + 1,
        emitted: m.emitted + n,
        hist: m.hist + tokens,
        ..m
    };
    if n == j {
        assert(m.rows[j].0 == pick(m.hist + m.chain.subrange(1, j + 1)));
        round_greedy(m2, m.rows[j].0, m.rows[j].1, prompt, pick);
        let r = m2.round(m.rows[j].0, m.rows[j].1);
        assert(m.hist + tokens + r.emit =~= m.hist + (tokens + r.emit));
    } else {
        assert((m.hist + tokens).skip(prompt.len() as int) == m2.hist.skip(prompt.len() as int));
    }
}

/// Speculation never changes the stream: as long as the events report what the
/// model does, everything emitted is what greedy decoding emits, token by
/// token, and the history is the prompt and what was emitted.
pub proof fn stream_stays_greedy(
    m: Machine,
    ev: Event,
    prompt: Seq<u32>,
    pick: spec_fn(Seq<u32>) -> u32,
)
    requires
        m.wf(),
        awaited(m, ev),
        faithful(m, ev, pick),
        stream_greedy(m, prompt, pick),
    ensures
        stream_greedy(outcome(m, ev).m, prompt, pick),
        outcome(m, ev).m.hist == m.hist + outcome(m, ev).emit,
{
    assert(m.hist + Seq::<u32>::empty() =~= m.hist);
    match ev {
        Event::Picked(t, stop) => round_greedy(m, t, stop, prompt, pick),
        Event::Verified(rows) => {
            let j = agreed(m.chain, rows@, 0);
            let m2 = Machine { rows: rows@, accepted: m.accepted + j, ..m };
            if !(m.mode is Layer) {
                settled_greedy(m2, prompt, pick);
            }
        },
        Event::Refilled => settled_greedy(m, prompt, pick),
        _ => {},
    }
}

/// Nothing that ends the stream is emitted, and no more than was asked for.
pub proof fn emits_no_stop(m: Machine, ev: Event)
    requires
        m.wf(),
        awaited(m, ev),
    ensures
        outcome(m, ev).m.emitted <= m.max_tokens,
        outcome(m, ev).m.emitted == m.emitted + outcome(m, ev).emit.len(),
        ev matches Event::Picked(_, true) ==> outcome(m, ev).emit.len() == 0,
        match ev {
            Event::Verified(rows) => forall|i: int|
                0 <= i < outcome(m, ev).emit.len() ==> !(#[trigger] rows@[i]).1,
            Event::Refilled => forall|i: int|
                0 <= i < outcome(m, ev).emit.len() ==> !(#[trigger] m.rows[i]).1,
            _ => true,
        },
{
    match ev {
        Event::Verified(rows) => {
            let j = agreed(m.chain, rows@, 0);
            agreed_is_longest(m.chain, rows@, 0);
            emit_count_bounds(rows@, 0, j, m.max_tokens - m.emitted);
        },
        Event::Refilled => {
            let j = agreed(m.chain, m.rows, 0);
            agreed_is_longest(m.chain, m.rows, 0);
            emit_count_bounds(m.rows, 0, j, m.max_tokens - m.emitted);
        },
        _ => {},
    }
}

impl Decoder {
    /// Begins decoding after `prompt`, whose last token stands before `pos`.
    pub fn begin(mode: Mode, prompt: &[u32], pos: u32, ctx: u32, max_tokens: usize) -> (r: (
        Decoder,
        Todo,
    ))
        requires
            pos <= ctx,
            mode matches Mode::Ngram(d) ==> 1 <= d <= 15,
            mode matches Mode::Layer(d) ==> 1 <= d,
        ensures
            r.0@ == (Machine {
                mode,
                ctx: ctx as int,
                max_tokens: max_tokens as int,
                pos: pos as int,
                emitted: 0,
                hist: prompt@,
                chain: Seq::empty(),
                depth: 0,
                rows: Seq::empty(),
                phase: if mode == Mode::Plain && max_tokens == 0 {
                    Phase::Over
                } else {
                    Phase::Pick
                },
                drafted: 0,
                accepted: 0,
            }),
            r.1 == (if mode == Mode::Plain && max_tokens == 0 {
                Todo::Over
            } else {
                Todo::Pick
            }),
            r.0@.wf(),
            in_step(r.0@, prompt@, pos as int, Seq::empty()),
    {
        let mut hist: Vec<u32> = Vec::new();
        let mut i: usize = 0;
        while i < prompt.len()
            invariant
                i <= prompt@.len(),
                hist@ == prompt@.take(i as int),
            decreases prompt@.len() - i,
        {
            hist.push(prompt[i]);
            i += 1;
            assert(hist@ =~= prompt@.take(i as int));
        }
        assert(prompt@.take(i as int) =~= prompt@);
        let over: bool = mode == Mode::Plain && max_tokens == 0;
        let phase: Phase = if over {
            Phase::Over
        } else {
            Phase::Pick
        };
        let todo: Todo = if over {
            Todo::Over
        } else {
            Todo::Pick
        };
        let ghost none: Seq<u32> = Seq::empty();
        assert(none.take(0) =~= prompt@.subrange(prompt@.len() as int, prompt@.len() as int));
        (
            Decoder {
                mode,
                ctx,
                max_tokens,
                pos,
                emitted: 0,
                hist,
                chain: Vec::new(),
                depth: 0,
                rows: Vec::new(),
                phase,
                drafted: 0,
                accepted: 0,
            },
            todo,
        )
    }

    /// Takes one event and says what to emit and what to run next.
    pub fn step(&mut self, ev: Event) -> (a: Action)
        requires
            old(self)@.wf(),
            awaited(old(self)@, ev),
            old(self)@.drafted + 16 <= u64::MAX,
            old(self)@.accepted + old(self)@.chain.len() <= u64::MAX,
        ensures
            final(self)@ == outcome(old(self)@, ev).m,
            a.emit@ == outcome(old(self)@, ev).emit,
            a.todo == outcome(old(self)@, ev).todo,
            final(self)@.wf(),
    {
        match ev {
            Event::Picked(t, stop) => self.round(t, stop, Vec::new()),
            Event::Forwarded => {
                self.pos = self.pos + 1;
                if self.phase == Phase::Forward && self.emitted < self.max_tokens {
                    self.phase = Phase::Pick;
                    Action { emit: Vec::new(), todo: Todo::Pick }
                } else {
                    self.phase = Phase::Over;
                    Action { emit: Vec::new(), todo: Todo::Over }
                }
            },
            Event::Drafted(t, stop) => {
                self.chain.push(t);
                self.drafted = self.drafted + 1;
                let n: usize = self.chain.len() - 1;
                if stop || n >= self.depth as usize {
                    self.phase = Phase::Verify;
                    Action { emit: Vec::new(), todo: Todo::Verify }
                } else {
                    Action {
                        emit: Vec::new(),
                        todo: Todo::Draft { token: t, pos: self.pos + n as u32 },
                    }
                }
            },
            Event::Verified(rows) => {
                let ghost m0 = self@;
                let j: usize = count_agreed(&self.chain, &rows);
                proof {
                    agreed_is_longest(m0.chain, rows@, 0);
                }
                self.rows = rows;
                self.accepted = self.accepted + j as u64;
                match self.mode {
                    Mode::Layer(_) => {
                        self.phase = Phase::Refill;
                        Action { emit: Vec::new(), todo: Todo::Refill { rows: j as u32 + 1 } }
                    },
                    _ => self.settle(),
                }
            },
            Event::Refilled => self.settle(),
        }
    }

    fn settle(&mut self) -> (a: Action)
        requires
            old(self)@.rows.len() == old(self)@.chain.len(),
            old(self)@.chain.len() >= 1,
            old(self)@.pos + old(self)@.chain.len() < old(self)@.ctx,
            old(self)@.mode != Mode::Plain,
            old(self)@.mode matches Mode::Ngram(d) ==> 1 <= d <= 15,
            old(self)@.mode matches Mode::Layer(d) ==> 1 <= d,
            old(self)@.emitted <= old(self)@.max_tokens,
            old(self)@.drafted + 16 <= u64::MAX,
        ensures
            final(self)@ == old(self)@.settled().m,
            a.emit@ == old(self)@.settled().emit,
            a.todo == old(self)@.settled().todo,
            final(self)@.wf(),
    {
        let ghost m0 = self@;
        let j: usize = count_agreed(&self.chain, &self.rows);
        let ghost n = emit_count(m0.rows, 0, j as int, m0.max_tokens - m0.emitted);
        proof {
            agreed_is_longest(m0.chain, m0.rows, 0);
            emit_count_bounds(m0.rows, 0, j as int, m0.max_tokens - m0.emitted);
        }
        self.pos = self.pos + j as u32 + 1;
        let mut emit: Vec<u32> = Vec::new();
        let mut i: usize = 0;
        assert(m0.hist + m0.chain.subrange(1, 1) =~= m0.hist);
        assert(emit@ =~= m0.chain.subrange(1, 1));
        while i < j && !self.rows[i].1 && self.emitted < self.max_tokens
            invariant
                0 <= i <= j < m0.chain.len(),
                m0.rows.len() == m0.chain.len(),
                self@ == (Machine {
                    pos: m0.pos + j + 1,
                    emitted: m0.emitted + i,
                    hist: m0.hist + m0.chain.subrange(1, 1 + i),
                    ..m0
                }),
                emit@ == m0.chain.subrange(1, 1 + i),
                n == i + emit_count(
                    m0.rows,
                    i as int,
                    j as int,
                    m0.max_tokens - m0.emitted - i,
                ),
                m0.emitted + i <= m0.max_tokens,
            decreases j - i,
        {
            let t: u32 = self.chain[i + 1];
            emit.push(t);
            self.hist.push(t);
            self.emitted = self.emitted + 1;
            proof {
                assert(m0.chain.subrange(1, 2 + i) =~= m0.chain.subrange(1, 1 + i).push(t));
                assert(m0.hist + m0.chain.subrange(1, 2 + i) =~= (m0.hist + m0.chain.subrange(
                    1,
                    1 + i,
                )).push(t));
            }
            i += 1;
        }
        assert(n == i);
        if i < j {
            self.phase = Phase::Over;
            return Action { emit, todo: Todo::Over };
        }
        let (t, stop) = self.rows[j];
        self.round(t, stop, emit)
    }

    fn round(&mut self, t: u32, stop: bool, before: Vec<u32>) -> (a: Action)
        requires
            old(self)@.pos <= old(self)@.ctx,
            old(self)@.emitted <= old(self)@.max_tokens,
            old(self)@.mode matches Mode::Ngram(d) ==> 1 <= d <= 15,
            old(self)@.mode matches Mode::Layer(d) ==> 1 <= d,
            old(self)@.drafted + 16 <= u64::MAX,
        ensures
            final(self)@ == old(self)@.round(t, stop).m,
            a.emit@ == before@ + old(self)@.round(t, stop).emit,
            a.todo == old(self)@.round(t, stop).todo,
            final(self)@.wf(),
    {
        let mut emit: Vec<u32> = before;
        assert(before@ + Seq::<u32>::empty() =~= before@);
        if self.emitted >= self.max_tokens {
            self.phase = Phase::Over;
            return Action { emit, todo: Todo::Over };
        }
        let left: u32 = self.ctx - self.pos;
        let need: u32 = match self.mode {
            Mode::Layer(_) => 2,
            _ => 1,
        };
        if stop || left <= need {
            self.phase = Phase::Close;
            return Action { emit, todo: Todo::Forward { token: t, logits: false } };
        }
        emit.push(t);
        assert(emit@ =~= before@ + seq![t]);
        self.hist.push(t);
        self.emitted = self.emitted + 1;
        match self.mode {
            Mode::Plain => {
                self.phase = Phase::Forward;
                Action { emit, todo: Todo::Forward { token: t, logits: true } }
            },
            Mode::Ngram(depth) => {
                let mut draft: Vec<u32> = ngram_draft(&self.hist, depth);
                if draft.len() == 0 || draft.len() as u32 + 2 >= left {
                    self.phase = Phase::Forward;
                    return Action { emit, todo: Todo::Forward { token: t, logits: true } };
                }
                self.drafted = self.drafted + draft.len() as u64;
                let mut chain: Vec<u32> = vec![t];
                let ghost d = draft@;
                chain.append(&mut draft);
                assert(chain@ =~= seq![t] + d);
                self.chain = chain;
                self.phase = Phase::Verify;
                Action { emit, todo: Todo::Verify }
            },
            Mode::Layer(most) => {
                self.depth = if most < left - 2 {
                    most
                } else {
                    left - 2
                };
                let chain: Vec<u32> = vec![t];
                assert(chain@ =~= seq![t]);
                self.chain = chain;
                self.phase = Phase::Draft;
                Action { emit, todo: Todo::Draft { token: t, pos: self.pos } }
            },
        }
    }
}

fn count_agreed(chain: &Vec<u32>, rows: &Vec<(u32, bool)>) -> (j: usize)
    requires
        chain@.len() >= 1,
        rows@.len() == chain@.len(),
    ensures
        j == agreed(chain@, rows@, 0),
        j < chain@.len(),
{
    let mut j: usize = 0;
    while j + 1 < chain.len() && rows[j].0 == chain[j + 1]
        invariant
            j < chain.len(),
            rows@.len() == chain@.len(),
            agreed(chain@, rows@, 0) == j + agreed(chain@, rows@, j as int),
        decreases chain@.len() - j,
    {
        j += 1;
    }
    j
}

/// A piece of a prompt and where it stands.
#[derive(Debug, Clone, Copy, PartialEq, Eq, Structural)]
pub struct Chunk {
    pub start: usize,
    pub len: usize,
    pub pos: u32,
}

/// The pieces of a prompt of `n` tokens from `start` on, each of `size` but
/// for the last.
pub open spec fn chunks_from(n: int, size: int, pos0: int, start: int) -> Seq<Chunk>
    decreases n - start,
{
    if start >= n || size <= 0 {
        Seq::empty()
    } else {
        let len = if n - start < size {
            n - start
        } else {
            size
        };
        seq![Chunk { start: start as usize, len: len as usize, pos: (pos0 + start) as u32 }]
            + chunks_from(n, size, pos0, start + len)
    }
}

/// Cuts a prompt into pieces of at most `size` tokens.
pub fn prefill_chunks(n: usize, size: u32, pos0: u32) -> (v: Vec<Chunk>)
    requires
        size > 0,
        pos0 + n <= u32::MAX,
    ensures
        v@ == chunks_from(n as int, size as int, pos0 as int, 0),
{
    let mut v: Vec<Chunk> = Vec::new();
    let mut start: usize = 0;
    let ghost all = chunks_from(n as int, size as int, pos0 as int, 0);
    assert(v@ + all =~= all);
    while start < n
        invariant
            size > 0,
            start <= n,
            pos0 + n <= u32::MAX,
            v@ + chunks_from(n as int, size as int, pos0 as int, start as int) == all,
        decreases n - start,
    {
        let len: usize = if n - start < size as usize {
            n - start
        } else {
            size as usize
        };
        let c: Chunk = Chunk { start, len, pos: pos0 + start as u32 };
        let ghost before = v@;
        v.push(c);
        assert(before + (seq![c] + chunks_from(n as int, size as int, pos0 as int, start + len))
            =~= v@ + chunks_from(n as int, size as int, pos0 as int, start + len));
        start += len;
    }
    assert(v@ + chunks_from(n as int, size as int, pos0 as int, start as int) =~= v@);
    v
}

/// In pieces of one token a prompt is forwarded just as decoding forwards it:
/// token by token, each at its own position.
pub proof fn pieces_of_one(n: int, pos0: int, start: int)
    requires
        0 <= start <= n <= usize::MAX,
        0 <= pos0,
        pos0 + n <= u32::MAX,
    ensures
        chunks_from(n, 1, pos0, start) == Seq::new(
            (n - start) as nat,
            |i: int|
                Chunk { start: (start + i) as usize, len: 1, pos: (pos0 + start + i) as u32 },
        ),
    decreases n - start,
{
    if start < n {
        pieces_of_one(n, pos0, start + 1);
    }
    assert(chunks_from(n, 1, pos0, start) =~= Seq::new(
        (n - start) as nat,
        |i: int| Chunk { start: (start + i) as usize, len: 1, pos: (pos0 + start + i) as u32 },
    ));
}

/// The pieces of a prompt follow each other without gap or overlap, in the
/// prompt and in position, and none is empty or larger than a batch.
pub proof fn chunks_cover(n: int, size: int, pos0: int, start: int, i: int)
    requires
        0 < size,
        0 <= start <= n <= usize::MAX,
        0 <= pos0,
        pos0 + n <= u32::MAX,
        0 <= i < chunks_from(n, size, pos0, start).len(),
    ensures
        ({
            let v = chunks_from(n, size, pos0, start);
            &&& 0 < v[i].len <= size
            &&& v[i].pos == pos0 + v[i].start
            &&& v[i].start == (if i == 0 {
                start
            } else {
                v[i - 1].start + v[i - 1].len
            })
            &&& i == v.len() - 1 ==> v[i].start + v[i].len == n
        }),
    decreases n - start,
{
    let v = chunks_from(n, size, pos0, start);
    if start < n {
        let len = if n - start < size {
            n - start
        } else {
            size
        };
        let rest = chunks_from(n, size, pos0, start + len);
        assert(v =~= seq![v[0]] + rest);
        if i > 0 {
            chunks_cover(n, size, pos0, start + len, i - 1);
            assert(v[i] == rest[i - 1]);
            if i > 1 {
                assert(v[i - 1] == rest[i - 2]);
            }
        }
    }
}

/// A run of tokens that is forwarded at once.
#[derive(Debug, Clone, Copy, PartialEq, Eq, Structural)]
pub struct Segment {
    pub start: usize,
    pub len: usize,
    pub pos: u32,
    /// Rows of logits wanted from its end.
    pub rows: u32,
}

/// The rows of logits that a run gives: as many as are wanted of its end.
pub open spec fn given_rows(s: Segment) -> int {
    less(s.rows as int, s.len as int)
}

/// Whether a batch begins before the indexer's limit and ends behind it.
pub open spec fn straddles(pos: int, len: int, topk: int) -> bool {
    topk > 0 && pos < topk && pos + len > topk
}

/// The runs that a batch is forwarded in: two when it straddles the limit up
/// to which every row is visible, else one. The rows of logits are those of the
/// batch's last positions: what the second run is too short for comes from the
/// first.
pub open spec fn segments(n: int, pos0: int, rows: u32, topk: u32) -> Seq<Segment> {
    if straddles(pos0, n, topk as int) && n > 1 {
        let split = topk - pos0;
        let behind = less(rows as int, n - split);
        seq![
            Segment {
                start: 0,
                len: split as usize,
                pos: pos0 as u32,
                rows: (rows - behind) as u32,
            },
            Segment {
                start: split as usize,
                len: (n - split) as usize,
                pos: topk,
                rows: behind as u32,
            },
        ]
    } else {
        seq![Segment { start: 0, len: n as usize, pos: pos0 as u32, rows }]
    }
}

/// Splits a batch at the indexer's limit.
pub fn forward_segments(n: usize, pos0: u32, rows: u32, topk: u32) -> (v: Vec<Segment>)
    ensures
        v@ == segments(n as int, pos0 as int, rows, topk),
{
    let mut v: Vec<Segment> = Vec::new();
    if topk > 0 && pos0 < topk && n > (topk - pos0) as usize && n > 1 {
        let split: usize = (topk - pos0) as usize;
        let behind: u32 = if (rows as usize) < n - split {
            rows
        } else {
            (n - split) as u32
        };
        v.push(Segment { start: 0, len: split, pos: pos0, rows: rows - behind });
        v.push(Segment { start: split, len: n - split, pos: topk, rows: behind });
    } else {
        v.push(Segment { start: 0, len: n, pos: pos0, rows });
    }
    assert(v@ =~= segments(n as int, pos0 as int, rows, topk));
    v
}

/// No run of more than one token straddles the limit, and the runs are the batch.
pub proof fn segments_do_not_straddle(n: int, pos0: int, rows: u32, topk: u32, i: int)
    requires
        0 <= n <= usize::MAX,
        0 <= pos0 <= u32::MAX,
        0 <= i < segments(n, pos0, rows, topk).len(),
    ensures
        ({
            let v = segments(n, pos0, rows, topk);
            &&& v[i].len > 1 ==> !straddles(v[i].pos as int, v[i].len as int, topk as int)
            &&& v[i].pos == pos0 + v[i].start
            &&& v[0].start == 0
            &&& v[v.len() - 1].start + v[v.len() - 1].len == n
            &&& i > 0 ==> v[i].start == v[i - 1].start + v[i - 1].len
        }),
{
}

/// The runs of a batch give the logits of its last `rows` positions, all of
/// them and no others: together they give that many rows, and a run before the
/// last gives some only when the last gives all of its own.
pub proof fn segments_give_last_rows(n: int, pos0: int, rows: u32, topk: u32)
    requires
        0 <= n <= usize::MAX,
        0 <= pos0 <= u32::MAX,
    ensures
        ({
            let v = segments(n, pos0, rows, topk);
            let last = v[v.len() - 1];
            &&& v.len() == 1 ==> given_rows(last) == less(rows as int, n)
            &&& v.len() == 2 ==> given_rows(v[0]) + given_rows(last) == less(rows as int, n)
            &&& v.len() == 2 && given_rows(v[0]) > 0 ==> given_rows(last) == last.len
            &&& v.len() <= 2
        }),
{
}

/// Why a batch cannot be forwarded.
#[derive(Debug, Clone, Copy, PartialEq, Eq, Structural)]
pub enum BatchError {
    /// It is empty or larger than a batch.
    Size,
    /// It would go past the context.
    Context,
}

/// Checks a run of tokens before it is forwarded.
pub fn check_batch(len: usize, pos: u32, max_batch: u32, ctx: u32) -> (r: Result<(), BatchError>)
    ensures
        r == (if len == 0 || len > max_batch {
            Err(BatchError::Size)
        } else if pos + len > ctx {
            Err(BatchError::Context)
        } else {
            Ok(())
        }),
{
    if len == 0 || len > max_batch as usize {
        Err(BatchError::Size)
    } else if pos > ctx || len > (ctx - pos) as usize {
        Err(BatchError::Context)
    } else {
        Ok(())
    }
}

/// How many rows of logits come from the end of a run, and from which row.
pub fn tail_rows(rows: u32, len: u32) -> (r: (u32, u32))
    ensures
        r.0 == (if rows < len {
            rows
        } else {
            len
        }),
        r.1 == len - r.0,
{
    if rows < len {
        (rows, len - rows)
    } else {
        (len, 0)
    }
}

} // verus!
