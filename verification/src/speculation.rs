//! What holds of a decode from its beginning to its end: the cache stays in step
//! with the stream, the stream ends only for a reason, and so every way to
//! produce it gives the same text.

use vstd::prelude::*;

#[allow(unused_imports)]
use crate::decode::{
    agreed, agreed_is_longest, awaited, emit_count, faithful, greedy, outcome, stream_greedy,
    Event, Machine, Mode, Phase, Todo,
};

verus! {

/// Whether the last emitted token is still to be run.
pub open spec fn one_to_run(m: Machine) -> bool {
    ||| m.phase == Phase::Forward
    ||| m.phase == Phase::Draft
    ||| m.phase == Phase::Verify
    ||| m.phase == Phase::Refill
}

/// Whether the cache is in step with the stream. `cache` holds the tokens that
/// the model was run on from position `start`, where the prompt ends. As long as
/// the stream goes on, the rows before the current position are the emitted
/// tokens, one for one and in order, but for the last where it is still to be
/// run; rows behind it are left over from drafts and will be overwritten.
pub open spec fn in_step(m: Machine, prompt: Seq<u32>, start: int, cache: Seq<u32>) -> bool {
    let n = prompt.len() as int;
    let done = m.pos - start;
    m.phase == Phase::Over || {
        &&& done == m.hist.len() - n - (if one_to_run(m) {
            1int
        } else {
            0
        })
        &&& 0 <= done <= cache.len()
        &&& n <= m.hist.len()
        &&& cache.take(done) == m.hist.subrange(n, n + done)
        &&& m.phase == Phase::Draft || m.phase == Phase::Verify || m.phase == Phase::Refill ==> {
            &&& m.chain.len() >= 1
            &&& m.chain[0] == m.hist.last()
        }
        &&& m.phase == Phase::Refill ==> {
            &&& m.rows.len() == m.chain.len()
            &&& done + m.chain.len() <= cache.len()
            &&& cache.subrange(done, done + m.chain.len()) == m.chain
        }
    }
}

/// The cache after what the machine waited for has been run: a pass writes its
/// tokens from the current position on.
pub open spec fn cache_after(m: Machine, ev: Event, start: int, cache: Seq<u32>) -> Seq<u32> {
    let done = m.pos - start;
    match ev {
        Event::Forwarded => if m.phase == Phase::Forward {
            cache.take(done).push(m.hist.last())
        } else {
            cache
        },
        Event::Verified(_) => cache.take(done) + m.chain,
        _ => cache,
    }
}

/// Whether `j` is how far a chain is what the model picked: every drafted token
/// up to it is, and the next, if there is one, is not.
pub open spec fn right_up_to(chain: Seq<u32>, rows: Seq<(u32, bool)>, j: int) -> bool {
    &&& 0 <= j < chain.len()
    &&& forall|k: int| 0 <= k < j ==> (#[trigger] rows[k]).0 == chain[k + 1]
    &&& j + 1 < chain.len() ==> rows[j].0 != chain[j + 1]
}

proof fn right_up_to_is_agreed(chain: Seq<u32>, rows: Seq<(u32, bool)>, j: int)
    requires
        right_up_to(chain, rows, j),
    ensures
        j == agreed(chain, rows, 0),
{
    agreed_is_longest(chain, rows, 0);
    let a = agreed(chain, rows, 0);
    if a < j {
        assert(rows[a].0 == chain[a + 1]);
    }
    if j < a {
        assert(rows[j].0 == chain[j + 1]);
    }
}

proof fn emitted_prefix(rows: Seq<(u32, bool)>, i: int, j: int, room: int)
    requires
        i <= j,
        room >= 0,
    ensures
        ({
            let n = emit_count(rows, i, j, room);
            &&& 0 <= n <= j - i
            &&& n <= room
            &&& forall|k: int| i <= k < i + n ==> !(#[trigger] rows[k]).1
            &&& n < j - i ==> rows[i + n].1 || n == room
        }),
    decreases j - i,
{
    if i < j && !rows[i].1 && room > 0 {
        emitted_prefix(rows, i + 1, j, room - 1);
    }
}

proof fn round_in_step(
    m: Machine,
    t: u32,
    stop: bool,
    prompt: Seq<u32>,
    start: int,
    cache: Seq<u32>,
)
    requires
        m.pos - start == m.hist.len() - prompt.len(),
        0 <= m.pos - start <= cache.len(),
        cache.take(m.pos - start) == m.hist.subrange(
            prompt.len() as int,
            prompt.len() + (m.pos - start),
        ),
    ensures
        in_step(m.round(t, stop).m, prompt, start, cache),
{
    let n = prompt.len() as int;
    let done = m.pos - start;
    assert(m.hist.push(t).subrange(n, n + done) =~= m.hist.subrange(n, n + done));
    assert(m.hist.push(t).last() == t);
}

proof fn settled_in_step(m: Machine, prompt: Seq<u32>, start: int, cache: Seq<u32>)
    requires
        m.chain.len() >= 1,
        m.rows.len() == m.chain.len(),
        m.emitted <= m.max_tokens,
        m.chain[0] == m.hist.last(),
        prompt.len() < m.hist.len(),
        m.pos - start == m.hist.len() - prompt.len() - 1,
        0 <= m.pos - start,
        m.pos - start + m.chain.len() <= cache.len(),
        cache.take(m.pos - start) == m.hist.subrange(
            prompt.len() as int,
            prompt.len() + (m.pos - start),
        ),
        cache.subrange(m.pos - start, m.pos - start + m.chain.len()) == m.chain,
    ensures
        in_step(m.settled().m, prompt, start, cache),
{
    let j = agreed(m.chain, m.rows, 0);
    let n = emit_count(m.rows, 0, j, m.max_tokens - m.emitted);
    agreed_is_longest(m.chain, m.rows, 0);
    emitted_prefix(m.rows, 0, j, m.max_tokens - m.emitted);
    let m2 = m.settled().m;
    if n == j {
        let done = m.pos - start;
        let p = prompt.len() as int;
        let hist = m.hist + m.chain.subrange(1, 1 + j);
        let more = done + j + 1;
        let (a, b) = (cache.take(more), hist.subrange(p, p + more));
        assert forall|i: int| 0 <= i < more implies #[trigger] a[i] == b[i] by {
            if i < done {
                assert(cache.take(done)[i] == m.hist.subrange(p, p + done)[i]);
            } else {
                assert(cache.subrange(done, done + m.chain.len())[i - done] == m.chain[i - done]);
                if i > done {
                    assert(b[i] == m.chain.subrange(1, 1 + j)[i - done - 1]);
                }
            }
        }
        assert(a =~= b);
        let before = Machine {
            pos: m.pos + j + 1,
            emitted: m.emitted + n,
            hist,
            ..m
        };
        round_in_step(before, m.rows[j].0, m.rows[j].1, prompt, start, cache);
    }
}

/// The cache never falls out of step: whatever comes back, as long as the stream
/// goes on, the next pass runs behind exactly the emitted tokens. A draft that
/// was refused leaves nothing that is counted as context, and an accepted one
/// leaves all of it.
pub proof fn cache_stays_in_step(
    m: Machine,
    ev: Event,
    prompt: Seq<u32>,
    start: int,
    cache: Seq<u32>,
)
    requires
        m.wf(),
        awaited(m, ev),
        in_step(m, prompt, start, cache),
    ensures
        in_step(outcome(m, ev).m, prompt, start, cache_after(m, ev, start, cache)),
{
    let done = m.pos - start;
    let n = prompt.len() as int;
    let after = cache_after(m, ev, start, cache);
    match ev {
        Event::Picked(t, stop) => round_in_step(m, t, stop, prompt, start, cache),
        Event::Forwarded => {
            if m.phase == Phase::Forward {
                assert(after.take(done + 1) =~= m.hist.subrange(n, n + done + 1)) by {
                    assert(cache.take(done) == m.hist.subrange(n, n + done));
                    assert(m.hist.subrange(n, n + done + 1) =~= m.hist.subrange(n, n + done).push(
                        m.hist.last(),
                    ));
                }
            }
        },
        Event::Verified(rows) => {
            let j = agreed(m.chain, rows@, 0);
            let m2 = Machine { rows: rows@, accepted: m.accepted + j, ..m };
            assert(after.take(done) =~= cache.take(done));
            assert(after.subrange(done, done + m.chain.len()) =~= m.chain);
            if !(m.mode is Layer) {
                settled_in_step(m2, prompt, start, after);
            }
        },
        Event::Refilled => settled_in_step(m, prompt, start, cache),
        _ => {},
    }
}

/// Where a chain was right up to `j`, the position moves behind the `j` accepted
/// tokens and the one before them, and `j` tokens count as accepted; the draft
/// layer's cache is brought up to date for just those rows first.
pub proof fn position_after_a_chain(m: Machine, rows: Vec<(u32, bool)>, j: int)
    requires
        m.wf(),
        awaited(m, Event::Verified(rows)),
        right_up_to(m.chain, rows@, j),
        m.chain.len() <= u32::MAX,
    ensures
        ({
            let o = outcome(m, Event::Verified(rows));
            &&& o.m.accepted == m.accepted + j
            &&& m.mode is Layer ==> {
                &&& o.m.phase == Phase::Refill
                &&& o.m.pos == m.pos
                &&& o.emit.len() == 0
                &&& o.todo == Todo::Refill { rows: (j + 1) as u32 }
                &&& outcome(o.m, Event::Refilled).m.pos == m.pos + j + 1
                &&& outcome(o.m, Event::Refilled).m.accepted == m.accepted + j
            }
            &&& !(m.mode is Layer) ==> o.m.pos == m.pos + j + 1
        }),
{
    right_up_to_is_agreed(m.chain, rows@, j);
}

/// What is run next belongs to the stream: a pass on the token just emitted, a
/// draft from the end of the chain at the position behind it, or a chain that
/// begins with the token just emitted.
pub proof fn next_run_continues_stream(
    m: Machine,
    ev: Event,
    prompt: Seq<u32>,
    start: int,
    cache: Seq<u32>,
)
    requires
        m.wf(),
        awaited(m, ev),
        in_step(m, prompt, start, cache),
        0 <= m.pos,
        m.ctx <= u32::MAX,
    ensures
        ({
            let o = outcome(m, ev);
            match o.todo {
                Todo::Pick => o.m.phase == Phase::Pick,
                Todo::Forward { token, logits } => if logits {
                    &&& o.m.phase == Phase::Forward
                    &&& token == o.m.hist.last()
                    &&& o.emit.len() > 0
                    &&& token == o.emit.last()
                } else {
                    o.m.phase == Phase::Close
                },
                Todo::Draft { token, pos } => {
                    &&& o.m.phase == Phase::Draft
                    &&& token == o.m.chain.last()
                    &&& pos == o.m.pos + o.m.chain.len() - 1
                },
                Todo::Verify => {
                    &&& o.m.phase == Phase::Verify
                    &&& o.m.chain[0] == o.m.hist.last()
                    &&& o.m.chain.len() > 1
                },
                Todo::Refill { rows } => o.m.phase == Phase::Refill && o.m.pos == m.pos,
                Todo::Over => o.m.phase == Phase::Over,
            }
        }),
{
    cache_stays_in_step(m, ev, prompt, start, cache);
    match ev {
        Event::Verified(rows) => {
            agreed_is_longest(m.chain, rows@, 0);
            let j = agreed(m.chain, rows@, 0);
            emitted_prefix(rows@, 0, j, m.max_tokens - m.emitted);
        },
        Event::Refilled => {
            agreed_is_longest(m.chain, m.rows, 0);
            let j = agreed(m.chain, m.rows, 0);
            emitted_prefix(m.rows, 0, j, m.max_tokens - m.emitted);
        },
        _ => {},
    }
}

/// Whether an event says rightly which tokens end the stream, and what the
/// machine remembers of an earlier one does too.
pub open spec fn honest(m: Machine, ev: Event, ends: spec_fn(u32) -> bool) -> bool {
    &&& match ev {
        Event::Picked(t, stop) => stop == ends(t),
        Event::Verified(rows) => forall|i: int|
            0 <= i < rows@.len() ==> (#[trigger] rows@[i]).1 == ends(rows@[i].0),
        _ => true,
    }
    &&& m.phase == Phase::Refill ==> forall|i: int|
        0 <= i < m.rows.len() ==> (#[trigger] m.rows[i]).1 == ends(m.rows[i].0)
}

/// Whether there is no room for another round: a draft layer wants two positions
/// behind the token, the others one.
pub open spec fn full(m: Machine) -> bool {
    match m.mode {
        Mode::Layer(_) => m.ctx - m.pos <= 2,
        _ => m.ctx - m.pos <= 1,
    }
}

/// What the machine has emitted is over for a reason: as many tokens as were
/// asked for, or a token that ends the stream comes next, or the context is full.
pub open spec fn over_for_a_reason(
    m: Machine,
    pick: spec_fn(Seq<u32>) -> u32,
    ends: spec_fn(u32) -> bool,
) -> bool {
    m.emitted == m.max_tokens || ends(pick(m.hist)) || full(m)
}

proof fn round_ends(
    m: Machine,
    t: u32,
    pick: spec_fn(Seq<u32>) -> u32,
    ends: spec_fn(u32) -> bool,
)
    requires
        m.emitted <= m.max_tokens,
        t == pick(m.hist),
    ensures
        ({
            let o = m.round(t, ends(t));
            &&& o.m.phase == Phase::Close || o.m.phase == Phase::Over ==> {
                &&& over_for_a_reason(o.m, pick, ends)
                &&& o.emit.len() == 0
            }
            &&& forall|i: int| 0 <= i < o.emit.len() ==> !ends(#[trigger] o.emit[i])
        }),
{
}

proof fn settled_ends(
    m: Machine,
    pick: spec_fn(Seq<u32>) -> u32,
    ends: spec_fn(u32) -> bool,
)
    requires
        m.chain.len() >= 1,
        m.rows.len() == m.chain.len(),
        m.emitted <= m.max_tokens,
        forall|i: int|
            0 <= i < m.rows.len() ==> (#[trigger] m.rows[i]).0 == pick(
                m.hist + m.chain.subrange(1, i + 1),
            ),
        forall|i: int| 0 <= i < m.rows.len() ==> (#[trigger] m.rows[i]).1 == ends(m.rows[i].0),
    ensures
        ({
            let o = m.settled();
            &&& o.m.phase == Phase::Close || o.m.phase == Phase::Over ==> over_for_a_reason(
                o.m,
                pick,
                ends,
            )
            &&& forall|i: int| 0 <= i < o.emit.len() ==> !ends(#[trigger] o.emit[i])
        }),
{
    let j = agreed(m.chain, m.rows, 0);
    let n = emit_count(m.rows, 0, j, m.max_tokens - m.emitted);
    agreed_is_longest(m.chain, m.rows, 0);
    emitted_prefix(m.rows, 0, j, m.max_tokens - m.emitted);
    let tokens = m.chain.subrange(1, 1 + n);
    assert forall|i: int| 0 <= i < n implies !ends(#[trigger] tokens[i]) by {
        assert(m.rows[i].0 == m.chain[i + 1]);
        assert(!m.rows[i].1);
    }
    assert(m.rows[n].0 == pick(m.hist + m.chain.subrange(1, n + 1)));
    if n == j {
        let before = Machine {
            pos: m.pos + j + 1,
            emitted: m.emitted + n,
            hist: m.hist + tokens,
            ..m
        };
        let r = before.round(m.rows[j].0, m.rows[j].1);
        round_ends(before, m.rows[j].0, pick, ends);
        assert forall|i: int| 0 <= i < m.settled().emit.len() implies !ends(
            #[trigger] m.settled().emit[i],
        ) by {
            if i < n {
                assert(m.settled().emit[i] == tokens[i]);
            } else {
                assert(m.settled().emit[i] == r.emit[i - n]);
            }
        }
    }
}

/// The stream ends only for a reason, and holds no token that ends it: as long
/// as the events report what the model does, the machine stops emitting exactly
/// where as many tokens as were asked for are out, or the model's next choice
/// ends the stream, or the context is full.
pub proof fn stream_ends_for_a_reason(
    m: Machine,
    ev: Event,
    prompt: Seq<u32>,
    pick: spec_fn(Seq<u32>) -> u32,
    ends: spec_fn(u32) -> bool,
)
    requires
        m.wf(),
        awaited(m, ev),
        faithful(m, ev, pick),
        stream_greedy(m, prompt, pick),
        honest(m, ev, ends),
    ensures
        ({
            let o = outcome(m, ev);
            &&& o.m.phase == Phase::Close || (o.m.phase == Phase::Over && m.phase != Phase::Close)
                ==> over_for_a_reason(o.m, pick, ends)
            &&& forall|i: int| 0 <= i < o.emit.len() ==> !ends(#[trigger] o.emit[i])
            &&& o.m.emitted == m.emitted + o.emit.len()
            &&& o.m.emitted <= o.m.max_tokens
            &&& o.m.max_tokens == m.max_tokens
            &&& o.m.ctx == m.ctx
            &&& o.m.mode == m.mode
        }),
{
    crate::decode::emits_no_stop(m, ev);
    match ev {
        Event::Picked(t, stop) => round_ends(m, t, pick, ends),
        Event::Verified(rows) => {
            let j = agreed(m.chain, rows@, 0);
            let m2 = Machine { rows: rows@, accepted: m.accepted + j, ..m };
            if !(m.mode is Layer) {
                settled_ends(m2, pick, ends);
            }
        },
        Event::Refilled => settled_ends(m, pick, ends),
        _ => {},
    }
}

/// A picked token is emitted at once unless it ends the stream, enough are out,
/// or the context is full; then nothing is.
pub proof fn picked_token_is_emitted(m: Machine, t: u32, stop: bool)
    requires
        m.wf(),
        m.phase == Phase::Pick,
    ensures
        ({
            let o = outcome(m, Event::Picked(t, stop));
            &&& o.emit == (if stop || full(m) || m.emitted == m.max_tokens {
                Seq::<u32>::empty()
            } else {
                seq![t]
            })
            &&& o.m.pos == m.pos
            &&& o.m.phase == Phase::Over <==> m.emitted == m.max_tokens
        }),
{
}

/// There is one greedy text: two streams that both follow the model's choices
/// from the same prompt, hold no token that ends them, and stop only after `most`
/// tokens or before one that ends them, are the same.
pub proof fn one_greedy_text(
    prompt: Seq<u32>,
    a: Seq<u32>,
    b: Seq<u32>,
    most: int,
    pick: spec_fn(Seq<u32>) -> u32,
    ends: spec_fn(u32) -> bool,
)
    requires
        greedy(pick, prompt, a),
        greedy(pick, prompt, b),
        forall|i: int| 0 <= i < a.len() ==> !ends(#[trigger] a[i]),
        forall|i: int| 0 <= i < b.len() ==> !ends(#[trigger] b[i]),
        a.len() <= most,
        b.len() <= most,
        a.len() == most || ends(pick(prompt + a)),
        b.len() == most || ends(pick(prompt + b)),
    ensures
        a == b,
{
    let n = if a.len() < b.len() {
        a.len() as int
    } else {
        b.len() as int
    };
    same_prefix(prompt, a, b, n, pick);
    if a.len() < b.len() {
        assert(a.take(n) =~= a);
        assert(b[n] == pick(prompt + b.take(n)));
        assert(!ends(b[n]));
    } else if b.len() < a.len() {
        assert(b.take(n) =~= b);
        assert(a[n] == pick(prompt + a.take(n)));
        assert(!ends(a[n]));
    } else {
        assert(a.take(n) =~= a);
        assert(b.take(n) =~= b);
    }
}

proof fn same_prefix(
    prompt: Seq<u32>,
    a: Seq<u32>,
    b: Seq<u32>,
    n: int,
    pick: spec_fn(Seq<u32>) -> u32,
)
    requires
        greedy(pick, prompt, a),
        greedy(pick, prompt, b),
        0 <= n <= a.len(),
        n <= b.len(),
    ensures
        a.take(n) == b.take(n),
    decreases n,
{
    if n > 0 {
        same_prefix(prompt, a, b, n - 1, pick);
        assert(a[n - 1] == pick(prompt + a.take(n - 1)));
        assert(b[n - 1] == pick(prompt + b.take(n - 1)));
        assert(a.take(n) =~= a.take(n - 1).push(a[n - 1]));
        assert(b.take(n) =~= b.take(n - 1).push(b[n - 1]));
    } else {
        assert(a.take(n) =~= b.take(n));
    }
}

/// How deep a round drafts. The draft layer drafts as many tokens as it is set to,
/// or as leave two positions free behind the token; repeated n-grams give the draft
/// that follows the history with the token, where there is one and it leaves two
/// positions free behind it and the token; else the token is run alone.
pub proof fn rounds_draft_as_asked(m: Machine, t: u32)
    requires
        m.wf(),
        m.phase == Phase::Pick,
        m.emitted < m.max_tokens,
        !full(m),
    ensures
        ({
            let o = outcome(m, Event::Picked(t, false));
            &&& m.mode == Mode::Plain ==> o.m.phase == Phase::Forward && o.m.drafted == m.drafted
            &&& m.mode matches Mode::Layer(d) ==> {
                &&& o.m.phase == Phase::Draft
                &&& o.m.chain == seq![t]
                &&& o.m.depth <= d && o.m.depth <= m.ctx - m.pos - 2
                &&& o.m.depth == d || o.m.depth == m.ctx - m.pos - 2
                &&& o.m.drafted == m.drafted
            }
            &&& m.mode matches Mode::Ngram(d) ==> {
                let draft = crate::ngram::ngram(m.hist.push(t), d as int);
                if draft.len() > 0 && m.pos + 2 + draft.len() < m.ctx {
                    &&& o.m.phase == Phase::Verify
                    &&& o.m.chain == seq![t] + draft
                    &&& o.m.drafted == m.drafted + draft.len()
                } else {
                    o.m.phase == Phase::Forward && o.m.drafted == m.drafted
                }
            }
        }),
{
}

/// A draft goes on until it is as deep as it is to be or a token that ends the
/// stream is drafted; each drafted token joins the chain and is counted.
pub proof fn draft_goes_to_its_depth(m: Machine, t: u32, stop: bool)
    requires
        m.wf(),
        m.phase == Phase::Draft,
    ensures
        ({
            let o = outcome(m, Event::Drafted(t, stop));
            &&& o.m.chain == m.chain.push(t)
            &&& o.m.drafted == m.drafted + 1
            &&& o.m.hist == m.hist && o.m.pos == m.pos && o.m.emitted == m.emitted
            &&& o.emit.len() == 0
            &&& o.m.phase == Phase::Verify <==> stop || m.chain.len() >= m.depth
            &&& o.m.phase == Phase::Verify || o.m.phase == Phase::Draft
        }),
{
}

} // verus!
