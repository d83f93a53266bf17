use pulsar::decode::{
    check_batch, choose_mode, forward_segments, prefill_chunks, tail_rows, BatchError, Decoder,
    Event, Mode, Phase, Todo,
};
use pulsar::ngram::ngram_draft;
use pulsar::rng::Rng;

/// A model whose greedy pick depends on the context alone.
fn pick(ctx: &[u32]) -> u32 {
    let n = ctx.len();
    let a = ctx.last().copied().unwrap_or(0);
    if n >= 2 && ctx[n - 2] == 3 {
        return 1;
    }
    (a * 7 + 3) % 5
}

const STOP: u32 = 99;

/// Runs the machine against `pick`; the draft layer guesses wrong now and then.
fn run(mode: Mode, prompt: &[u32], ctx: u32, max: usize, stop_at: usize) -> (Vec<u32>, u32) {
    let next = |c: &[u32]| if c.len() >= stop_at { STOP } else { pick(c) };
    let (mut d, mut todo) = Decoder::begin(mode, prompt, prompt.len() as u32, ctx, max);
    let mut out = Vec::new();
    let mut rows_total = 0;
    for _ in 0..1000 {
        let ev = match todo {
            Todo::Pick => {
                let t = next(&d.hist);
                Event::Picked(t, t == STOP)
            }
            Todo::Forward { .. } => Event::Forwarded,
            Todo::Draft { token, pos } => {
                assert_eq!(pos, d.pos + d.chain.len() as u32 - 1);
                let guess = if token % 2 == 0 { (token * 7 + 3) % 5 } else { 4 };
                Event::Drafted(guess, false)
            }
            Todo::Verify => {
                rows_total += d.chain.len();
                let mut ctx = d.hist.clone();
                let mut rows = Vec::new();
                for (i, &t) in d.chain.iter().enumerate() {
                    if i > 0 {
                        ctx.push(t);
                    }
                    let p = next(&ctx);
                    rows.push((p, p == STOP));
                }
                Event::Verified(rows)
            }
            Todo::Refill { rows } => {
                assert!(rows >= 1 && rows as usize <= d.chain.len());
                Event::Refilled
            }
            Todo::Over => {
                assert_eq!(d.emitted, out.len());
                assert!(rows_total == 0 || d.drafted > 0);
                return (out, d.pos);
            }
        };
        let a = d.step(ev);
        out.extend(a.emit);
        todo = a.todo;
    }
    panic!("the machine did not stop");
}

#[test]
fn speculation_does_not_change_the_stream() {
    let prompt = [1, 2, 3, 4, 0, 3, 1, 2, 3];
    for max in [0, 1, 7, 40] {
        for stop_at in [12, 20, 1000] {
            let (plain, _) = run(Mode::Plain, &prompt, 200, max, stop_at);
            let (ngram, _) = run(Mode::Ngram(4), &prompt, 200, max, stop_at);
            let (layer, _) = run(Mode::Layer(3), &prompt, 200, max, stop_at);
            assert_eq!(plain, ngram);
            assert_eq!(plain, layer);
            assert!(plain.len() <= max);
            assert!(!plain.contains(&STOP));
        }
    }
}

#[test]
fn the_context_is_never_exceeded() {
    let prompt = [1, 2, 3, 4, 0, 3, 1, 2, 3];
    for ctx in 9..24 {
        for mode in [Mode::Plain, Mode::Ngram(5), Mode::Layer(4)] {
            let (d, _) = Decoder::begin(mode, &prompt, 9, ctx, 50);
            assert_eq!(d.phase, Phase::Pick);
            if ctx > 9 {
                let (out, pos) = run(mode, &prompt, ctx, 50, 1000);
                assert!(pos <= ctx);
                assert!(out.len() < (ctx - 8) as usize);
            }
        }
    }
}

#[test]
fn the_stop_token_is_forwarded_but_not_emitted() {
    let (out, pos) = run(Mode::Plain, &[1, 2], 100, 50, 4);
    assert_eq!(out.len(), 2);
    assert_eq!(pos, 5);
}

#[test]
fn plain_decoding_of_nothing_is_over_at_once() {
    let (d, todo) = Decoder::begin(Mode::Plain, &[1], 1, 10, 0);
    assert_eq!((todo, d.phase), (Todo::Over, Phase::Over));
    let (_, todo) = Decoder::begin(Mode::Ngram(1), &[1], 1, 10, 0);
    assert_eq!(todo, Todo::Pick);
}

#[test]
fn modes_follow_sampler_model_and_setting() {
    assert_eq!(choose_mode(false, true, 3, Some("4")), Mode::Plain);
    assert_eq!(choose_mode(true, true, 3, Some("4")), Mode::Layer(3));
    assert_eq!(choose_mode(true, true, 0, None), Mode::Layer(1));
    assert_eq!(choose_mode(true, false, 0, Some("4")), Mode::Ngram(4));
    assert_eq!(choose_mode(true, false, 0, Some("0")), Mode::Ngram(1));
    assert_eq!(choose_mode(true, false, 0, Some("99")), Mode::Ngram(15));
    assert_eq!(choose_mode(true, false, 0, Some("x")), Mode::Plain);
    assert_eq!(choose_mode(true, false, 0, None), Mode::Plain);
}

#[test]
fn drafts_follow_the_last_recurrence() {
    assert_eq!(ngram_draft(&[1, 2, 3, 9, 8, 1, 2, 3], 2), vec![9, 8]);
    assert_eq!(ngram_draft(&[1, 2, 3, 9, 8, 1, 2, 3], 1), vec![9]);
    // the later of two occurrences
    assert_eq!(ngram_draft(&[1, 2, 3, 9, 1, 2, 3, 7, 1, 2, 3], 1), vec![7]);
    // four tokens before three
    assert_eq!(ngram_draft(&[0, 1, 2, 3, 5, 1, 2, 3, 6, 0, 1, 2, 3], 1), vec![5]);
    // no follower before the ending itself
    assert_eq!(ngram_draft(&[1, 2, 3, 1, 2, 3], 4), Vec::<u32>::new());
    assert_eq!(ngram_draft(&[1, 2, 3], 4), Vec::<u32>::new());
    assert_eq!(ngram_draft(&[1, 2, 3, 4, 5, 6], 4), Vec::<u32>::new());
}

#[test]
fn prompts_are_cut_into_chunks() {
    let v = prefill_chunks(10, 4, 100);
    let got: Vec<(usize, usize, u32)> = v.iter().map(|c| (c.start, c.len, c.pos)).collect();
    assert_eq!(got, vec![(0, 4, 100), (4, 4, 104), (8, 2, 108)]);
    assert!(prefill_chunks(0, 4, 0).is_empty());
    // a batch of one is decoding
    let one = prefill_chunks(3, 1, 7);
    let got: Vec<(usize, usize, u32)> = one.iter().map(|c| (c.start, c.len, c.pos)).collect();
    assert_eq!(got, vec![(0, 1, 7), (1, 1, 8), (2, 1, 9)]);
}

#[test]
fn batches_are_split_at_the_limit() {
    let v = forward_segments(10, 2040, 3, 2048);
    let got: Vec<(usize, usize, u32, u32)> =
        v.iter().map(|s| (s.start, s.len, s.pos, s.rows)).collect();
    // the last three rows: one of the first run, both of the second
    assert_eq!(got, vec![(0, 8, 2040, 1), (8, 2, 2048, 2)]);
    let rows = |n: u32| -> Vec<u32> {
        forward_segments(10, 2040, n, 2048).iter().map(|s| s.rows).collect()
    };
    assert_eq!((rows(0), rows(2), rows(10)), (vec![0, 0], vec![0, 2], vec![8, 2]));
    assert_eq!(forward_segments(8, 2040, 1, 2048).len(), 1);
    assert_eq!(forward_segments(10, 2048, 1, 2048).len(), 1);
    assert_eq!(forward_segments(10, 2040, 1, 0).len(), 1);
}

#[test]
fn batches_are_checked() {
    assert_eq!(check_batch(4, 0, 4, 100), Ok(()));
    assert_eq!(check_batch(0, 0, 4, 100), Err(BatchError::Size));
    assert_eq!(check_batch(5, 0, 4, 100), Err(BatchError::Size));
    assert_eq!(check_batch(4, 97, 4, 100), Err(BatchError::Context));
    assert_eq!(check_batch(4, 96, 4, 100), Ok(()));
    assert_eq!(tail_rows(3, 8), (3, 5));
    assert_eq!(tail_rows(9, 8), (8, 0));
}

#[test]
fn random_numbers_are_reproducible() {
    let mut a = Rng::new(42);
    let mut b = Rng::new(42);
    assert_eq!(a.state, 43);
    let first = a.next24();
    let mut x: u64 = 43;
    x ^= x >> 12;
    x ^= x << 25;
    x ^= x >> 27;
    assert_eq!(first as u64, x.wrapping_mul(0x2545F4914F6CDD1D) >> 40);
    assert_eq!(first, b.next24());
    for _ in 0..100 {
        assert!(a.next24() < 1 << 24);
        assert_ne!(a.state, 0);
    }
    assert_eq!(Rng::new(0).state, 1);
}
