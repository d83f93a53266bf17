//! The default pre-tokenizer: cuts text into the words that byte-pair merges
//! work inside of. The cut decides which merges are possible, so it is exact.

use vstd::prelude::*;
use vstd::slice::slice_subrange;

use crate::bytes::{
    after_char, ascii_alpha, ascii_digit, ascii_newline, ascii_space, codepoint, contents,
    contents_push, in_class, joined, next_char, peek_codepoint, pieces_from, pieces_rejoin,
    punct_symbol, run_end, run_end_bounds, skip_run, Class,
};

verus! {

/// Common CJK ideographs, hiragana and katakana.
pub open spec fn is_cjk(s: Seq<u8>, pos: int) -> bool {
    let cp = codepoint(s, pos);
    s[pos] >= 128 && (0x4e00 <= cp <= 0x9fa5 || 0x3040 <= cp <= 0x30ff)
}

/// Whether a CJK character stands at `pos`.
pub fn cjk_at(s: &[u8], pos: usize) -> (r: bool)
    requires
        pos < s@.len(),
    ensures
        r == is_cjk(s@, pos as int),
{
    if s[pos] < 128 {
        return false;
    }
    let cp: u32 = peek_codepoint(s, pos);
    (0x4e00 <= cp && cp <= 0x9fa5) || (0x3040 <= cp && cp <= 0x309f) || (0x30a0 <= cp && cp
        <= 0x30ff)
}

/// ASCII letters and every non-ASCII byte.
pub open spec fn letter_like(c: u8) -> bool {
    c >= 128 || in_class(c, Class::Alpha)
}

/// Whether a letter stands at `pos`; any non-ASCII character counts as one.
pub fn letter_like_at(s: &[u8], pos: usize) -> (r: bool)
    requires
        pos < s@.len(),
    ensures
        r == letter_like(s@[pos as int]),
{
    let c: u8 = s[pos];
    if c < 128 {
        ascii_alpha(c)
    } else {
        true
    }
}

/// Where the run of letters that starts at `pos` ends.
pub open spec fn letters_end(s: Seq<u8>, pos: int) -> int
    decreases s.len() - pos,
{
    if 0 <= pos < s.len() && letter_like(s[pos]) {
        letters_end(s, after_char(s, pos))
    } else {
        pos
    }
}

/// Skips the letters at `pos`.
pub fn consume_letters(s: &[u8], pos: usize) -> (r: usize)
    requires
        pos <= s@.len(),
    ensures
        r == letters_end(s@, pos as int),
        pos <= r <= s@.len(),
{
    let mut p: usize = pos;
    while p < s.len() && letter_like_at(s, p)
        invariant
            pos <= p <= s@.len(),
            letters_end(s@, p as int) == letters_end(s@, pos as int),
        decreases s@.len() - p,
    {
        p = next_char(s, p);
    }
    p
}

/// Where the run of CJK characters that starts at `pos` ends.
pub open spec fn cjk_end(s: Seq<u8>, pos: int) -> int
    decreases s.len() - pos,
{
    if 0 <= pos < s.len() && is_cjk(s, pos) {
        cjk_end(s, after_char(s, pos))
    } else {
        pos
    }
}

/// Where a group of at most `n` digits that starts at `pos` ends.
pub open spec fn digits_end(s: Seq<u8>, pos: int, n: nat) -> int
    decreases n,
{
    if n > 0 && 0 <= pos < s.len() && in_class(s[pos], Class::Digit) {
        digits_end(s, pos + 1, (n - 1) as nat)
    } else {
        pos
    }
}

/// End of the last newline byte in `s[from..to]`, or 0 when there is none.
pub open spec fn last_newline_end(s: Seq<u8>, from: int, to: int) -> int
    decreases to - from,
{
    if to <= from {
        0
    } else if in_class(s[to - 1], Class::Newline) {
        to
    } else {
        last_newline_end(s, from, to - 1)
    }
}

/// Where a piece that starts with whitespace ends: after the last newline of
/// the run if it has one; otherwise before its last space when a word or
/// symbol follows a run of two or more (that space joins it); otherwise at
/// the end of the run.
pub open spec fn space_end(s: Seq<u8>, pos: int) -> int {
    let p = run_end(s, pos, Class::Space);
    let nl = last_newline_end(s, pos, p);
    if nl != 0 {
        nl
    } else if p < s.len() && p > pos + 1 && (letter_like(s[p]) || in_class(s[p], Class::Punct)) {
        p - 1
    } else {
        p
    }
}

/// Where the piece that starts at `pos` ends; the first rule that applies wins.
pub open spec fn word_end(s: Seq<u8>, pos: int) -> int {
    let c = s[pos];
    let more = pos + 1 < s.len();
    if in_class(c, Class::Digit) {
        digits_end(s, pos, 3)
    } else if is_cjk(s, pos) {
        cjk_end(s, pos)
    } else if in_class(c, Class::Punct) && more && in_class(s[pos + 1], Class::Alpha) {
        run_end(s, pos + 1, Class::Alpha)
    } else if letter_like(c) {
        letters_end(s, pos)
    } else if !in_class(c, Class::Newline) && !in_class(c, Class::Punct) && more && letter_like(
        s[pos + 1],
    ) {
        letters_end(s, pos + 1)
    } else if c == 0x20 && more && in_class(s[pos + 1], Class::Punct) {
        run_end(s, run_end(s, pos + 1, Class::Punct), Class::Newline)
    } else if in_class(c, Class::Punct) {
        run_end(s, run_end(s, pos, Class::Punct), Class::Newline)
    } else if in_class(c, Class::Space) {
        space_end(s, pos)
    } else {
        after_char(s, pos)
    }
}

/// The words of `s`.
pub open spec fn words(s: Seq<u8>) -> Seq<Seq<u8>> {
    pieces_from(s, 0, |p: int| word_end(s, p))
}

proof fn letters_end_bounds(s: Seq<u8>, pos: int)
    requires
        0 <= pos <= s.len(),
    ensures
        pos <= letters_end(s, pos) <= s.len(),
        pos < s.len() && letter_like(s[pos]) ==> pos < letters_end(s, pos),
    decreases s.len() - pos,
{
    if pos < s.len() && letter_like(s[pos]) {
        letters_end_bounds(s, after_char(s, pos));
    }
}

proof fn cjk_end_bounds(s: Seq<u8>, pos: int)
    requires
        0 <= pos <= s.len(),
    ensures
        pos <= cjk_end(s, pos) <= s.len(),
        pos < s.len() && is_cjk(s, pos) ==> pos < cjk_end(s, pos),
    decreases s.len() - pos,
{
    if pos < s.len() && is_cjk(s, pos) {
        cjk_end_bounds(s, after_char(s, pos));
    }
}

/// A digit group takes at most `n` bytes, all of them digits, and at least
/// one where a digit stands.
pub proof fn digits_end_bounds(s: Seq<u8>, pos: int, n: nat)
    requires
        0 <= pos <= s.len(),
    ensures
        pos <= digits_end(s, pos, n) <= s.len(),
        digits_end(s, pos, n) <= pos + n,
        n > 0 && pos < s.len() && in_class(s[pos], Class::Digit) ==> pos < digits_end(s, pos, n),
        forall|i: int| pos <= i < digits_end(s, pos, n) ==> in_class(#[trigger] s[i], Class::Digit),
    decreases n,
{
    if n > 0 && pos < s.len() && in_class(s[pos], Class::Digit) {
        digits_end_bounds(s, pos + 1, (n - 1) as nat);
    }
}

proof fn last_newline_bounds(s: Seq<u8>, from: int, to: int)
    requires
        0 <= from <= to <= s.len(),
    ensures
        last_newline_end(s, from, to) == 0 || from < last_newline_end(s, from, to) <= to,
    decreases to - from,
{
    if from < to && !in_class(s[to - 1], Class::Newline) {
        last_newline_bounds(s, from, to - 1);
    }
}

/// Every word is non-empty and inside the text.
pub proof fn word_end_bounds(s: Seq<u8>, pos: int)
    requires
        0 <= pos < s.len(),
    ensures
        pos < word_end(s, pos) <= s.len(),
{
    digits_end_bounds(s, pos, 3);
    cjk_end_bounds(s, pos);
    letters_end_bounds(s, pos);
    run_end_bounds(s, pos, Class::Punct);
    run_end_bounds(s, run_end(s, pos, Class::Punct), Class::Newline);
    run_end_bounds(s, pos, Class::Space);
    last_newline_bounds(s, pos, run_end(s, pos, Class::Space));
    if pos + 1 < s.len() {
        run_end_bounds(s, pos + 1, Class::Alpha);
        letters_end_bounds(s, pos + 1);
        run_end_bounds(s, pos + 1, Class::Punct);
        run_end_bounds(s, run_end(s, pos + 1, Class::Punct), Class::Newline);
    }
}

/// The words of a text, put back together, are the text; none is empty.
pub proof fn words_rejoin(s: Seq<u8>)
    ensures
        joined(words(s)) == s,
        forall|i: int| 0 <= i < words(s).len() ==> #[trigger] words(s)[i].len() > 0,
{
    let step = |p: int| word_end(s, p);
    assert forall|p: int| 0 <= p < s.len() implies p < #[trigger] step(p) <= s.len() by {
        word_end_bounds(s, p);
    }
    pieces_rejoin(s, 0, step);
    assert(s.subrange(0, s.len() as int) =~= s);
}

fn consume_cjk(s: &[u8], pos: usize) -> (r: usize)
    requires
        pos <= s@.len(),
    ensures
        r == cjk_end(s@, pos as int),
        pos <= r <= s@.len(),
{
    let mut p: usize = pos;
    while p < s.len() && cjk_at(s, p)
        invariant
            pos <= p <= s@.len(),
            cjk_end(s@, p as int) == cjk_end(s@, pos as int),
        decreases s@.len() - p,
    {
        p = next_char(s, p);
    }
    p
}

fn consume_digits(s: &[u8], pos: usize) -> (r: usize)
    requires
        pos <= s@.len(),
    ensures
        r == digits_end(s@, pos as int, 3),
        pos <= r <= s@.len(),
{
    let mut p: usize = pos;
    let mut n: usize = 0;
    while p < s.len() && ascii_digit(s[p]) && n < 3
        invariant
            pos <= p <= s@.len(),
            n <= 3,
            digits_end(s@, p as int, (3 - n) as nat) == digits_end(s@, pos as int, 3),
        decreases s@.len() - p,
    {
        p += 1;
        n += 1;
    }
    p
}

fn consume_space(s: &[u8], pos: usize) -> (r: usize)
    requires
        pos < s@.len(),
        in_class(s@[pos as int], Class::Space),
    ensures
        r == space_end(s@, pos as int),
        pos < r <= s@.len(),
{
    let mut p: usize = pos;
    let mut nl: usize = 0;
    while p < s.len() && ascii_space(s[p])
        invariant
            pos <= p <= s@.len(),
            run_end(s@, p as int, Class::Space) == run_end(s@, pos as int, Class::Space),
            nl == last_newline_end(s@, pos as int, p as int),
        decreases s@.len() - p,
    {
        let c: u8 = s[p];
        p += 1;
        if ascii_newline(c) {
            nl = p;
        }
    }
    proof {
        run_end_bounds(s@, pos as int, Class::Space);
        last_newline_bounds(s@, pos as int, p as int);
    }
    if nl != 0 {
        nl
    } else if p < s.len() && p > pos + 1 && (letter_like_at(s, p) || punct_symbol(s[p])) {
        p - 1
    } else {
        p
    }
}

/// Cuts `s` into words.
pub fn pretokenize(s: &[u8]) -> (out: Vec<&[u8]>)
    ensures
        contents(out@) == words(s@),
{
    let len: usize = s.len();
    let ghost step = |p: int| word_end(s@, p);
    let mut out: Vec<&[u8]> = Vec::new();
    let mut pos: usize = 0;
    assert(contents(out@) + words(s@) =~= words(s@));
    while pos < len
        invariant
            len == s@.len(),
            pos <= len,
            step == (|p: int| word_end(s@, p)),
            contents(out@) + pieces_from(s@, pos as int, step) == words(s@),
        decreases len - pos,
    {
        let start: usize = pos;
        let c: u8 = s[pos];
        if ascii_digit(c) {
            pos = consume_digits(s, pos);
        } else if cjk_at(s, pos) {
            pos = consume_cjk(s, pos);
        } else if punct_symbol(c) && pos + 1 < len && ascii_alpha(s[pos + 1]) {
            pos = skip_run(s, pos + 1, Class::Alpha);
        } else if letter_like_at(s, pos) {
            pos = consume_letters(s, pos);
        } else if !ascii_newline(c) && !punct_symbol(c) && pos + 1 < len && letter_like_at(
            s,
            pos + 1,
        ) {
            pos = consume_letters(s, pos + 1);
        } else if c == 0x20 && pos + 1 < len && punct_symbol(s[pos + 1]) {
            let p: usize = skip_run(s, pos + 1, Class::Punct);
            pos = skip_run(s, p, Class::Newline);
        } else if punct_symbol(c) {
            let p: usize = skip_run(s, pos, Class::Punct);
            pos = skip_run(s, p, Class::Newline);
        } else if ascii_space(c) {
            pos = consume_space(s, pos);
        } else {
            pos = next_char(s, pos);
        }
        proof {
            word_end_bounds(s@, start as int);
        }
        assert(pos == step(start as int));
        let piece: &[u8] = slice_subrange(s, start, pos);
        let ghost before = contents(out@);
        proof {
            contents_push(out@, piece);
        }
        out.push(piece);
        assert(before + pieces_from(s@, start as int, step) =~= contents(out@) + pieces_from(
            s@,
            pos as int,
            step,
        ));
    }
    assert(contents(out@) =~= contents(out@) + pieces_from(s@, pos as int, step));
    out
}

} // verus!
