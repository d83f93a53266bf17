//! The Kimi K2 pre-tokenizer: Han runs stand alone, contractions stay with
//! their word, and everything else is cut as in [`crate::glm4`].

use vstd::prelude::*;
use vstd::slice::slice_subrange;

use crate::bytes::{
    after_char, codepoint, contents, contents_push, joined, pieces_from, pieces_rejoin,
};
use crate::glm4::{
    contraction_end, glm4_char_at, is_letter, is_newline, is_number, kimi_is_han, kind_at,
    skip_contraction, skip_span, skip_tail, span_end, span_end_bounds, tail_end, tail_end_bounds,
    Glm4Char, Kind,
};

verus! {

/// Where the piece that starts at `pos` ends: a run of Han ideographs; or
/// other letters, optionally led by one character that is no newline, letter
/// or digit, together with a contraction behind them; or what
/// [`tail_end`] says.
pub open spec fn kimi_end(s: Seq<u8>, pos: int) -> int {
    let cp = codepoint(s, pos);
    let next = after_char(s, pos);
    if kind_at(s, pos, Kind::Han) {
        span_end(s, pos, Kind::Han)
    } else if is_letter(cp) || (!is_newline(cp) && !is_number(cp) && kind_at(
        s,
        next,
        Kind::WordLetter,
    )) {
        contraction_end(s, span_end(s, next, Kind::WordLetter))
    } else {
        tail_end(s, pos)
    }
}

/// The pieces of `s`.
pub open spec fn kimi_pieces(s: Seq<u8>) -> Seq<Seq<u8>> {
    pieces_from(s, 0, |p: int| kimi_end(s, p))
}

/// Every piece is non-empty and inside the text.
pub proof fn kimi_end_bounds(s: Seq<u8>, pos: int)
    requires
        0 <= pos < s.len(),
    ensures
        pos < kimi_end(s, pos) <= s.len(),
{
    span_end_bounds(s, pos, Kind::Han);
    span_end_bounds(s, after_char(s, pos), Kind::WordLetter);
    tail_end_bounds(s, pos);
}

/// The pieces of a text, put back together, are the text; none is empty.
pub proof fn kimi_pieces_rejoin(s: Seq<u8>)
    ensures
        joined(kimi_pieces(s)) == s,
        forall|i: int| 0 <= i < kimi_pieces(s).len() ==> #[trigger] kimi_pieces(s)[i].len() > 0,
{
    let step = |p: int| kimi_end(s, p);
    assert forall|p: int| 0 <= p < s.len() implies p < #[trigger] step(p) <= s.len() by {
        kimi_end_bounds(s, p);
    }
    pieces_rejoin(s, 0, step);
    assert(s.subrange(0, s.len() as int) =~= s);
}

fn kimi_piece(s: &[u8], pos: usize) -> (r: usize)
    requires
        pos < s@.len(),
    ensures
        r == kimi_end(s@, pos as int),
{
    let cur: Glm4Char = glm4_char_at(s, pos);
    if kimi_is_han(cur.cp) {
        return skip_span(s, cur.next, Kind::Han);
    }
    let leading_ok: bool = !(cur.cp == 0x0d || cur.cp == 0x0a || cur.is_letter || cur.is_number);
    let next: Glm4Char = glm4_char_at(s, cur.next);
    let next_word_letter: bool = next.valid && next.is_letter && !kimi_is_han(next.cp);
    if cur.is_letter || (leading_ok && next_word_letter) {
        let p: usize = skip_span(s, cur.next, Kind::WordLetter);
        return skip_contraction(s, p);
    }
    skip_tail(s, pos)
}

/// Cuts `s` into pieces.
pub fn pretokenize_kimi_k2(s: &[u8]) -> (out: Vec<&[u8]>)
    ensures
        contents(out@) == kimi_pieces(s@),
{
    let ghost step = |p: int| kimi_end(s@, p);
    let mut out: Vec<&[u8]> = Vec::new();
    let mut pos: usize = 0;
    assert(contents(out@) + kimi_pieces(s@) =~= kimi_pieces(s@));
    while pos < s.len()
        invariant
            pos <= s@.len(),
            step == (|p: int| kimi_end(s@, p)),
            contents(out@) + pieces_from(s@, pos as int, step) == kimi_pieces(s@),
        decreases s@.len() - pos,
    {
        let start: usize = pos;
        pos = kimi_piece(s, start);
        proof {
            kimi_end_bounds(s@, start as int);
        }
        assert(pos == step(start as int));
        let piece: &[u8] = slice_subrange(s, start, pos);
        let ghost before = contents(out@);
        proof {
            contents_push(out@, piece);
        }
        out.push(piece);
        assert(before + pieces_from(s@, start as int, step) =~= contents(out@) + pieces_from(
            s@,
            pos as int,
            step,
        ));
    }
    assert(contents(out@) =~= contents(out@) + pieces_from(s@, pos as int, step));
    out
}

} // verus!
