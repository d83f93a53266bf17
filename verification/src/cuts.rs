//! What the words of a text are, said of the text and its cuts alone.

use vstd::prelude::*;

#[allow(unused_imports)]
use crate::bytes::{
    after_char, codepoint, in_class, pieces_from, run_end, run_end_bounds, steps_within, Class,
};
#[allow(unused_imports)]
use crate::pretokenize::{
    cjk_end, digits_end, digits_end_bounds, is_cjk, last_newline_end, letter_like, letters_end,
    space_end, word_end, word_end_bounds, words,
};

verus! {

/// Where piece `i` begins: behind all pieces before it.
pub open spec fn offset(pieces: Seq<Seq<u8>>, i: int) -> int
    decreases i,
{
    if i <= 0 {
        0
    } else {
        offset(pieces, i - 1) + pieces[i - 1].len()
    }
}

proof fn offset_behind_first(first: Seq<u8>, rest: Seq<Seq<u8>>, i: int)
    requires
        1 <= i <= rest.len() + 1,
    ensures
        offset(seq![first] + rest, i) == first.len() + offset(rest, i - 1),
    decreases i,
{
    let all = seq![first] + rest;
    if i > 1 {
        offset_behind_first(first, rest, i - 1);
        assert(all[i - 1] == rest[i - 2]);
    } else {
        assert(offset(all, 0) == 0);
        assert(all[0] == first);
    }
}

/// A piece begins where the pieces before it end, and ends where the step from
/// there says.
pub(crate) proof fn piece_begins_at_offset(
    s: Seq<u8>,
    pos: int,
    step: spec_fn(int) -> int,
    i: int,
)
    requires
        0 <= pos <= s.len(),
        steps_within(s, step),
        0 <= i < pieces_from(s, pos, step).len(),
    ensures
        ({
            let pieces = pieces_from(s, pos, step);
            let a = pos + offset(pieces, i);
            &&& 0 <= a < s.len()
            &&& pieces[i] == s.subrange(a, step(a))
            &&& a + pieces[i].len() == step(a)
            &&& a < step(a) <= s.len()
        }),
    decreases s.len() - pos,
{
    if pos < s.len() {
        let e = step(pos);
        let pieces = pieces_from(s, pos, step);
        let rest = pieces_from(s, e, step);
        assert(pieces == seq![s.subrange(pos, e)] + rest);
        if i > 0 {
            piece_begins_at_offset(s, e, step, i - 1);
            offset_behind_first(s.subrange(pos, e), rest, i);
            assert(pieces[i] == rest[i - 1]);
        }
    }
}

/// Whether `s[a..b]` is all of one class and cannot be made longer.
pub open spec fn is_run(s: Seq<u8>, a: int, b: int, class: Class) -> bool {
    &&& 0 <= a <= b <= s.len()
    &&& forall|i: int| a <= i < b ==> in_class(#[trigger] s[i], class)
    &&& b < s.len() ==> !in_class(s[b], class)
}

pub(crate) proof fn run_end_is_run(s: Seq<u8>, a: int, class: Class)
    requires
        0 <= a <= s.len(),
    ensures
        is_run(s, a, run_end(s, a, class), class),
    decreases s.len() - a,
{
    if a < s.len() && in_class(s[a], class) {
        run_end_is_run(s, a + 1, class);
    }
}

/// Whether `cuts` are the starts of characters that follow each other, the last
/// being where they end, all of them of a kind.
pub open spec fn walk(s: Seq<u8>, cuts: Seq<int>, p: spec_fn(int) -> bool) -> bool {
    &&& cuts.len() >= 1
    &&& forall|k: int|
        0 <= k < cuts.len() - 1 ==> {
            &&& 0 <= #[trigger] cuts[k] < s.len()
            &&& p(cuts[k])
            &&& cuts[k + 1] == after_char(s, cuts[k])
        }
}

/// Whether `s[a..b]` is made of whole characters of a kind, and no further one
/// follows.
pub open spec fn is_span(s: Seq<u8>, a: int, b: int, p: spec_fn(int) -> bool) -> bool {
    &&& exists|cuts: Seq<int>| #[trigger] walk(s, cuts, p) && cuts[0] == a && cuts.last() == b
    &&& 0 <= b < s.len() ==> !p(b)
}

/// One more character in front.
pub(crate) proof fn walk_prepend(s: Seq<u8>, a: int, cuts: Seq<int>, p: spec_fn(int) -> bool)
    requires
        walk(s, cuts, p),
        0 <= a < s.len(),
        p(a),
        cuts[0] == after_char(s, a),
    ensures
        walk(s, seq![a] + cuts, p),
        (seq![a] + cuts)[0] == a,
        (seq![a] + cuts).last() == cuts.last(),
{
    let all = seq![a] + cuts;
    assert forall|k: int| 0 <= k < all.len() - 1 implies {
        &&& 0 <= #[trigger] all[k] < s.len()
        &&& p(all[k])
        &&& all[k + 1] == after_char(s, all[k])
    } by {
        if k > 0 {
            assert(all[k] == cuts[k - 1]);
            assert(all[k + 1] == cuts[k]);
        }
    }
}

pub(crate) proof fn span_grows(s: Seq<u8>, a: int, b: int, p: spec_fn(int) -> bool)
    requires
        0 <= a < s.len(),
        p(a),
        is_span(s, after_char(s, a), b, p),
    ensures
        is_span(s, a, b, p),
{
    let cuts = choose|cuts: Seq<int>|
        #[trigger] walk(s, cuts, p) && cuts[0] == after_char(s, a) && cuts.last() == b;
    walk_prepend(s, a, cuts, p);
}

pub(crate) proof fn span_empty(s: Seq<u8>, a: int, p: spec_fn(int) -> bool)
    requires
        0 <= a < s.len() ==> !p(a),
    ensures
        is_span(s, a, a, p),
{
    let cuts = seq![a];
    assert(walk(s, cuts, p));
    assert(cuts.last() == a);
}

proof fn letters_span(s: Seq<u8>, a: int)
    requires
        0 <= a <= s.len(),
    ensures
        is_span(s, a, letters_end(s, a), |p: int| letter_like(s[p])),
    decreases s.len() - a,
{
    let p = |p: int| letter_like(s[p]);
    if a < s.len() && letter_like(s[a]) {
        letters_span(s, after_char(s, a));
        span_grows(s, a, letters_end(s, a), p);
    } else {
        span_empty(s, a, p);
    }
}

proof fn cjk_span(s: Seq<u8>, a: int)
    requires
        0 <= a <= s.len(),
    ensures
        is_span(s, a, cjk_end(s, a), |p: int| is_cjk(s, p)),
    decreases s.len() - a,
{
    let p = |p: int| is_cjk(s, p);
    if a < s.len() && is_cjk(s, a) {
        cjk_span(s, after_char(s, a));
        span_grows(s, a, cjk_end(s, a), p);
    } else {
        span_empty(s, a, p);
    }
}

proof fn digits_maximal(s: Seq<u8>, a: int, n: nat)
    requires
        0 <= a <= s.len(),
    ensures
        ({
            let b = digits_end(s, a, n);
            b < a + n && b < s.len() ==> !in_class(s[b], Class::Digit)
        }),
    decreases n,
{
    if n > 0 && a < s.len() && in_class(s[a], Class::Digit) {
        digits_maximal(s, a + 1, (n - 1) as nat);
    }
}

proof fn last_newline_is_last(s: Seq<u8>, a: int, p: int)
    requires
        0 <= a <= p <= s.len(),
    ensures
        ({
            let b = last_newline_end(s, a, p);
            &&& b == 0 ==> forall|i: int| a <= i < p ==> !in_class(#[trigger] s[i], Class::Newline)
            &&& b != 0 ==> {
                &&& a < b <= p
                &&& in_class(s[b - 1], Class::Newline)
                &&& forall|i: int| b <= i < p ==> !in_class(#[trigger] s[i], Class::Newline)
            }
        }),
    decreases p - a,
{
    if a < p && !in_class(s[p - 1], Class::Newline) {
        last_newline_is_last(s, a, p - 1);
    }
}

/// The cut of word `i`: it is not empty, is the text between its ends, and
/// begins where the word before it ends.
pub proof fn word_stands_in_text(s: Seq<u8>, i: int)
    requires
        0 <= i < words(s).len(),
    ensures
        ({
            let a = offset(words(s), i);
            let b = a + words(s)[i].len();
            &&& 0 <= a < b <= s.len()
            &&& words(s)[i] == s.subrange(a, b)
            &&& b == word_end(s, a)
        }),
{
    let step = |p: int| word_end(s, p);
    assert forall|p: int| 0 <= p < s.len() implies p < #[trigger] step(p) <= s.len() by {
        word_end_bounds(s, p);
    }
    piece_begins_at_offset(s, 0, step, i);
}

/// A word that begins with a digit is one to three digits, and three unless no
/// more digits follow.
pub proof fn digits_stand_by_threes(s: Seq<u8>, i: int)
    requires
        0 <= i < words(s).len(),
        0x30 <= words(s)[i][0] <= 0x39,
    ensures
        ({
            let a = offset(words(s), i);
            let b = a + words(s)[i].len();
            &&& 1 <= b - a <= 3
            &&& forall|k: int| a <= k < b ==> 0x30 <= #[trigger] s[k] <= 0x39
            &&& b - a < 3 && b < s.len() ==> !(0x30 <= s[b] <= 0x39)
        }),
{
    word_stands_in_text(s, i);
    let a = offset(words(s), i);
    digits_end_bounds(s, a, 3);
    digits_maximal(s, a, 3);
}

/// A word that begins with an ideograph or a kana is a run of these, as long as
/// it can be.
pub proof fn ideographs_stand_together(s: Seq<u8>, i: int)
    requires
        0 <= i < words(s).len(),
        is_cjk(s, offset(words(s), i)),
    ensures
        ({
            let a = offset(words(s), i);
            let b = a + words(s)[i].len();
            is_span(s, a, b, |p: int| is_cjk(s, p))
        }),
{
    word_stands_in_text(s, i);
    let a = offset(words(s), i);
    cjk_span(s, a);
}

/// A word that begins with any other letter is a run of letters, as long as it
/// can be. Every character beyond ASCII counts as a letter.
pub proof fn letters_stand_together(s: Seq<u8>, i: int)
    requires
        0 <= i < words(s).len(),
        letter_like(words(s)[i][0]),
        !is_cjk(s, offset(words(s), i)),
    ensures
        ({
            let a = offset(words(s), i);
            let b = a + words(s)[i].len();
            is_span(s, a, b, |p: int| letter_like(s[p]))
        }),
{
    word_stands_in_text(s, i);
    let a = offset(words(s), i);
    letters_span(s, a);
}

/// Punctuation directly before an ASCII letter stands with the letters behind it.
pub proof fn punctuation_joins_letters(s: Seq<u8>, i: int)
    requires
        0 <= i < words(s).len(),
        ({
            let a = offset(words(s), i);
            &&& a + 1 < s.len()
            &&& in_class(s[a], Class::Punct)
            &&& in_class(s[a + 1], Class::Alpha)
        }),
    ensures
        ({
            let a = offset(words(s), i);
            let b = a + words(s)[i].len();
            &&& b > a + 1
            &&& is_run(s, a + 1, b, Class::Alpha)
        }),
{
    word_stands_in_text(s, i);
    let a = offset(words(s), i);
    run_end_is_run(s, a + 1, Class::Alpha);
    run_end_bounds(s, a + 1, Class::Alpha);
}

/// A space, or any other character that is no newline, digit, punctuation or
/// letter, stands with the letters behind it.
#[verifier::rlimit(30)]
pub proof fn space_joins_letters(s: Seq<u8>, i: int)
    requires
        0 <= i < words(s).len(),
        ({
            let a = offset(words(s), i);
            &&& a + 1 < s.len()
            &&& !in_class(s[a], Class::Newline)
            &&& !in_class(s[a], Class::Digit)
            &&& !in_class(s[a], Class::Punct)
            &&& !letter_like(s[a])
            &&& letter_like(s[a + 1])
        }),
    ensures
        ({
            let a = offset(words(s), i);
            let b = a + words(s)[i].len();
            &&& b > a + 1
            &&& is_span(s, a + 1, b, |p: int| letter_like(s[p]))
        }),
{
    word_stands_in_text(s, i);
    let a = offset(words(s), i);
    letters_span(s, a + 1);
    if letters_end(s, a + 1) == a + 1 {
        assert(letter_like(s[a + 1]));
        let p = |p: int| letter_like(s[p]);
        assert(p(a + 1));
    }
}

/// A space before punctuation stands with it: the word is that space, all the
/// punctuation behind it and the newlines behind that. So no cut falls between
/// a space that begins a word and punctuation.
pub proof fn space_joins_punctuation(s: Seq<u8>, i: int)
    requires
        0 <= i < words(s).len(),
        ({
            let a = offset(words(s), i);
            &&& a + 1 < s.len()
            &&& s[a] == 0x20
            &&& in_class(s[a + 1], Class::Punct)
        }),
    ensures
        ({
            let a = offset(words(s), i);
            let b = a + words(s)[i].len();
            exists|m: int|
                {
                    &&& a + 1 < m
                    &&& #[trigger] is_run(s, a + 1, m, Class::Punct)
                    &&& is_run(s, m, b, Class::Newline)
                }
        }),
{
    word_stands_in_text(s, i);
    let a = offset(words(s), i);
    let m = run_end(s, a + 1, Class::Punct);
    run_end_is_run(s, a + 1, Class::Punct);
    run_end_bounds(s, a + 1, Class::Punct);
    run_end_is_run(s, m, Class::Newline);
}

/// Punctuation that no ASCII letter follows is a run of punctuation and the
/// newlines behind it.
pub proof fn punctuation_stands_together(s: Seq<u8>, i: int)
    requires
        0 <= i < words(s).len(),
        ({
            let a = offset(words(s), i);
            &&& in_class(s[a], Class::Punct)
            &&& a + 1 < s.len() ==> !in_class(s[a + 1], Class::Alpha)
        }),
    ensures
        ({
            let a = offset(words(s), i);
            let b = a + words(s)[i].len();
            exists|m: int|
                {
                    &&& a < m
                    &&& #[trigger] is_run(s, a, m, Class::Punct)
                    &&& is_run(s, m, b, Class::Newline)
                }
        }),
{
    word_stands_in_text(s, i);
    let a = offset(words(s), i);
    let m = run_end(s, a, Class::Punct);
    run_end_is_run(s, a, Class::Punct);
    run_end_bounds(s, a, Class::Punct);
    run_end_is_run(s, m, Class::Newline);
}

/// Whitespace that nothing behind it claims: of the run of it, the word takes all
/// up to and with the last newline; where there is none, all but the last one
/// where the run is longer than one and a letter or punctuation follows, which
/// that one then joins; else all of it.
#[verifier::rlimit(30)]
pub proof fn whitespace_stands_together(s: Seq<u8>, i: int)
    requires
        0 <= i < words(s).len(),
        ({
            let a = offset(words(s), i);
            &&& in_class(s[a], Class::Space)
            &&& a + 1 < s.len() && !in_class(s[a], Class::Newline) ==> !letter_like(s[a + 1])
            &&& a + 1 < s.len() && s[a] == 0x20 ==> !in_class(s[a + 1], Class::Punct)
        }),
    ensures
        ({
            let a = offset(words(s), i);
            let b = a + words(s)[i].len();
            exists|p: int|
                {
                    &&& a < p
                    &&& b <= p
                    &&& #[trigger] is_run(s, a, p, Class::Space)
                    &&& forall|k: int| b <= k < p ==> !in_class(#[trigger] s[k], Class::Newline)
                    &&& (exists|k: int| a <= k < p && in_class(#[trigger] s[k], Class::Newline))
                        ==> in_class(s[b - 1], Class::Newline)
                    &&& (forall|k: int| a <= k < p ==> !in_class(#[trigger] s[k], Class::Newline))
                        ==> b == (if p < s.len() && p > a + 1 && (letter_like(s[p]) || in_class(
                        s[p],
                        Class::Punct,
                    )) {
                        p - 1
                    } else {
                        p
                    })
                }
        }),
{
    word_stands_in_text(s, i);
    let a = offset(words(s), i);
    let b = a + words(s)[i].len();
    let p = run_end(s, a, Class::Space);
    run_end_is_run(s, a, Class::Space);
    run_end_bounds(s, a, Class::Space);
    last_newline_is_last(s, a, p);
    assert(b == space_end(s, a));
    assert(is_run(s, a, p, Class::Space));
}

/// Any other character stands alone: a control character before no letter.
pub proof fn other_characters_stand_alone(s: Seq<u8>, i: int)
    requires
        0 <= i < words(s).len(),
        ({
            let a = offset(words(s), i);
            &&& s[a] < 128
            &&& !in_class(s[a], Class::Alpha)
            &&& !in_class(s[a], Class::Digit)
            &&& !in_class(s[a], Class::Punct)
            &&& !in_class(s[a], Class::Space)
            &&& a + 1 < s.len() ==> !letter_like(s[a + 1])
        }),
    ensures
        words(s)[i].len() == 1,
{
    word_stands_in_text(s, i);
}

/// The classes: letters, digits and punctuation are the printable characters but
/// the space, each in exactly one; newlines are among the whitespace.
pub proof fn classes_part_ascii(c: u8)
    ensures
        in_class(c, Class::Alpha) <==> (65 <= c <= 90 || 97 <= c <= 122),
        in_class(c, Class::Digit) <==> 48 <= c <= 57,
        in_class(c, Class::Punct) <==> 33 <= c <= 126 && !in_class(c, Class::Alpha) && !in_class(
            c,
            Class::Digit,
        ),
        in_class(c, Class::Space) <==> (c == 32 || 9 <= c <= 13),
        in_class(c, Class::Newline) <==> (c == 10 || c == 13),
        letter_like(c) <==> (in_class(c, Class::Alpha) || c >= 128),
{
}

/// The bytes of a code point.
pub open spec fn utf8(cp: int) -> Seq<u8> {
    if cp < 0x80 {
        seq![cp as u8]
    } else if cp < 0x800 {
        seq![(0xc0 + cp / 64) as u8, (0x80 + cp % 64) as u8]
    } else if cp < 0x1_0000 {
        seq![(0xe0 + cp / 4096) as u8, (0x80 + cp / 64 % 64) as u8, (0x80 + cp % 64) as u8]
    } else {
        seq![
            (0xf0 + cp / 262144) as u8,
            (0x80 + cp / 4096 % 64) as u8,
            (0x80 + cp / 64 % 64) as u8,
            (0x80 + cp % 64) as u8,
        ]
    }
}

/// A character is read back from its bytes, wherever it stands, and stepped over
/// as a whole.
pub proof fn characters_read_back(before: Seq<u8>, cp: int, after: Seq<u8>)
    requires
        0 <= cp <= 0x10_ffff,
    ensures
        ({
            let s = before + utf8(cp) + after;
            let at = before.len() as int;
            &&& codepoint(s, at) == cp
            &&& after_char(s, at) == at + utf8(cp).len()
        }),
{
    let s = before + utf8(cp) + after;
    let at = before.len() as int;
    let u = utf8(cp);
    assert forall|k: int| 0 <= k < u.len() implies #[trigger] s[at + k] == u[k] by {}
    assert(s[at + 0] == u[0]);
    if cp >= 0x80 {
        assert(s[at + 1] == u[1]);
    }
    if cp >= 0x800 {
        assert(s[at + 2] == u[2]);
    }
    if cp >= 0x1_0000 {
        assert(s[at + 3] == u[3]);
        assert(cp / 262144 <= 4);
    }
}

/// Ideographs and kana, by their code points.
pub proof fn ideographs_by_code_point(before: Seq<u8>, cp: int, after: Seq<u8>)
    requires
        0 <= cp <= 0x10_ffff,
    ensures
        is_cjk(before + utf8(cp) + after, before.len() as int) <==> (0x4e00 <= cp <= 0x9fa5 || 0x3040
            <= cp <= 0x30ff),
{
    characters_read_back(before, cp, after);
    let s = before + utf8(cp) + after;
    assert(s[before.len() as int] == utf8(cp)[0]);
}

/// A stray byte, and a character that the end of the text cuts short, are stepped
/// over one byte at a time, and a stray byte is its own value.
pub proof fn malformed_bytes_stand_alone(s: Seq<u8>, at: int)
    requires
        0 <= at < s.len(),
    ensures
        0x80 <= s[at] <= 0xbf || s[at] >= 0xf8 ==> after_char(s, at) == at + 1 && codepoint(s, at)
            == s[at],
        0xc0 <= s[at] <= 0xdf && at + 2 > s.len() ==> after_char(s, at) == at + 1 && codepoint(
            s,
            at,
        ) == s[at],
        0xe0 <= s[at] <= 0xef && at + 3 > s.len() ==> after_char(s, at) == at + 1 && codepoint(
            s,
            at,
        ) == s[at],
        0xf0 <= s[at] <= 0xf7 && at + 4 > s.len() ==> after_char(s, at) == at + 1 && codepoint(
            s,
            at,
        ) == s[at],
{
}

} // verus!
