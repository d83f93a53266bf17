//! What the pieces of the ChatGLM-style and the Kimi pre-tokenizer are, said of
//! the text and its cuts alone.

use vstd::prelude::*;

#[allow(unused_imports)]
use crate::bytes::{after_char, codepoint};
#[allow(unused_imports)]
use crate::cuts::{
    is_span, offset, piece_begins_at_offset, span_empty, span_grows, walk, walk_prepend,
};
#[allow(unused_imports)]
use crate::glm4::{
    contraction_end, glm4_end, glm4_end_bounds, glm4_pieces, is_han, is_letter, is_number,
    is_whitespace, kind_at, last_newline, last_space, number_end, of_kind, span_end,
    span_end_bounds, tail_end, whitespace_end, Kind,
};
#[allow(unused_imports)]
use crate::kimi::{kimi_end, kimi_end_bounds, kimi_pieces};

verus! {

/// Digits.
pub open spec fn numbers(s: Seq<u8>) -> spec_fn(int) -> bool {
    |p: int| is_number(codepoint(s, p))
}

/// Whitespace.
pub open spec fn blanks(s: Seq<u8>) -> spec_fn(int) -> bool {
    |p: int| is_whitespace(codepoint(s, p))
}

/// Newlines and carriage returns.
pub open spec fn newlines(s: Seq<u8>) -> spec_fn(int) -> bool {
    |p: int| codepoint(s, p) == 0x0a || codepoint(s, p) == 0x0d
}

/// What is neither whitespace, letter nor digit.
pub open spec fn symbols(s: Seq<u8>) -> spec_fn(int) -> bool {
    |p: int|
        !is_whitespace(codepoint(s, p)) && !is_letter(codepoint(s, p)) && !is_number(
            codepoint(s, p),
        )
}

/// Letters.
pub open spec fn letters(s: Seq<u8>) -> spec_fn(int) -> bool {
    |p: int| is_letter(codepoint(s, p))
}

/// Letters that are no ideographs.
pub open spec fn word_letters(s: Seq<u8>) -> spec_fn(int) -> bool {
    |p: int| is_letter(codepoint(s, p)) && !is_han(codepoint(s, p))
}

/// Ideographs.
pub open spec fn ideographs(s: Seq<u8>) -> spec_fn(int) -> bool {
    |p: int| is_han(codepoint(s, p))
}

/// Characters of a kind.
pub open spec fn of(s: Seq<u8>, kind: Kind) -> spec_fn(int) -> bool {
    |p: int| of_kind(codepoint(s, p), kind)
}

proof fn span_end_is_span(s: Seq<u8>, a: int, kind: Kind)
    requires
        0 <= a <= s.len(),
    ensures
        is_span(s, a, span_end(s, a, kind), of(s, kind)),
    decreases s.len() - a,
{
    let p = of(s, kind);
    if kind_at(s, a, kind) {
        span_end_is_span(s, after_char(s, a), kind);
        span_grows(s, a, span_end(s, a, kind), p);
    } else {
        span_empty(s, a, p);
    }
}

/// Whether `s[a..b]` is one to three digits, and three unless no more follow.
pub open spec fn digit_group(s: Seq<u8>, a: int, b: int) -> bool {
    exists|cuts: Seq<int>|
        {
            &&& #[trigger] walk(s, cuts, numbers(s))
            &&& cuts[0] == a
            &&& cuts.last() == b
            &&& 2 <= cuts.len() <= 4
            &&& cuts.len() < 4 && b < s.len() ==> !is_number(codepoint(s, b))
        }
}

proof fn number_cuts(s: Seq<u8>, a: int, n: nat) -> (cuts: Seq<int>)
    requires
        0 <= a <= s.len(),
    ensures
        walk(s, cuts, numbers(s)),
        cuts[0] == a,
        cuts.last() == number_end(s, a, n),
        cuts.len() <= n + 1,
        n > 0 && a < s.len() && is_number(codepoint(s, a)) ==> cuts.len() >= 2,
        cuts.len() < n + 1 && cuts.last() < s.len() ==> !is_number(codepoint(s, cuts.last())),
    decreases n,
{
    let p = numbers(s);
    if n > 0 && a < s.len() && is_number(codepoint(s, a)) {
        let rest = number_cuts(s, after_char(s, a), (n - 1) as nat);
        walk_prepend(s, a, rest, p);
        seq![a] + rest
    } else {
        seq![a]
    }
}

/// Whether `s[from..b]` is all the symbols that stand there, at least one, and
/// the newlines behind them.
pub open spec fn symbol_group(s: Seq<u8>, from: int, b: int) -> bool {
    exists|m: int|
        {
            &&& from < m
            &&& #[trigger] is_span(
                s,
                from,
                m,
                symbols(s),
            )
            &&& is_span(s, m, b, newlines(s))
        }
}

proof fn is_span_same(
    s: Seq<u8>,
    a: int,
    b: int,
    p: spec_fn(int) -> bool,
    q: spec_fn(int) -> bool,
)
    requires
        is_span(s, a, b, p),
        forall|x: int| 0 <= x < s.len() ==> #[trigger] p(x) == q(x),
        forall|x: int| 0 <= x < s.len() ==> p(x) == #[trigger] q(x),
    ensures
        is_span(s, a, b, q),
{
    let cuts = choose|cuts: Seq<int>|
        #[trigger] walk(s, cuts, p) && cuts[0] == a && cuts.last() == b;
    assert(walk(s, cuts, q)) by {
        assert forall|k: int| 0 <= k < cuts.len() - 1 implies {
            &&& 0 <= #[trigger] cuts[k] < s.len()
            &&& q(cuts[k])
            &&& cuts[k + 1] == after_char(s, cuts[k])
        } by {
            assert(p(cuts[k]));
        }
    }
}

proof fn symbols_are_group(s: Seq<u8>, from: int)
    requires
        0 <= from <= s.len(),
        kind_at(s, from, Kind::Symbol),
    ensures
        symbol_group(s, from, span_end(s, span_end(s, from, Kind::Symbol), Kind::Newline)),
{
    let m = span_end(s, from, Kind::Symbol);
    let b = span_end(s, m, Kind::Newline);
    span_end_bounds(s, from, Kind::Symbol);
    span_end_is_span(s, from, Kind::Symbol);
    span_end_is_span(s, m, Kind::Newline);
    is_span_same(
        s,
        from,
        m,
        of(s, Kind::Symbol),
        symbols(s),
    );
    is_span_same(
        s,
        m,
        b,
        of(s, Kind::Newline),
        newlines(s),
    );
}

/// Whether `s[a..b]` is what a piece takes of the whitespace that stands at `a`:
/// of all its characters, those up to and with the last newline; where there is
/// none, all but the last where there are several and something follows; else
/// all of them.
pub open spec fn blank_group(s: Seq<u8>, a: int, b: int) -> bool {
    exists|cuts: Seq<int>|
        {
            let n = cuts.len() - 1;
            &&& #[trigger] walk(s, cuts, blanks(s))
            &&& n >= 1
            &&& cuts[0] == a
            &&& cuts[n] < s.len() ==> !is_whitespace(codepoint(s, cuts[n]))
            &&& ends_blank(s, cuts, b)
        }
}

/// Where a piece of the whitespace with these cuts ends.
pub open spec fn ends_blank(s: Seq<u8>, cuts: Seq<int>, b: int) -> bool {
    let n = cuts.len() - 1;
    ||| exists|k: int|
        {
            &&& 0 <= k < n
            &&& breaks(s, #[trigger] cuts[k])
            &&& b == cuts[k + 1]
            &&& forall|j: int| k < j < n ==> !breaks(s, #[trigger] cuts[j])
        }
    ||| (forall|k: int| 0 <= k < n ==> !breaks(s, #[trigger] cuts[k])) && b == (if n >= 2
        && cuts[n] < s.len() {
        cuts[n - 1]
    } else {
        cuts[n]
    })
}

/// Whether a newline or a carriage return stands at `p`.
pub open spec fn breaks(s: Seq<u8>, p: int) -> bool {
    codepoint(s, p) == 0x0a || codepoint(s, p) == 0x0d
}

/// The cuts of a run of whitespace, with what is said of it by recursion.
proof fn blank_cuts(s: Seq<u8>, a: int) -> (cuts: Seq<int>)
    requires
        0 <= a < s.len(),
        kind_at(s, a, Kind::Whitespace),
    ensures
        walk(s, cuts, blanks(s)),
        cuts.len() >= 2,
        cuts[0] == a,
        cuts.last() == span_end(s, a, Kind::Whitespace),
        cuts.last() < s.len() ==> !is_whitespace(codepoint(s, cuts.last())),
        cuts[cuts.len() - 2] == last_space(s, a),
        cuts.len() > 2 <==> kind_at(s, after_char(s, a), Kind::Whitespace),
        last_newline(s, a) == 0 ==> forall|k: int|
            0 <= k < cuts.len() - 1 ==> !breaks(s, #[trigger] cuts[k]),
        last_newline(s, a) != 0 ==> exists|k: int|
            {
                &&& 0 <= k < cuts.len() - 1
                &&& breaks(s, #[trigger] cuts[k])
                &&& last_newline(s, a) == cuts[k + 1]
                &&& forall|j: int| k < j < cuts.len() - 1 ==> !breaks(s, #[trigger] cuts[j])
            },
    decreases s.len() - a,
{
    let p = blanks(s);
    let next = after_char(s, a);
    if kind_at(s, next, Kind::Whitespace) {
        let rest = blank_cuts(s, next);
        walk_prepend(s, a, rest, p);
        let cuts = seq![a] + rest;
        assert(cuts[cuts.len() - 2] == rest[rest.len() - 2]);
        if last_newline(s, next) != 0 {
            let k = choose|k: int|
                {
                    &&& 0 <= k < rest.len() - 1
                    &&& breaks(s, #[trigger] rest[k])
                    &&& last_newline(s, next) == rest[k + 1]
                    &&& forall|j: int| k < j < rest.len() - 1 ==> !breaks(s, #[trigger] rest[j])
                };
            assert(cuts[k + 1] == rest[k] && cuts[k + 2] == rest[k + 1]);
            assert forall|j: int| k + 1 < j < cuts.len() - 1 implies !breaks(
                s,
                #[trigger] cuts[j],
            ) by {
                assert(cuts[j] == rest[j - 1]);
            }
        } else {
            assert forall|j: int| 1 <= j < cuts.len() - 1 implies !breaks(
                s,
                #[trigger] cuts[j],
            ) by {
                assert(cuts[j] == rest[j - 1]);
            }
            if breaks(s, a) {
                assert(cuts[0] == a && cuts[1] == next);
            }
        }
        cuts
    } else {
        let cuts = seq![a, next];
        assert(walk(s, cuts, p)) by {
            assert forall|k: int| 0 <= k < cuts.len() - 1 implies {
                &&& 0 <= #[trigger] cuts[k] < s.len()
                &&& p(cuts[k])
                &&& cuts[k + 1] == after_char(s, cuts[k])
            } by {}
        }
        assert(last_newline(s, next) == 0);
        assert(span_end(s, next, Kind::Whitespace) == next);
        if breaks(s, a) {
            assert(cuts[0] == a && cuts[1] == next);
        }
        cuts
    }
}

proof fn whitespace_is_group(s: Seq<u8>, a: int)
    requires
        0 <= a < s.len(),
        kind_at(s, a, Kind::Whitespace),
    ensures
        blank_group(s, a, whitespace_end(s, a)),
{
    let cuts = blank_cuts(s, a);
    let b = whitespace_end(s, a);
    assert(ends_blank(s, cuts, b));
    assert(walk(s, cuts, blanks(s)));
}

/// What the piece `s[a..b]` is where no letter has a say in it.
pub open spec fn plain_piece(s: Seq<u8>, a: int, b: int) -> bool {
    let cp = codepoint(s, a);
    let next = after_char(s, a);
    &&& is_number(cp) ==> digit_group(s, a, b)
    &&& !is_number(cp) && !is_whitespace(cp) && !is_letter(cp) ==> symbol_group(s, a, b)
    &&& cp == 0x20 && next < s.len() && !is_whitespace(codepoint(s, next)) && !is_letter(
        codepoint(s, next),
    ) && !is_number(codepoint(s, next)) ==> symbol_group(s, next, b)
    &&& is_whitespace(cp) && (cp != 0x20 || next >= s.len() || is_whitespace(codepoint(s, next))
        || is_letter(codepoint(s, next)) || is_number(codepoint(s, next))) ==> blank_group(s, a, b)
}

proof fn tail_is_plain(s: Seq<u8>, a: int)
    requires
        0 <= a < s.len(),
        !is_letter(codepoint(s, a)),
    ensures
        plain_piece(s, a, tail_end(s, a)),
{
    let cp = codepoint(s, a);
    let next = after_char(s, a);
    classes_exclude_each_other(cp);
    if is_number(cp) {
        let cuts = number_cuts(s, a, 3);
        assert(walk(s, cuts, numbers(s)));
    }
    let from = if cp == 0x20 {
        next
    } else {
        a
    };
    if kind_at(s, from, Kind::Symbol) {
        symbols_are_group(s, from);
        span_end_bounds(s, from, Kind::Symbol);
        span_end_bounds(s, span_end(s, from, Kind::Symbol), Kind::Newline);
    }
    if is_whitespace(cp) {
        whitespace_is_group(s, a);
    }
}

/// A character is whitespace, a digit, a letter or a symbol, and only one of
/// these; newlines are whitespace.
pub proof fn classes_exclude_each_other(cp: int)
    ensures
        !(is_whitespace(cp) && is_number(cp)),
        !(is_whitespace(cp) && is_letter(cp)),
        !(is_number(cp) && is_letter(cp)),
        0 <= cp < 128 ==> (is_letter(cp) <==> (65 <= cp <= 90 || 97 <= cp <= 122)),
        0 <= cp < 128 ==> (is_number(cp) <==> 48 <= cp <= 57),
        0 <= cp < 128 ==> (is_whitespace(cp) <==> (cp == 32 || 9 <= cp <= 13)),
        is_whitespace(0x0a) && is_whitespace(0x0d) && is_whitespace(0x20),
{
}

/// The letters of common scripts are letters, ideographs among them; general and
/// CJK punctuation and emoji are symbols, and no letters.
pub proof fn common_scripts(cp: int)
    ensures
        0x00c0 <= cp <= 0x024f && cp != 0x00d7 && cp != 0x00f7 ==> is_letter(cp),
        0x0391 <= cp <= 0x052f ==> is_letter(cp),
        0x05d0 <= cp <= 0x05ea ==> is_letter(cp),
        0x0620 <= cp <= 0x064a ==> is_letter(cp),
        0x3041 <= cp <= 0x30ff ==> is_letter(cp),
        0xac00 <= cp <= 0xd7a3 ==> is_letter(cp),
        is_han(cp) ==> is_letter(cp),
        0x4e00 <= cp <= 0x9fff || 0x3400 <= cp <= 0x4dbf ==> is_han(cp),
        0x3041 <= cp <= 0x30ff || 0xac00 <= cp <= 0xd7a3 || cp < 0x3400 ==> !is_han(cp),
        0x2010 <= cp <= 0x2027 || 0x3001 <= cp <= 0x3003 || 0x3008 <= cp <= 0x3011 || 0x1f300 <= cp
            <= 0x1f64f || 0xff01 <= cp <= 0xff0f ==> !is_letter(cp) && !is_number(cp)
            && !is_whitespace(cp),
        0xff10 <= cp <= 0xff19 || 0x0660 <= cp <= 0x0669 || 0x0966 <= cp <= 0x096f ==> is_number(
            cp,
        ),
        cp == 0x3000 || cp == 0x00a0 || cp == 0x2003 ==> is_whitespace(cp),
{
}

/// The cut of piece `i`.
proof fn glm4_piece_stands_in_text(s: Seq<u8>, i: int)
    requires
        0 <= i < glm4_pieces(s).len(),
    ensures
        ({
            let a = offset(glm4_pieces(s), i);
            let b = a + glm4_pieces(s)[i].len();
            &&& 0 <= a < b <= s.len()
            &&& glm4_pieces(s)[i] == s.subrange(a, b)
            &&& b == glm4_end(s, a)
        }),
{
    let step = |p: int| glm4_end(s, p);
    assert forall|p: int| 0 <= p < s.len() implies p < #[trigger] step(p) <= s.len() by {
        glm4_end_bounds(s, p);
    }
    piece_begins_at_offset(s, 0, step, i);
}

proof fn kimi_piece_stands_in_text(s: Seq<u8>, i: int)
    requires
        0 <= i < kimi_pieces(s).len(),
    ensures
        ({
            let a = offset(kimi_pieces(s), i);
            let b = a + kimi_pieces(s)[i].len();
            &&& 0 <= a < b <= s.len()
            &&& kimi_pieces(s)[i] == s.subrange(a, b)
            &&& b == kimi_end(s, a)
        }),
{
    let step = |p: int| kimi_end(s, p);
    assert forall|p: int| 0 <= p < s.len() implies p < #[trigger] step(p) <= s.len() by {
        kimi_end_bounds(s, p);
    }
    piece_begins_at_offset(s, 0, step, i);
}

/// Whether a byte is one of two, a capital and its small letter.
pub open spec fn either(c: u8, small: u8) -> bool {
    c == small || c == small - 32
}

/// Whether an apostrophe at `a` begins a contraction of one letter: 's, 't, 'm
/// or 'd.
pub open spec fn short_contraction(s: Seq<u8>, a: int) -> bool {
    &&& 0 <= a
    &&& a + 1 < s.len()
    &&& s[a] == 0x27
    &&& either(s[a + 1], 0x73) || either(s[a + 1], 0x74) || either(s[a + 1], 0x6d) || either(
        s[a + 1],
        0x64,
    )
}

/// Whether an apostrophe at `a` begins a contraction of two letters: 're, 've or
/// 'll.
pub open spec fn long_contraction(s: Seq<u8>, a: int) -> bool {
    &&& 0 <= a
    &&& a + 2 < s.len()
    &&& s[a] == 0x27
    &&& {
        ||| either(s[a + 1], 0x72) && either(s[a + 2], 0x65)
        ||| either(s[a + 1], 0x76) && either(s[a + 2], 0x65)
        ||| either(s[a + 1], 0x6c) && either(s[a + 2], 0x6c)
    }
}

/// Whether the next two characters behind `a` are ASCII, as far as there are any.
pub open spec fn plain_behind(s: Seq<u8>, a: int) -> bool {
    &&& a + 1 < s.len() ==> s[a + 1] < 128
    &&& a + 2 < s.len() ==> s[a + 2] < 128
}

#[verifier::rlimit(30)]
proof fn contraction_cases(s: Seq<u8>, a: int)
    requires
        0 <= a <= s.len(),
    ensures
        short_contraction(s, a) ==> contraction_end(s, a) == a + 2,
        long_contraction(s, a) ==> contraction_end(s, a) == a + 3,
        a < s.len() && codepoint(s, a) != 0x27 ==> contraction_end(s, a) == a,
        a == s.len() ==> contraction_end(s, a) == a,
        a < s.len() && s[a] < 128 && plain_behind(s, a) && !short_contraction(s, a)
            && !long_contraction(s, a) ==> contraction_end(s, a) == a,
{
}

/// A contraction is a piece of its own.
pub proof fn glm4_contractions(s: Seq<u8>, i: int)
    requires
        0 <= i < glm4_pieces(s).len(),
    ensures
        ({
            let a = offset(glm4_pieces(s), i);
            let n = glm4_pieces(s)[i].len();
            &&& short_contraction(s, a) ==> n == 2
            &&& long_contraction(s, a) ==> n == 3
        }),
{
    glm4_piece_stands_in_text(s, i);
    contraction_cases(s, offset(glm4_pieces(s), i));
}

/// Letters stand together, and a single character before them that is no
/// newline, digit or letter stands with them; an apostrophe too, where it begins
/// no contraction.
#[verifier::rlimit(30)]
pub proof fn glm4_letters(s: Seq<u8>, i: int)
    requires
        0 <= i < glm4_pieces(s).len(),
    ensures
        ({
            let a = offset(glm4_pieces(s), i);
            let b = a + glm4_pieces(s)[i].len();
            let cp = codepoint(s, a);
            let next = after_char(s, a);
            let letter = letters(s);
            let contracts = short_contraction(s, a) || long_contraction(s, a);
            &&& is_letter(cp) ==> is_span(s, a, b, letter)
            &&& next < s.len() && is_letter(codepoint(s, next)) && !is_letter(cp) && cp != 0x0a
                && cp != 0x0d && !is_number(cp) && (cp != 0x27 || (s[a] < 128 && plain_behind(s, a)
                && !contracts)) ==> b > next && is_span(s, next, b, letter)
        }),
{
    glm4_piece_stands_in_text(s, i);
    let a = offset(glm4_pieces(s), i);
    let b = a + glm4_pieces(s)[i].len();
    let cp = codepoint(s, a);
    let next = after_char(s, a);
    let letter = letters(s);
    contraction_cases(s, a);
    classes_exclude_each_other(cp);
    span_end_is_span(s, next, Kind::Letter);
    span_end_bounds(s, next, Kind::Letter);
    let e = span_end(s, next, Kind::Letter);
    is_span_same(s, next, e, of(s, Kind::Letter), letter);
    if is_letter(cp) {
        span_grows(s, a, e, letter);
    }
}

/// What no letter has a say in: digits stand by threes, symbols with a space
/// before and the newlines behind, and whitespace by itself.
pub proof fn glm4_others(s: Seq<u8>, i: int)
    requires
        0 <= i < glm4_pieces(s).len(),
        ({
            let a = offset(glm4_pieces(s), i);
            let cp = codepoint(s, a);
            let next = after_char(s, a);
            &&& !is_letter(cp)
            &&& cp == 0x27 ==> s[a] < 128 && plain_behind(s, a) && !short_contraction(s, a)
                && !long_contraction(s, a)
            &&& next < s.len() && is_letter(codepoint(s, next)) ==> cp == 0x0a || cp == 0x0d
                || is_number(cp)
        }),
    ensures
        plain_piece(
            s,
            offset(glm4_pieces(s), i),
            offset(glm4_pieces(s), i) + glm4_pieces(s)[i].len(),
        ),
{
    glm4_piece_stands_in_text(s, i);
    let a = offset(glm4_pieces(s), i);
    contraction_cases(s, a);
    tail_is_plain(s, a);
}

/// Ideographs stand together, apart from other letters.
pub proof fn kimi_ideographs(s: Seq<u8>, i: int)
    requires
        0 <= i < kimi_pieces(s).len(),
        is_han(codepoint(s, offset(kimi_pieces(s), i))),
    ensures
        ({
            let a = offset(kimi_pieces(s), i);
            let b = a + kimi_pieces(s)[i].len();
            is_span(s, a, b, ideographs(s))
        }),
{
    kimi_piece_stands_in_text(s, i);
    let a = offset(kimi_pieces(s), i);
    let b = a + kimi_pieces(s)[i].len();
    span_end_is_span(s, a, Kind::Han);
    is_span_same(
        s,
        a,
        b,
        of(s, Kind::Han),
        ideographs(s),
    );
}

/// Whether `s[from..b]` is all the letters that stand there but ideographs, at
/// least one, and a contraction where one stands behind them.
pub open spec fn word_group(s: Seq<u8>, from: int, b: int) -> bool {
    exists|m: int|
        {
            &&& from < m <= b
            &&& #[trigger] is_span(s, from, m, word_letters(s))
            &&& short_contraction(s, m) ==> b == m + 2
            &&& long_contraction(s, m) ==> b == m + 3
            &&& m == s.len() ==> b == m
            &&& m < s.len() && codepoint(s, m) != 0x27 ==> b == m
            &&& m < s.len() && s[m] < 128 && plain_behind(s, m) && !short_contraction(s, m)
                && !long_contraction(s, m) ==> b == m
        }
}

/// Other letters stand together, with a contraction behind them and a single
/// character before them that is no newline, digit or letter.
pub proof fn kimi_letters(s: Seq<u8>, i: int)
    requires
        0 <= i < kimi_pieces(s).len(),
        ({
            let a = offset(kimi_pieces(s), i);
            let cp = codepoint(s, a);
            let next = after_char(s, a);
            &&& !is_han(cp)
            &&& {
                ||| is_letter(cp)
                ||| cp != 0x0a && cp != 0x0d && !is_number(cp) && next < s.len() && is_letter(
                    codepoint(s, next),
                ) && !is_han(codepoint(s, next))
            }
        }),
    ensures
        ({
            let a = offset(kimi_pieces(s), i);
            let b = a + kimi_pieces(s)[i].len();
            let from = if is_letter(codepoint(s, a)) {
                a
            } else {
                after_char(s, a)
            };
            word_group(s, from, b)
        }),
{
    kimi_piece_stands_in_text(s, i);
    let a = offset(kimi_pieces(s), i);
    let b = a + kimi_pieces(s)[i].len();
    let next = after_char(s, a);
    let m = span_end(s, next, Kind::WordLetter);
    let words = word_letters(s);
    span_end_is_span(s, next, Kind::WordLetter);
    span_end_bounds(s, next, Kind::WordLetter);
    contraction_cases(s, m);
    is_span_same(s, next, m, of(s, Kind::WordLetter), words);
    if is_letter(codepoint(s, a)) {
        span_grows(s, a, m, words);
        assert(word_group(s, a, b));
    } else {
        assert(word_group(s, next, b));
    }
}

/// What no letter has a say in is cut as by the other pre-tokenizer.
pub proof fn kimi_others(s: Seq<u8>, i: int)
    requires
        0 <= i < kimi_pieces(s).len(),
        ({
            let a = offset(kimi_pieces(s), i);
            let cp = codepoint(s, a);
            let next = after_char(s, a);
            &&& !is_han(cp) && !is_letter(cp)
            &&& next < s.len() && is_letter(codepoint(s, next)) && !is_han(codepoint(s, next))
                ==> cp == 0x0a || cp == 0x0d || is_number(cp)
        }),
    ensures
        plain_piece(
            s,
            offset(kimi_pieces(s), i),
            offset(kimi_pieces(s), i) + kimi_pieces(s)[i].len(),
        ),
{
    kimi_piece_stands_in_text(s, i);
    tail_is_plain(s, offset(kimi_pieces(s), i));
}

/// Whether `cp` is one of the ten digits that begin at `zero`.
pub open spec fn digit_from(cp: int, zero: int) -> bool {
    0 <= cp - zero <= 9
}

/// Digits come in tens: those of ASCII, of the scripts that count in tens of their
/// own, and the full-width ones.
pub proof fn digits_come_in_tens(cp: int)
    requires
        0 <= cp,
    ensures
        is_number(cp) <==> {
            ||| digit_from(cp, 48)
            ||| digit_from(cp, 1632)
            ||| digit_from(cp, 1776)
            ||| digit_from(cp, 1984)
            ||| digit_from(cp, 2406)
            ||| digit_from(cp, 2534)
            ||| digit_from(cp, 2662)
            ||| digit_from(cp, 2790)
            ||| digit_from(cp, 2918)
            ||| digit_from(cp, 3046)
            ||| digit_from(cp, 3174)
            ||| digit_from(cp, 3302)
            ||| digit_from(cp, 3430)
            ||| digit_from(cp, 3558)
            ||| digit_from(cp, 3664)
            ||| digit_from(cp, 3792)
            ||| digit_from(cp, 3872)
            ||| digit_from(cp, 4160)
            ||| digit_from(cp, 4240)
            ||| digit_from(cp, 6112)
            ||| digit_from(cp, 6160)
            ||| digit_from(cp, 65296)
        },
{
}

/// Whitespace is what Unicode calls so: tab to carriage return, the space, next
/// line, the no-break space, the Ogham space, the spaces from en quad to hair space,
/// line and paragraph separator, the narrow no-break, the mathematical and the
/// ideographic space.
pub proof fn whitespace_is_unicode(cp: int)
    requires
        0 <= cp,
    ensures
        is_whitespace(cp) <==> {
            ||| 9 <= cp <= 13
            ||| cp == 32 || cp == 133 || cp == 160 || cp == 5760
            ||| 8192 <= cp <= 8202
            ||| cp == 8232 || cp == 8233 || cp == 8239 || cp == 8287 || cp == 12288
        },
{
}

/// Ideographs are those of the unified block, its extensions A to E and the two
/// compatibility blocks.
pub proof fn ideographs_by_block(cp: int)
    ensures
        is_han(cp) <==> {
            ||| 0x4e00 <= cp < 0xa000
            ||| 0x3400 <= cp < 0x4dc0
            ||| 0xf900 <= cp < 0xfb00
            ||| 0x20000 <= cp < 0x2a6e0
            ||| 0x2a700 <= cp < 0x2b820
            ||| 0x2b820 <= cp < 0x2ceb0
            ||| 0x2f800 <= cp < 0x2fa20
        },
{
}

/// Beyond ASCII, letters are all that is neither whitespace, digit nor in one of the
/// ranges of punctuation and symbols.
#[verifier::rlimit(30)]
pub proof fn letters_are_the_rest(cp: int)
    requires
        128 <= cp,
    ensures
        is_letter(cp) <==> !is_whitespace(cp) && !is_number(cp) && !{
            ||| 0xa1 <= cp < 0xaa || cp == 0xab || cp == 0xac || 0xae <= cp < 0xb2
            ||| cp == 0xb4 || 0xb6 <= cp < 0xb9 || cp == 0xbb || cp == 0xbf || cp == 0xd7 || cp
                == 0xf7
            ||| 0x2c2 <= cp < 0x2e0 || 0x2e5 <= cp < 0x2ec || 0x2ed <= cp < 0x300
            ||| 0x375 <= cp < 0x37f || cp == 0x384 || cp == 0x385 || cp == 0x387
            ||| 0x55a <= cp < 0x560 || cp == 0x589 || cp == 0x58a
            ||| 0x5be <= cp < 0x5c1 || cp == 0x5c3 || cp == 0x5c6 || cp == 0x5c7
            ||| cp == 0x609 || cp == 0x60a || cp == 0x60c || cp == 0x60d || cp == 0x61b || cp
                == 0x61e || cp == 0x61f || cp == 0x66a || cp == 0x66d || cp == 0x6d4
            ||| 0x2000 <= cp < 0x2070 || 0x20a0 <= cp < 0x20d0 || 0x2100 <= cp < 0x2150
            ||| 0x2190 <= cp < 0x2400 || 0x2460 <= cp < 0x2776 || 0x2794 <= cp < 0x2c00
            ||| 0x2e00 <= cp < 0x2e80 || 0x3000 <= cp < 0x3040
            ||| cp == 0xfd3e || cp == 0xfd3f || 0xfe10 <= cp < 0xfe70
            ||| 0xff01 <= cp < 0xff10 || 0xff1a <= cp < 0xff21 || 0xff3b <= cp < 0xff41 || 0xff5b
                <= cp < 0xff66
            ||| 0x1f000 <= cp < 0x1fb00
        },
{
}

} // verus!
