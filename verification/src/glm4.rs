//! The ChatGLM-style pre-tokenizer, and the character classes it shares with
//! the Kimi one.

use vstd::prelude::*;
use vstd::slice::slice_subrange;

use crate::bytes::{
    after_char, ascii_alpha, ascii_digit, ascii_space, codepoint, contents, contents_push,
    in_class, joined, next_char, peek_codepoint, pieces_from, pieces_rejoin, punct_symbol, Class,
};

verus! {

/// Unicode whitespace.
pub open spec fn is_whitespace(cp: int) -> bool {
    if cp < 128 {
        in_class(cp as u8, Class::Space)
    } else {
        ||| cp == 0x0085
        ||| cp == 0x00a0
        ||| cp == 0x1680
        ||| 0x2000 <= cp <= 0x200a
        ||| cp == 0x2028
        ||| cp == 0x2029
        ||| cp == 0x202f
        ||| cp == 0x205f
        ||| cp == 0x3000
    }
}

/// Decimal digits of the scripts the vocabulary groups by three.
pub open spec fn is_number(cp: int) -> bool {
    if cp < 128 {
        in_class(cp as u8, Class::Digit)
    } else {
        ||| 0x0660 <= cp <= 0x0669
        ||| 0x06f0 <= cp <= 0x06f9
        ||| 0x07c0 <= cp <= 0x07c9
        ||| 0x0966 <= cp <= 0x096f
        ||| 0x09e6 <= cp <= 0x09ef
        ||| 0x0a66 <= cp <= 0x0a6f
        ||| 0x0ae6 <= cp <= 0x0aef
        ||| 0x0b66 <= cp <= 0x0b6f
        ||| 0x0be6 <= cp <= 0x0bef
        ||| 0x0c66 <= cp <= 0x0c6f
        ||| 0x0ce6 <= cp <= 0x0cef
        ||| 0x0d66 <= cp <= 0x0d6f
        ||| 0x0de6 <= cp <= 0x0def
        ||| 0x0e50 <= cp <= 0x0e59
        ||| 0x0ed0 <= cp <= 0x0ed9
        ||| 0x0f20 <= cp <= 0x0f29
        ||| 0x1040 <= cp <= 0x1049
        ||| 0x1090 <= cp <= 0x1099
        ||| 0x17e0 <= cp <= 0x17e9
        ||| 0x1810 <= cp <= 0x1819
        ||| 0xff10 <= cp <= 0xff19
    }
}

/// Punctuation and symbols.
pub open spec fn is_punct(cp: int) -> bool {
    if cp < 128 {
        in_class(cp as u8, Class::Punct)
    } else {
        ||| 0x00a1 <= cp <= 0x00a9
        ||| 0x00ab <= cp <= 0x00ac
        ||| 0x00ae <= cp <= 0x00b1
        ||| cp == 0x00b4
        ||| 0x00b6 <= cp <= 0x00b8
        ||| cp == 0x00bb
        ||| cp == 0x00bf
        ||| cp == 0x00d7
        ||| cp == 0x00f7
        ||| 0x02c2 <= cp <= 0x02df
        ||| 0x02e5 <= cp <= 0x02eb
        ||| 0x02ed <= cp <= 0x02ff
        ||| 0x0375 <= cp <= 0x037e
        ||| 0x0384 <= cp <= 0x0385
        ||| cp == 0x0387
        ||| 0x055a <= cp <= 0x055f
        ||| 0x0589 <= cp <= 0x058a
        ||| 0x05be <= cp <= 0x05c0
        ||| cp == 0x05c3
        ||| 0x05c6 <= cp <= 0x05c7
        ||| 0x0609 <= cp <= 0x060a
        ||| 0x060c <= cp <= 0x060d
        ||| cp == 0x061b
        ||| 0x061e <= cp <= 0x061f
        ||| cp == 0x066a
        ||| cp == 0x066d
        ||| cp == 0x06d4
        ||| 0x2000 <= cp <= 0x206f
        ||| 0x20a0 <= cp <= 0x20cf
        ||| 0x2100 <= cp <= 0x214f
        ||| 0x2190 <= cp <= 0x23ff
        ||| 0x2460 <= cp <= 0x24ff
        ||| 0x2500 <= cp <= 0x2775
        ||| 0x2794 <= cp <= 0x2bff
        ||| 0x2e00 <= cp <= 0x2e7f
        ||| 0x3000 <= cp <= 0x303f
        ||| 0xfd3e <= cp <= 0xfd3f
        ||| 0xfe10 <= cp <= 0xfe6f
        ||| 0xff01 <= cp <= 0xff0f
        ||| 0xff1a <= cp <= 0xff20
        ||| 0xff3b <= cp <= 0xff40
        ||| 0xff5b <= cp <= 0xff65
        ||| 0x1f000 <= cp <= 0x1faff
    }
}

/// Letters: ASCII letters, and beyond ASCII whatever no other class claims.
pub open spec fn is_letter(cp: int) -> bool {
    if cp < 128 {
        in_class(cp as u8, Class::Alpha)
    } else {
        !is_whitespace(cp) && !is_number(cp) && !is_punct(cp)
    }
}

/// Newline or carriage return.
pub open spec fn is_newline(cp: int) -> bool {
    cp == 0x0a || cp == 0x0d
}

/// Han ideographs.
pub open spec fn is_han(cp: int) -> bool {
    ||| 0x4e00 <= cp <= 0x9fff
    ||| 0x3400 <= cp <= 0x4dbf
    ||| 0xf900 <= cp <= 0xfaff
    ||| 0x20000 <= cp <= 0x2a6df
    ||| 0x2a700 <= cp <= 0x2b73f
    ||| 0x2b740 <= cp <= 0x2b81f
    ||| 0x2b820 <= cp <= 0x2ceaf
    ||| 0x2f800 <= cp <= 0x2fa1f
}

/// The lower-case form of an ASCII capital; anything else is itself.
pub open spec fn lower(cp: int) -> int {
    if 0x41 <= cp <= 0x5a {
        cp + 32
    } else {
        cp
    }
}

/// Whether `cp` is Unicode whitespace.
pub fn glm4_whitespace(cp: u32) -> (r: bool)
    ensures
        r == is_whitespace(cp as int),
{
    if cp < 128 {
        return ascii_space(cp as u8);
    }
    cp == 0x0085 || cp == 0x00a0 || cp == 0x1680 || (0x2000 <= cp && cp <= 0x200a) || cp == 0x2028
        || cp == 0x2029 || cp == 0x202f || cp == 0x205f || cp == 0x3000
}

/// Whether `cp` is a decimal digit.
pub fn glm4_number(cp: u32) -> (r: bool)
    ensures
        r == is_number(cp as int),
{
    if cp < 128 {
        return ascii_digit(cp as u8);
    }
        (0x0660 <= cp && cp <= 0x0669)
        || (0x06f0 <= cp && cp <= 0x06f9)
        || (0x07c0 <= cp && cp <= 0x07c9)
        || (0x0966 <= cp && cp <= 0x096f)
        || (0x09e6 <= cp && cp <= 0x09ef)
        || (0x0a66 <= cp && cp <= 0x0a6f)
        || (0x0ae6 <= cp && cp <= 0x0aef)
        || (0x0b66 <= cp && cp <= 0x0b6f)
        || (0x0be6 <= cp && cp <= 0x0bef)
        || (0x0c66 <= cp && cp <= 0x0c6f)
        || (0x0ce6 <= cp && cp <= 0x0cef)
        || (0x0d66 <= cp && cp <= 0x0d6f)
        || (0x0de6 <= cp && cp <= 0x0def)
        || (0x0e50 <= cp && cp <= 0x0e59)
        || (0x0ed0 <= cp && cp <= 0x0ed9)
        || (0x0f20 <= cp && cp <= 0x0f29)
        || (0x1040 <= cp && cp <= 0x1049)
        || (0x1090 <= cp && cp <= 0x1099)
        || (0x17e0 <= cp && cp <= 0x17e9)
        || (0x1810 <= cp && cp <= 0x1819)
        || (0xff10 <= cp && cp <= 0xff19)
}

/// Whether `cp` is punctuation or a symbol.
pub fn glm4_punct_symbol(cp: u32) -> (r: bool)
    ensures
        r == is_punct(cp as int),
{
    if cp < 128 {
        return punct_symbol(cp as u8);
    }
        (0x00a1 <= cp && cp <= 0x00a9)
        || (0x00ab <= cp && cp <= 0x00ac)
        || (0x00ae <= cp && cp <= 0x00b1)
        || cp == 0x00b4
        || (0x00b6 <= cp && cp <= 0x00b8)
        || cp == 0x00bb
        || cp == 0x00bf
        || cp == 0x00d7
        || cp == 0x00f7
        || (0x02c2 <= cp && cp <= 0x02df)
        || (0x02e5 <= cp && cp <= 0x02eb)
        || (0x02ed <= cp && cp <= 0x02ff)
        || (0x0375 <= cp && cp <= 0x037e)
        || (0x0384 <= cp && cp <= 0x0385)
        || cp == 0x0387
        || (0x055a <= cp && cp <= 0x055f)
        || (0x0589 <= cp && cp <= 0x058a)
        || (0x05be <= cp && cp <= 0x05c0)
        || cp == 0x05c3
        || (0x05c6 <= cp && cp <= 0x05c7)
        || (0x0609 <= cp && cp <= 0x060a)
        || (0x060c <= cp && cp <= 0x060d)
        || cp == 0x061b
        || (0x061e <= cp && cp <= 0x061f)
        || cp == 0x066a
        || cp == 0x066d
        || cp == 0x06d4
        || (0x2000 <= cp && cp <= 0x206f)
        || (0x20a0 <= cp && cp <= 0x20cf)
        || (0x2100 <= cp && cp <= 0x214f)
        || (0x2190 <= cp && cp <= 0x23ff)
        || (0x2460 <= cp && cp <= 0x24ff)
        || (0x2500 <= cp && cp <= 0x2775)
        || (0x2794 <= cp && cp <= 0x2bff)
        || (0x2e00 <= cp && cp <= 0x2e7f)
        || (0x3000 <= cp && cp <= 0x303f)
        || (0xfd3e <= cp && cp <= 0xfd3f)
        || (0xfe10 <= cp && cp <= 0xfe6f)
        || (0xff01 <= cp && cp <= 0xff0f)
        || (0xff1a <= cp && cp <= 0xff20)
        || (0xff3b <= cp && cp <= 0xff40)
        || (0xff5b <= cp && cp <= 0xff65)
        || (0x1f000 <= cp && cp <= 0x1faff)
}

/// Lower-cases an ASCII capital.
pub fn ascii_lower(cp: u32) -> (r: u32)
    ensures
        r == lower(cp as int),
{
    if 0x41 <= cp && cp <= 0x5a {
        cp + 32
    } else {
        cp
    }
}

/// Whether `cp` is a Han ideograph.
pub fn kimi_is_han(cp: u32) -> (r: bool)
    ensures
        r == is_han(cp as int),
{
    (0x4e00 <= cp && cp <= 0x9fff) || (0x3400 <= cp && cp <= 0x4dbf) || (0xf900 <= cp && cp
        <= 0xfaff) || (0x20000 <= cp && cp <= 0x2a6df) || (0x2a700 <= cp && cp <= 0x2b73f) || (
    0x2b740 <= cp && cp <= 0x2b81f) || (0x2b820 <= cp && cp <= 0x2ceaf) || (0x2f800 <= cp && cp
        <= 0x2fa1f)
}

/// One decoded character with its classes. Past the end of the text it is
/// not `valid`, has code point 0 and belongs to no class.
#[derive(Clone, Copy)]
pub struct Glm4Char {
    pub cp: u32,
    pub next: usize,
    pub valid: bool,
    pub is_letter: bool,
    pub is_number: bool,
    pub is_whitespace: bool,
}

/// Whether `c` describes the character of `s` at `pos`.
pub open spec fn describes(c: Glm4Char, s: Seq<u8>, pos: int) -> bool {
    if pos < s.len() {
        &&& c.valid
        &&& c.cp == codepoint(s, pos)
        &&& c.next == after_char(s, pos)
        &&& pos < c.next <= s.len()
        &&& c.is_letter == is_letter(codepoint(s, pos))
        &&& c.is_number == is_number(codepoint(s, pos))
        &&& c.is_whitespace == is_whitespace(codepoint(s, pos))
    } else {
        &&& !c.valid
        &&& c.cp == 0
        &&& c.next == pos
        &&& !c.is_letter
        &&& !c.is_number
        &&& !c.is_whitespace
    }
}

/// Decodes and classifies the character at `pos`.
pub fn glm4_char_at(s: &[u8], pos: usize) -> (c: Glm4Char)
    ensures
        describes(c, s@, pos as int),
{
    if pos >= s.len() {
        return Glm4Char {
            cp: 0,
            next: pos,
            valid: false,
            is_letter: false,
            is_number: false,
            is_whitespace: false,
        };
    }
    let cp: u32 = peek_codepoint(s, pos);
    let next: usize = next_char(s, pos);
    let is_whitespace: bool = glm4_whitespace(cp);
    let is_number: bool = glm4_number(cp);
    let is_letter: bool = if cp < 128 {
        ascii_alpha(cp as u8)
    } else {
        !is_whitespace && !is_number && !glm4_punct_symbol(cp)
    };
    Glm4Char { cp, next, valid: true, is_letter, is_number, is_whitespace }
}

/// What a run of characters can be made of.
#[derive(Clone, Copy)]
pub enum Kind {
    Letter,
    /// A letter that is not a Han ideograph.
    WordLetter,
    Han,
    Whitespace,
    Newline,
    /// Neither whitespace, letter nor number.
    Symbol,
}

/// Whether code point `cp` is of `kind`.
pub open spec fn of_kind(cp: int, kind: Kind) -> bool {
    match kind {
        Kind::Letter => is_letter(cp),
        Kind::WordLetter => is_letter(cp) && !is_han(cp),
        Kind::Han => is_han(cp),
        Kind::Whitespace => is_whitespace(cp),
        Kind::Newline => is_newline(cp),
        Kind::Symbol => !is_whitespace(cp) && !is_letter(cp) && !is_number(cp),
    }
}

/// Whether a character of `kind` stands at `pos`.
pub open spec fn kind_at(s: Seq<u8>, pos: int, kind: Kind) -> bool {
    0 <= pos < s.len() && of_kind(codepoint(s, pos), kind)
}

/// Where the run of `kind` characters that starts at `pos` ends.
pub open spec fn span_end(s: Seq<u8>, pos: int, kind: Kind) -> int
    decreases s.len() - pos,
{
    if kind_at(s, pos, kind) {
        span_end(s, after_char(s, pos), kind)
    } else {
        pos
    }
}

/// A span ends at or after its start and within the text.
pub proof fn span_end_bounds(s: Seq<u8>, pos: int, kind: Kind)
    requires
        0 <= pos <= s.len(),
    ensures
        pos <= span_end(s, pos, kind) <= s.len(),
        kind_at(s, pos, kind) ==> pos < span_end(s, pos, kind),
    decreases s.len() - pos,
{
    if kind_at(s, pos, kind) {
        span_end_bounds(s, after_char(s, pos), kind);
    }
}

fn is_kind(c: Glm4Char, kind: Kind) -> (r: bool)
    requires
        c.is_letter == is_letter(c.cp as int),
        c.is_number == is_number(c.cp as int),
        c.is_whitespace == is_whitespace(c.cp as int),
    ensures
        r == of_kind(c.cp as int, kind),
{
    match kind {
        Kind::Letter => c.is_letter,
        Kind::WordLetter => c.is_letter && !kimi_is_han(c.cp),
        Kind::Han => kimi_is_han(c.cp),
        Kind::Whitespace => c.is_whitespace,
        Kind::Newline => c.cp == 0x0d || c.cp == 0x0a,
        Kind::Symbol => !c.is_whitespace && !c.is_letter && !c.is_number,
    }
}

/// Skips the run of `kind` characters at `pos`.
pub fn skip_span(s: &[u8], pos: usize, kind: Kind) -> (r: usize)
    requires
        pos <= s@.len(),
    ensures
        r == span_end(s@, pos as int, kind),
        pos <= r <= s@.len(),
{
    let mut p: usize = pos;
    loop
        invariant
            pos <= p <= s@.len(),
            span_end(s@, p as int, kind) == span_end(s@, pos as int, kind),
        ensures
            p == span_end(s@, pos as int, kind),
        decreases s@.len() - p,
    {
        let c: Glm4Char = glm4_char_at(s, p);
        if !c.valid || !is_kind(c, kind) {
            break;
        }
        p = c.next;
    }
    p
}

/// Where a group of at most `n` digits that starts at `pos` ends.
pub open spec fn number_end(s: Seq<u8>, pos: int, n: nat) -> int
    decreases n,
{
    if n > 0 && 0 <= pos < s.len() && is_number(codepoint(s, pos)) {
        number_end(s, after_char(s, pos), (n - 1) as nat)
    } else {
        pos
    }
}

/// A digit group stays inside the text and is not empty where a digit stands.
pub proof fn number_end_bounds(s: Seq<u8>, pos: int, n: nat)
    requires
        0 <= pos <= s.len(),
    ensures
        pos <= number_end(s, pos, n) <= s.len(),
        n > 0 && pos < s.len() && is_number(codepoint(s, pos)) ==> pos < number_end(s, pos, n),
    decreases n,
{
    if n > 0 && pos < s.len() && is_number(codepoint(s, pos)) {
        number_end_bounds(s, after_char(s, pos), (n - 1) as nat);
    }
}

/// Skips a group of at most three digits.
pub fn skip_number(s: &[u8], pos: usize) -> (r: usize)
    requires
        pos <= s@.len(),
    ensures
        r == number_end(s@, pos as int, 3),
        pos <= r <= s@.len(),
{
    let mut p: usize = pos;
    let mut n: usize = 0;
    while n < 3
        invariant_except_break
            pos <= p <= s@.len(),
            n <= 3,
            number_end(s@, p as int, (3 - n) as nat) == number_end(s@, pos as int, 3),
        ensures
            p == number_end(s@, pos as int, 3),
            pos <= p <= s@.len(),
        decreases 3 - n,
    {
        let c: Glm4Char = glm4_char_at(s, p);
        if !c.valid || !c.is_number {
            break;
        }
        p = c.next;
        n += 1;
    }
    p
}

/// Where an English contraction whose apostrophe stands at `pos` ends, or
/// `pos` when there is none: 's 't 'm 'd, then 're 've 'll, in either case.
pub open spec fn contraction_end(s: Seq<u8>, pos: int) -> int {
    let a = after_char(s, pos);
    let b = after_char(s, a);
    let n1 = lower(codepoint(s, a));
    let n2 = lower(codepoint(s, b));
    if !(0 <= pos < s.len()) || codepoint(s, pos) != 0x27 || a >= s.len() {
        pos
    } else if n1 == 0x73 || n1 == 0x74 || n1 == 0x6d || n1 == 0x64 {
        b
    } else if b < s.len() && ((n1 == 0x72 && n2 == 0x65) || (n1 == 0x76 && n2 == 0x65) || (n1
        == 0x6c && n2 == 0x6c)) {
        after_char(s, b)
    } else {
        pos
    }
}

/// Skips an English contraction at `pos`, if there is one.
pub fn skip_contraction(s: &[u8], pos: usize) -> (r: usize)
    requires
        pos <= s@.len(),
    ensures
        r == contraction_end(s@, pos as int),
        pos <= r <= s@.len(),
{
    let ap: Glm4Char = glm4_char_at(s, pos);
    if ap.valid && ap.cp == 0x27 && ap.next < s.len() {
        let c1: Glm4Char = glm4_char_at(s, ap.next);
        let n1: u32 = ascii_lower(c1.cp);
        if n1 == 0x73 || n1 == 0x74 || n1 == 0x6d || n1 == 0x64 {
            return c1.next;
        }
        if c1.next < s.len() {
            let c2: Glm4Char = glm4_char_at(s, c1.next);
            let n2: u32 = ascii_lower(c2.cp);
            if (n1 == 0x72 && n2 == 0x65) || (n1 == 0x76 && n2 == 0x65) || (n1 == 0x6c && n2
                == 0x6c) {
                return c2.next;
            }
        }
    }
    pos
}

/// End of the last newline in the whitespace run from `pos`, or 0 when the
/// run holds none.
pub open spec fn last_newline(s: Seq<u8>, pos: int) -> int
    decreases s.len() - pos,
{
    if kind_at(s, pos, Kind::Whitespace) {
        let later = last_newline(s, after_char(s, pos));
        if later != 0 {
            later
        } else if is_newline(codepoint(s, pos)) {
            after_char(s, pos)
        } else {
            0
        }
    } else {
        0
    }
}

/// Start of the last character of the whitespace run from `pos`.
pub open spec fn last_space(s: Seq<u8>, pos: int) -> int
    decreases s.len() - pos,
{
    if 0 <= pos < s.len() && kind_at(s, after_char(s, pos), Kind::Whitespace) {
        last_space(s, after_char(s, pos))
    } else {
        pos
    }
}

/// Where a piece that starts with whitespace ends: after the last newline of
/// the run if it has one; before its last character when a run of two or
/// more is followed by something; otherwise at the end of the run.
pub open spec fn whitespace_end(s: Seq<u8>, pos: int) -> int {
    let p = span_end(s, pos, Kind::Whitespace);
    if last_newline(s, pos) != 0 {
        last_newline(s, pos)
    } else if kind_at(s, after_char(s, pos), Kind::Whitespace) && p < s.len() {
        last_space(s, pos)
    } else {
        p
    }
}

proof fn last_newline_bounds(s: Seq<u8>, pos: int)
    requires
        0 <= pos <= s.len(),
    ensures
        last_newline(s, pos) == 0 || pos < last_newline(s, pos) <= s.len(),
    decreases s.len() - pos,
{
    if kind_at(s, pos, Kind::Whitespace) {
        last_newline_bounds(s, after_char(s, pos));
    }
}

proof fn last_space_bounds(s: Seq<u8>, pos: int)
    requires
        0 <= pos < s.len(),
    ensures
        pos <= last_space(s, pos) < s.len(),
        kind_at(s, after_char(s, pos), Kind::Whitespace) ==> pos < last_space(s, pos),
    decreases s.len() - pos,
{
    if kind_at(s, after_char(s, pos), Kind::Whitespace) {
        last_space_bounds(s, after_char(s, pos));
    }
}

/// A piece that starts with whitespace is not empty.
pub proof fn whitespace_end_bounds(s: Seq<u8>, pos: int)
    requires
        0 <= pos < s.len(),
        kind_at(s, pos, Kind::Whitespace),
    ensures
        pos < whitespace_end(s, pos) <= s.len(),
{
    last_newline_bounds(s, pos);
    last_space_bounds(s, pos);
    span_end_bounds(s, pos, Kind::Whitespace);
}

/// Cuts a piece that starts with whitespace.
pub fn glm4_whitespace_segment(s: &[u8], pos: usize) -> (r: usize)
    requires
        pos < s@.len(),
        kind_at(s@, pos as int, Kind::Whitespace),
    ensures
        r == whitespace_end(s@, pos as int),
        pos < r <= s@.len(),
{
    let mut p: usize = pos;
    let mut newline_end: usize = 0;
    let mut last_start: usize = pos;
    let mut several: bool = false;
    loop
        invariant
            pos <= last_start <= p <= s@.len(),
            pos < s@.len(),
            kind_at(s@, pos as int, Kind::Whitespace),
            span_end(s@, p as int, Kind::Whitespace) == span_end(
                s@,
                pos as int,
                Kind::Whitespace,
            ),
            last_newline(s@, pos as int) == (if last_newline(s@, p as int) != 0 {
                last_newline(s@, p as int)
            } else {
                newline_end as int
            }),
            p == pos ==> last_start == pos && !several,
            p > pos ==> p == after_char(s@, last_start as int) && last_start < s@.len(),
            p > pos ==> last_space(s@, last_start as int) == last_space(s@, pos as int),
            p > pos ==> several == (last_start > pos),
            last_start > pos ==> kind_at(s@, after_char(s@, pos as int), Kind::Whitespace),
            last_start == pos && p > pos ==> p == after_char(s@, pos as int),
        ensures
            p == span_end(s@, pos as int, Kind::Whitespace),
            p > pos,
            !kind_at(s@, p as int, Kind::Whitespace),
        decreases s@.len() - p,
    {
        let c: Glm4Char = glm4_char_at(s, p);
        if !c.valid || !c.is_whitespace {
            break;
        }
        several = p > pos;
        last_start = p;
        if c.cp == 0x0d || c.cp == 0x0a {
            newline_end = c.next;
        }
        p = c.next;
    }
    proof {
        whitespace_end_bounds(s@, pos as int);
    }
    if newline_end != 0 {
        newline_end
    } else if several && p < s.len() {
        last_start
    } else {
        p
    }
}

/// Where a piece of symbols that starts at `pos`, or one space before them,
/// ends: after the symbols and the newlines behind them. `pos` when there are
/// no symbols.
pub open spec fn symbols_end(s: Seq<u8>, pos: int) -> int {
    let from = if codepoint(s, pos) == 0x20 {
        after_char(s, pos)
    } else {
        pos
    };
    if kind_at(s, from, Kind::Symbol) {
        span_end(s, span_end(s, from, Kind::Symbol), Kind::Newline)
    } else {
        pos
    }
}

/// A piece of symbols stays inside the text.
pub proof fn symbols_end_bounds(s: Seq<u8>, pos: int)
    requires
        0 <= pos < s.len(),
    ensures
        pos <= symbols_end(s, pos) <= s.len(),
{
    let from = if codepoint(s, pos) == 0x20 {
        after_char(s, pos)
    } else {
        pos
    };
    span_end_bounds(s, from, Kind::Symbol);
    span_end_bounds(s, span_end(s, from, Kind::Symbol), Kind::Newline);
}

/// Cuts a piece of symbols.
pub fn skip_symbols(s: &[u8], pos: usize) -> (r: usize)
    requires
        pos < s@.len(),
    ensures
        r == symbols_end(s@, pos as int),
        pos <= r <= s@.len(),
{
    let cur: Glm4Char = glm4_char_at(s, pos);
    let from: usize = if cur.cp == 0x20 {
        cur.next
    } else {
        pos
    };
    let c: Glm4Char = glm4_char_at(s, from);
    if c.valid && is_kind(c, Kind::Symbol) {
        let p: usize = skip_span(s, from, Kind::Symbol);
        skip_span(s, p, Kind::Newline)
    } else {
        pos
    }
}

/// The end of a piece that no letter rule claims: up to three digits, or
/// symbols, or whitespace, or else one character.
pub open spec fn tail_end(s: Seq<u8>, pos: int) -> int {
    if is_number(codepoint(s, pos)) {
        number_end(s, pos, 3)
    } else if symbols_end(s, pos) != pos {
        symbols_end(s, pos)
    } else if is_whitespace(codepoint(s, pos)) {
        whitespace_end(s, pos)
    } else {
        after_char(s, pos)
    }
}

/// Such a piece is not empty.
pub proof fn tail_end_bounds(s: Seq<u8>, pos: int)
    requires
        0 <= pos < s.len(),
    ensures
        pos < tail_end(s, pos) <= s.len(),
{
    number_end_bounds(s, pos, 3);
    symbols_end_bounds(s, pos);
    if is_whitespace(codepoint(s, pos)) {
        whitespace_end_bounds(s, pos);
    }
}

/// Cuts a piece that no letter rule claims.
pub fn skip_tail(s: &[u8], pos: usize) -> (r: usize)
    requires
        pos < s@.len(),
    ensures
        r == tail_end(s@, pos as int),
        pos < r <= s@.len(),
{
    proof {
        tail_end_bounds(s@, pos as int);
    }
    let cur: Glm4Char = glm4_char_at(s, pos);
    if cur.is_number {
        return skip_number(s, pos);
    }
    let p: usize = skip_symbols(s, pos);
    if p != pos {
        return p;
    }
    if cur.is_whitespace {
        return glm4_whitespace_segment(s, pos);
    }
    cur.next
}

/// Where the piece that starts at `pos` ends: a contraction; or letters,
/// optionally led by one character that is no newline and no digit; or what
/// [`tail_end`] says.
pub open spec fn glm4_end(s: Seq<u8>, pos: int) -> int {
    let cp = codepoint(s, pos);
    let next = after_char(s, pos);
    if contraction_end(s, pos) != pos {
        contraction_end(s, pos)
    } else if !is_newline(cp) && !is_number(cp) && (is_letter(cp) || kind_at(
        s,
        next,
        Kind::Letter,
    )) {
        span_end(s, next, Kind::Letter)
    } else {
        tail_end(s, pos)
    }
}

/// The pieces of `s`.
pub open spec fn glm4_pieces(s: Seq<u8>) -> Seq<Seq<u8>> {
    pieces_from(s, 0, |p: int| glm4_end(s, p))
}

/// Every piece is non-empty and inside the text.
pub proof fn glm4_end_bounds(s: Seq<u8>, pos: int)
    requires
        0 <= pos < s.len(),
    ensures
        pos < glm4_end(s, pos) <= s.len(),
{
    span_end_bounds(s, after_char(s, pos), Kind::Letter);
    tail_end_bounds(s, pos);
}

/// The pieces of a text, put back together, are the text; none is empty.
pub proof fn glm4_pieces_rejoin(s: Seq<u8>)
    ensures
        joined(glm4_pieces(s)) == s,
        forall|i: int| 0 <= i < glm4_pieces(s).len() ==> #[trigger] glm4_pieces(s)[i].len() > 0,
{
    let step = |p: int| glm4_end(s, p);
    assert forall|p: int| 0 <= p < s.len() implies p < #[trigger] step(p) <= s.len() by {
        glm4_end_bounds(s, p);
    }
    pieces_rejoin(s, 0, step);
    assert(s.subrange(0, s.len() as int) =~= s);
}

fn glm4_piece(s: &[u8], pos: usize) -> (r: usize)
    requires
        pos < s@.len(),
    ensures
        r == glm4_end(s@, pos as int),
{
    let p: usize = skip_contraction(s, pos);
    if p != pos {
        return p;
    }
    let cur: Glm4Char = glm4_char_at(s, pos);
    if !(cur.cp == 0x0d || cur.cp == 0x0a || cur.is_number) {
        let next: Glm4Char = glm4_char_at(s, cur.next);
        if cur.is_letter || next.is_letter {
            return skip_span(s, cur.next, Kind::Letter);
        }
    }
    skip_tail(s, pos)
}

/// Cuts `s` into pieces.
pub fn pretokenize_glm4(s: &[u8]) -> (out: Vec<&[u8]>)
    ensures
        contents(out@) == glm4_pieces(s@),
{
    let ghost step = |p: int| glm4_end(s@, p);
    let mut out: Vec<&[u8]> = Vec::new();
    let mut pos: usize = 0;
    assert(contents(out@) + glm4_pieces(s@) =~= glm4_pieces(s@));
    while pos < s.len()
        invariant
            pos <= s@.len(),
            step == (|p: int| glm4_end(s@, p)),
            contents(out@) + pieces_from(s@, pos as int, step) == glm4_pieces(s@),
        decreases s@.len() - pos,
    {
        let start: usize = pos;
        pos = glm4_piece(s, start);
        proof {
            glm4_end_bounds(s@, start as int);
        }
        assert(pos == step(start as int));
        let piece: &[u8] = slice_subrange(s, start, pos);
        let ghost before = contents(out@);
        proof {
            contents_push(out@, piece);
        }
        out.push(piece);
        assert(before + pieces_from(s@, start as int, step) =~= contents(out@) + pieces_from(
            s@,
            pos as int,
            step,
        ));
    }
    assert(contents(out@) =~= contents(out@) + pieces_from(s@, pos as int, step));
    out
}

} // verus!
