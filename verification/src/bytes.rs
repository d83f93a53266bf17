//! Byte classes and UTF-8 stepping shared by the pre-tokenizers.
//!
//! Everything here works on raw bytes: a malformed sequence never fails, it
//! is stepped over one byte at a time.

use vstd::prelude::*;

verus! {

/// The ASCII classes a run can be made of.
#[derive(Clone, Copy)]
pub enum Class {
    Alpha,
    Digit,
    Space,
    Newline,
    Punct,
}

/// Whether byte `c` is a member of `class`.
pub open spec fn in_class(c: u8, class: Class) -> bool {
    match class {
        Class::Alpha => 0x41 <= c <= 0x5a || 0x61 <= c <= 0x7a,
        Class::Digit => 0x30 <= c <= 0x39,
        Class::Space => c == 0x20 || 0x09 <= c <= 0x0d,
        Class::Newline => c == 0x0a || c == 0x0d,
        Class::Punct => 0x21 <= c <= 0x2f || 0x3a <= c <= 0x40 || 0x5b <= c <= 0x60 || 0x7b <= c
            <= 0x7e,
    }
}

/// An ASCII letter.
pub fn ascii_alpha(c: u8) -> (r: bool)
    ensures
        r == in_class(c, Class::Alpha),
{
    (0x61 <= c && c <= 0x7a) || (0x41 <= c && c <= 0x5a)
}

/// An ASCII decimal digit.
pub fn ascii_digit(c: u8) -> (r: bool)
    ensures
        r == in_class(c, Class::Digit),
{
    0x30 <= c && c <= 0x39
}

/// Space, tab, newline, carriage return, vertical tab or form feed.
pub fn ascii_space(c: u8) -> (r: bool)
    ensures
        r == in_class(c, Class::Space),
{
    c == 0x20 || c == 0x09 || c == 0x0a || c == 0x0d || c == 0x0b || c == 0x0c
}

/// Newline or carriage return.
pub fn ascii_newline(c: u8) -> (r: bool)
    ensures
        r == in_class(c, Class::Newline),
{
    c == 0x0a || c == 0x0d
}

/// Printable ASCII that is neither alphanumeric nor a space.
pub fn punct_symbol(c: u8) -> (r: bool)
    ensures
        r == in_class(c, Class::Punct),
{
    (0x21 <= c && c <= 0x2f) || (0x3a <= c && c <= 0x40) || (0x5b <= c && c <= 0x60) || (0x7b <= c
        && c <= 0x7e)
}

/// Membership in any of the classes.
pub fn class_of(c: u8, class: Class) -> (r: bool)
    ensures
        r == in_class(c, class),
{
    match class {
        Class::Alpha => ascii_alpha(c),
        Class::Digit => ascii_digit(c),
        Class::Space => ascii_space(c),
        Class::Newline => ascii_newline(c),
        Class::Punct => punct_symbol(c),
    }
}

/// Where the run of `class` bytes that starts at `pos` ends.
pub open spec fn run_end(s: Seq<u8>, pos: int, class: Class) -> int
    decreases s.len() - pos,
{
    if 0 <= pos < s.len() && in_class(s[pos], class) {
        run_end(s, pos + 1, class)
    } else {
        pos
    }
}

/// A run ends at or after its start and within the text.
pub proof fn run_end_bounds(s: Seq<u8>, pos: int, class: Class)
    requires
        0 <= pos <= s.len(),
    ensures
        pos <= run_end(s, pos, class) <= s.len(),
        pos < s.len() && in_class(s[pos], class) ==> pos < run_end(s, pos, class),
    decreases s.len() - pos,
{
    if pos < s.len() && in_class(s[pos], class) {
        run_end_bounds(s, pos + 1, class);
    }
}

/// Skips the run of `class` bytes at `pos`.
pub fn skip_run(s: &[u8], pos: usize, class: Class) -> (r: usize)
    requires
        pos <= s@.len(),
    ensures
        r == run_end(s@, pos as int, class),
        pos <= r <= s@.len(),
{
    let mut p: usize = pos;
    while p < s.len() && class_of(s[p], class)
        invariant
            pos <= p <= s@.len(),
            run_end(s@, p as int, class) == run_end(s@, pos as int, class),
        decreases s@.len() - p,
    {
        p += 1;
    }
    p
}

/// Length in bytes announced by a UTF-8 leading byte; a stray byte counts 1.
pub open spec fn char_len(c: u8) -> int {
    if 0xc0 <= c <= 0xdf {
        2
    } else if 0xe0 <= c <= 0xef {
        3
    } else if 0xf0 <= c <= 0xf7 {
        4
    } else {
        1
    }
}

/// Length in bytes of the character that `c` leads.
pub fn utf8_char_len(c: u8) -> (n: usize)
    ensures
        n == char_len(c),
        1 <= n <= 4,
{
    assert((c & 0xe0 == 0xc0) == (0xc0 <= c <= 0xdf)) by (bit_vector);
    assert((c & 0xf0 == 0xe0) == (0xe0 <= c <= 0xef)) by (bit_vector);
    assert((c & 0xf8 == 0xf0) == (0xf0 <= c <= 0xf7)) by (bit_vector);
    if c < 0x80 {
        1
    } else if c & 0xe0 == 0xc0 {
        2
    } else if c & 0xf0 == 0xe0 {
        3
    } else if c & 0xf8 == 0xf0 {
        4
    } else {
        1
    }
}

/// Start of the character after the one at `pos`; a character cut short by
/// the end of the text is stepped over bytewise.
pub open spec fn after_char(s: Seq<u8>, pos: int) -> int {
    if pos + char_len(s[pos]) > s.len() {
        pos + 1
    } else {
        pos + char_len(s[pos])
    }
}

/// Steps over the character at `pos`.
pub fn next_char(s: &[u8], pos: usize) -> (r: usize)
    requires
        pos < s@.len(),
    ensures
        r == after_char(s@, pos as int),
        pos < r <= s@.len(),
{
    let n: usize = utf8_char_len(s[pos]);
    if n > s.len() - pos {
        pos + 1
    } else {
        pos + n
    }
}

/// The code point at `pos`: payload bits of the announced sequence, with no
/// check on the continuation bytes; a stray or truncated byte is its own value.
pub open spec fn codepoint(s: Seq<u8>, pos: int) -> int {
    let n = char_len(s[pos]);
    if pos + n > s.len() || n == 1 {
        s[pos] as int
    } else if n == 2 {
        s[pos] % 32 * 64 + s[pos + 1] % 64
    } else if n == 3 {
        s[pos] % 16 * 4096 + s[pos + 1] % 64 * 64 + s[pos + 2] % 64
    } else {
        s[pos] % 8 * 262144 + s[pos + 1] % 64 * 4096 + s[pos + 2] % 64 * 64 + s[pos + 3] % 64
    }
}

/// Decodes the code point at `pos`.
pub fn peek_codepoint(s: &[u8], pos: usize) -> (cp: u32)
    requires
        pos < s@.len(),
    ensures
        cp == codepoint(s@, pos as int),
{
    let n: usize = utf8_char_len(s[pos]);
    if n > s.len() - pos || n == 1 {
        return s[pos] as u32;
    }
    let b0: u8 = s[pos];
    let b1: u8 = s[pos + 1];
    if n == 2 {
        assert(((b0 & 0x1f) as u32) << 6 | ((b1 & 0x3f) as u32) == (b0 % 32) as u32 * 64 + (b1
            % 64) as u32) by (bit_vector);
        return ((b0 & 0x1f) as u32) << 6 | ((b1 & 0x3f) as u32);
    }
    let b2: u8 = s[pos + 2];
    if n == 3 {
        assert(((b0 & 0x0f) as u32) << 12 | ((b1 & 0x3f) as u32) << 6 | ((b2 & 0x3f) as u32) == (b0
            % 16) as u32 * 4096 + (b1 % 64) as u32 * 64 + (b2 % 64) as u32) by (bit_vector);
        return ((b0 & 0x0f) as u32) << 12 | ((b1 & 0x3f) as u32) << 6 | ((b2 & 0x3f) as u32);
    }
    let b3: u8 = s[pos + 3];
    assert(((b0 & 0x07) as u32) << 18 | ((b1 & 0x3f) as u32) << 12 | ((b2 & 0x3f) as u32) << 6 | ((
    b3 & 0x3f) as u32) == (b0 % 8) as u32 * 262144 + (b1 % 64) as u32 * 4096 + (b2 % 64) as u32 * 64
        + (b3 % 64) as u32) by (bit_vector);
    ((b0 & 0x07) as u32) << 18 | ((b1 & 0x3f) as u32) << 12 | ((b2 & 0x3f) as u32) << 6 | ((b3
        & 0x3f) as u32)
}

/// The pieces of `s` from `pos` on, when `step(p)` is the end of the piece
/// that starts at `p`.
pub open spec fn pieces_from(s: Seq<u8>, pos: int, step: spec_fn(int) -> int) -> Seq<Seq<u8>>
    decreases s.len() - pos,
{
    if 0 <= pos < s.len() && pos < step(pos) <= s.len() {
        seq![s.subrange(pos, step(pos))] + pieces_from(s, step(pos), step)
    } else {
        Seq::empty()
    }
}

/// Whether every piece that `step` cuts from `s` makes progress and stays
/// inside the text.
pub open spec fn steps_within(s: Seq<u8>, step: spec_fn(int) -> int) -> bool {
    forall|p: int| 0 <= p < s.len() ==> p < #[trigger] step(p) <= s.len()
}

/// The contents of a list of borrowed pieces.
pub open spec fn contents(pieces: Seq<&[u8]>) -> Seq<Seq<u8>> {
    pieces.map_values(|p: &[u8]| p@)
}

/// All pieces put back together.
pub open spec fn joined(pieces: Seq<Seq<u8>>) -> Seq<u8>
    decreases pieces.len(),
{
    if pieces.len() == 0 {
        Seq::empty()
    } else {
        pieces[0] + joined(pieces.drop_first())
    }
}

/// Cutting a text into pieces loses and reorders nothing, and no piece is empty.
pub proof fn pieces_rejoin(s: Seq<u8>, pos: int, step: spec_fn(int) -> int)
    requires
        0 <= pos <= s.len(),
        steps_within(s, step),
    ensures
        joined(pieces_from(s, pos, step)) == s.subrange(pos, s.len() as int),
        forall|i: int|
            0 <= i < pieces_from(s, pos, step).len() ==> #[trigger] pieces_from(s, pos, step)[i].len()
                > 0,
    decreases s.len() - pos,
{
    if pos < s.len() {
        let e = step(pos);
        pieces_rejoin(s, e, step);
        let rest = pieces_from(s, e, step);
        let all = pieces_from(s, pos, step);
        assert(all.drop_first() =~= rest);
        assert(all[0] == s.subrange(pos, e));
        assert(s.subrange(pos, e) + s.subrange(e, s.len() as int) =~= s.subrange(
            pos,
            s.len() as int,
        ));
        assert forall|i: int| 0 <= i < all.len() implies #[trigger] all[i].len() > 0 by {
            if i > 0 {
                assert(all[i] == rest[i - 1]);
            }
        }
    } else {
        assert(s.subrange(pos, s.len() as int) =~= Seq::empty());
    }
}

/// Pushing one more piece extends the contents by it.
pub proof fn contents_push(pieces: Seq<&[u8]>, p: &[u8])
    ensures
        contents(pieces.push(p)) == contents(pieces).push(p@),
{
    assert(contents(pieces.push(p)) =~= contents(pieces).push(p@));
}

} // verus!
