//! The byte-to-character bijection that byte-level vocabularies are written
//! in: printable bytes stand for themselves, the others for characters from
//! U+0100 on, so that any bytes can be held in valid text.

use vstd::prelude::*;
use vstd::utf8::encode_scalar;

verus! {

/// Bytes that stand for themselves.
pub open spec fn printable(b: int) -> bool {
    33 <= b <= 126 || 161 <= b <= 172 || 174 <= b <= 255
}

/// How many bytes below `b` are not printable.
pub open spec fn unprintable_below(b: int) -> int
    decreases b,
{
    if b <= 0 {
        0
    } else {
        unprintable_below(b - 1) + if printable(b - 1) {
            0int
        } else {
            1
        }
    }
}

/// The code point that stands for byte `b`.
pub open spec fn byte_code(b: u8) -> int {
    if printable(b as int) {
        b as int
    } else {
        256 + unprintable_below(b as int)
    }
}

/// The character that stands for byte `b`.
pub open spec fn byte_char(b: u8) -> char {
    byte_code(b) as char
}

/// The characters that stand for `bytes`.
pub open spec fn byte_chars(bytes: Seq<u8>) -> Seq<char> {
    bytes.map_values(|b: u8| byte_char(b))
}

/// The byte that a character stands for, if it stands for one.
pub open spec fn char_byte(c: char) -> Option<u8> {
    if exists|b: u8| byte_char(b) == c {
        Some(choose|b: u8| byte_char(b) == c)
    } else {
        None
    }
}

proof fn unprintable_count(b: int)
    requires
        0 <= b <= 256,
    ensures
        unprintable_below(b) == if b <= 33 {
            b
        } else if b <= 127 {
            33
        } else if b <= 161 {
            b - 94
        } else if b <= 173 {
            67
        } else {
            68
        },
    decreases b,
{
    if b > 0 {
        unprintable_count(b - 1);
    }
}

/// No two bytes share a character.
pub proof fn byte_char_injective(a: u8, b: u8)
    requires
        byte_char(a) == byte_char(b),
    ensures
        a == b,
{
    unprintable_count(a as int);
    unprintable_count(b as int);
}

/// The character of a byte stands for that byte and no other.
pub proof fn char_byte_inverts(b: u8)
    ensures
        char_byte(byte_char(b)) == Some(b),
{
    let c = byte_char(b);
    let x = choose|x: u8| byte_char(x) == c;
    assert(byte_char(x) == c);
    byte_char_injective(x, b);
}

/// A character that stands for a byte is the character of that byte.
pub proof fn byte_char_inverts(c: char)
    ensures
        char_byte(c) matches Some(b) ==> byte_char(b) == c,
{
}

fn is_printable(b: u8) -> (r: bool)
    ensures
        r == printable(b as int),
{
    (33 <= b && b <= 126) || (161 <= b && b <= 172) || b >= 174
}

/// The character that stands for byte `b`.
pub fn gpt2_byte_to_char(b: u8) -> (c: char)
    ensures
        c == byte_char(b),
{
    if is_printable(b) {
        return b as char;
    }
    let mut n: u32 = 0;
    let mut x: u8 = 0;
    while x < b
        invariant
            x <= b,
            n <= x,
            n == unprintable_below(x as int),
        decreases b - x,
    {
        if !is_printable(x) {
            n += 1;
        }
        x += 1;
    }
    char::from_u32(256 + n).unwrap()
}

/// The byte that `c` stands for.
pub fn gpt2_char_to_byte(c: char) -> (r: Option<u8>)
    ensures
        r == char_byte(c),
{
    let mut b: u8 = 0;
    loop
        invariant
            forall|x: u8| x < b ==> byte_char(x) != c,
        decreases 255 - b,
    {
        if gpt2_byte_to_char(b) == c {
            proof {
                char_byte_inverts(b);
            }
            return Some(b);
        }
        if b == 255 {
            return None;
        }
        b += 1;
    }
}

/// The 256 characters in byte order.
pub fn byte_table() -> (t: Vec<char>)
    ensures
        t@.len() == 256,
        forall|b: u8| #[trigger] t@[b as int] == byte_char(b),
{
    let mut t: Vec<char> = Vec::new();
    let mut b: u16 = 0;
    while b < 256
        invariant
            b <= 256,
            t@.len() == b,
            forall|x: u8| x < b ==> #[trigger] t@[x as int] == byte_char(x),
        decreases 256 - b,
    {
        t.push(gpt2_byte_to_char(b as u8));
        b += 1;
    }
    t
}

/// The bytes that token text stands for: each character its byte, or its
/// UTF-8 form when it stands for none.
pub open spec fn token_bytes(text: Seq<char>) -> Seq<u8>
    decreases text.len(),
{
    if text.len() == 0 {
        Seq::empty()
    } else {
        token_bytes(text.drop_last()) + char_bytes(text.last())
    }
}

/// The bytes that one character of token text stands for.
pub open spec fn char_bytes(c: char) -> Seq<u8> {
    match char_byte(c) {
        Some(b) => seq![b],
        None => encode_scalar(c as u32),
    }
}

/// Token text put together stands for the bytes put together.
pub proof fn token_bytes_concat(a: Seq<char>, b: Seq<char>)
    ensures
        token_bytes(a + b) == token_bytes(a) + token_bytes(b),
    decreases b.len(),
{
    if b.len() == 0 {
        assert(a + b =~= a);
        assert(token_bytes(a) + token_bytes(b) =~= token_bytes(a));
    } else {
        assert((a + b).drop_last() =~= a + b.drop_last());
        token_bytes_concat(a, b.drop_last());
        assert(token_bytes(a + b) =~= token_bytes(a) + token_bytes(b));
    }
}

/// Bytes written as characters stand for the same bytes again.
pub proof fn token_bytes_inverts(bytes: Seq<u8>)
    ensures
        token_bytes(byte_chars(bytes)) == bytes,
    decreases bytes.len(),
{
    if bytes.len() > 0 {
        let init = bytes.drop_last();
        assert(byte_chars(bytes).drop_last() =~= byte_chars(init));
        token_bytes_inverts(init);
        char_byte_inverts(bytes.last());
        assert(init + seq![bytes.last()] =~= bytes);
    } else {
        assert(token_bytes(byte_chars(bytes)) =~= bytes);
    }
}

/// Printable bytes stand for themselves; the others are counted up from U+0100 in
/// byte order: the control characters and the space first, then those from 127 to
/// 160, and 173 last.
pub proof fn byte_characters(b: u8)
    ensures
        33 <= b <= 126 ==> byte_char(b) as int == b,
        161 <= b <= 255 && b != 173 ==> byte_char(b) as int == b,
        b <= 32 ==> byte_char(b) as int == 0x100 + b,
        127 <= b <= 160 ==> byte_char(b) as int == 0x121 + (b - 127),
        b == 173 ==> byte_char(b) as int == 0x143,
{
    unprintable_count(b as int);
}

/// A character that no byte has stands for its own UTF-8 bytes.
pub proof fn other_characters_stand_for_utf8(c: char)
    requires
        c as int > 0x143 || (c as int == 173 || c as int <= 32 || 127 <= c as int <= 160),
    ensures
        char_bytes(c) == encode_scalar(c as u32),
{
    assert forall|b: u8| byte_char(b) != c by {
        byte_characters(b);
    }
}

} // verus!
