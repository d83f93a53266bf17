//! The little of HTTP that the server speaks.

use vstd::prelude::*;
use vstd::string::*;
use vstd::utf8::encode_utf8;

use crate::lines::{begins, cut, fields, piece, split_fields, starts_with};
use crate::text::{
    decimal, from_chars, parse_unsigned, push_decimal, same_text, to_chars, trim_bounds, trimmed,
    unsigned_in,
};

verus! {

/// Field `i`, or nothing when there are fewer.
pub open spec fn field(line: Seq<char>, i: int) -> Seq<char> {
    if i < fields(line).len() {
        fields(line)[i]
    } else {
        Seq::empty()
    }
}

/// Reads method and path from a request line; what is missing is empty.
pub fn parse_request_line(line: &str) -> (r: (String, String))
    ensures
        r.0@ == field(line@, 0),
        r.1@ == field(line@, 1),
{
    let chars: Vec<char> = to_chars(line);
    let at: Vec<(usize, usize)> = split_fields(&chars);
    assert(cut(chars@, at@).len() == at@.len());
    let method: String = if at.len() > 0 {
        let w: &[char] = piece(&chars, at[0]);
        assert(w@ == cut(chars@, at@)[0]);
        from_chars(w)
    } else {
        String::new()
    };
    let path: String = if at.len() > 1 {
        let w: &[char] = piece(&chars, at[1]);
        assert(w@ == cut(chars@, at@)[1]);
        from_chars(w)
    } else {
        String::new()
    };
    (method, path)
}

/// What a header line says.
#[derive(Debug, Clone, Copy, PartialEq, Eq, Structural)]
pub enum HeaderLine {
    /// The headers are over.
    End,
    /// The body has this many bytes.
    Length(usize),
    /// Something that does not matter here.
    Other,
}

/// An ASCII capital in lower case; anything else as it is.
pub open spec fn lower_char(c: char) -> char {
    if 'A' <= c <= 'Z' {
        (c as u32 + 32) as char
    } else {
        c
    }
}

/// `s` with ASCII capitals in lower case.
pub open spec fn lower_text(s: Seq<char>) -> Seq<char> {
    s.map_values(|c: char| lower_char(c))
}

/// The name of the header that gives the body's length.
pub open spec fn length_header() -> Seq<char> {
    "content-length:"@
}

/// What a header line says: a blank one ends the headers; a length that is no
/// number is zero.
pub open spec fn header(line: Seq<char>) -> HeaderLine {
    let s = lower_text(trimmed(line));
    if s.len() == 0 {
        HeaderLine::End
    } else if begins(s, length_header()) {
        match unsigned_in(trimmed(s.skip(length_header().len() as int)), usize::MAX as nat) {
            Some(n) => HeaderLine::Length(n as usize),
            None => HeaderLine::Length(0),
        }
    } else {
        HeaderLine::Other
    }
}

fn lower(s: &[char]) -> (out: Vec<char>)
    ensures
        out@ == lower_text(s@),
{
    let mut out: Vec<char> = Vec::new();
    let mut i: usize = 0;
    while i < s.len()
        invariant
            i <= s@.len(),
            out@ =~= lower_text(s@).take(i as int),
        decreases s@.len() - i,
    {
        out.push(lower_one(s[i]));
        i += 1;
    }
    assert(lower_text(s@).take(i as int) =~= lower_text(s@));
    out
}

fn lower_one(c: char) -> (r: char)
    ensures
        r == lower_char(c),
{
    if 'A' <= c && c <= 'Z' {
        ((c as u8) + 32) as char
    } else {
        c
    }
}

/// Reads one header line.
pub fn parse_header_line(line: &str) -> (h: HeaderLine)
    ensures
        h == header(line@),
{
    let chars: Vec<char> = to_chars(line);
    let (a, b) = trim_bounds(&chars);
    let s: Vec<char> = lower(piece(&chars, (a, b)));
    if s.len() == 0 {
        return HeaderLine::End;
    }
    let name: Vec<char> = to_chars("content-length:");
    if starts_with(&s, &name) {
        let rest: &[char] = piece(&s, (name.len(), s.len()));
        assert(rest@ =~= s@.skip(length_header().len() as int));
        let (x, y) = trim_bounds(rest);
        match parse_unsigned(piece(rest, (x, y)), usize::MAX as u64) {
            Some(n) => HeaderLine::Length(n as usize),
            None => HeaderLine::Length(0),
        }
    } else {
        HeaderLine::Other
    }
}

/// What a request is for.
#[derive(Debug, Clone, Copy, PartialEq, Eq, Structural)]
pub enum Route {
    Models,
    Chat,
    NotFound,
}

/// Decides what a request is for.
pub fn route(method: &str, path: &str) -> (r: Route)
    ensures
        r == (if method@ == "GET"@ && path@ == "/v1/models"@ {
            Route::Models
        } else if method@ == "POST"@ && path@ == "/v1/chat/completions"@ {
            Route::Chat
        } else {
            Route::NotFound
        }),
{
    if same_text(method, "GET") && same_text(path, "/v1/models") {
        Route::Models
    } else if same_text(method, "POST") && same_text(path, "/v1/chat/completions") {
        Route::Chat
    } else {
        Route::NotFound
    }
}

/// A whole JSON response: status line, headers and body. The length is that of
/// the body in bytes.
pub fn json_response(status: u16, body: &str) -> (s: String)
    ensures
        s@ == "HTTP/1.1 "@ + decimal(status as nat) + (if status == 200 {
            " OK"@
        } else {
            " Error"@
        }) + "\r\ncontent-type: application/json\r\ncontent-length: "@ + decimal(
            encode_utf8(body@).len(),
        ) + "\r\n\r\n"@ + body@,
{
    let mut s: String = String::from_str("HTTP/1.1 ");
    push_decimal(&mut s, status as u64);
    if status == 200 {
        s.append(" OK");
    } else {
        s.append(" Error");
    }
    s.append("\r\ncontent-type: application/json\r\ncontent-length: ");
    let n: usize = body.as_bytes().len();
    push_decimal(&mut s, n as u64);
    s.append("\r\n\r\n");
    s.append(body);
    s
}

/// One event of a stream.
pub fn event(data: &str) -> (s: String)
    ensures
        s@ == "data: "@ + data@ + "\n\n"@,
{
    let mut s: String = String::from_str("data: ");
    s.append(data);
    s.append("\n\n");
    s
}

/// A header line gives the body's length if it begins, in whatever case, with the
/// name of that header; its value is the number behind it, with whitespace around it
/// or not. A blank line ends the headers.
pub proof fn header_gives_length(line: Seq<char>)
    ensures
        trimmed(line).len() == 0 <==> header(line) == HeaderLine::End,
        header(line) is Length <==> begins(lower_text(trimmed(line)), "content-length:"@),
        header(line) matches HeaderLine::Length(n) ==> match unsigned_in(
            trimmed(lower_text(trimmed(line)).skip(15)),
            usize::MAX as nat,
        ) {
            Some(v) => n == v,
            None => n == 0,
        },
{
    reveal_strlit("content-length:");
    assert("content-length:"@.len() == 15);
    assert(lower_text(trimmed(line)).len() == trimmed(line).len());
}

/// Lower case changes ASCII capitals and nothing else.
pub proof fn lower_case_is_ascii(s: Seq<char>, i: int)
    requires
        0 <= i < s.len(),
    ensures
        lower_text(s).len() == s.len(),
        'A' <= s[i] <= 'Z' ==> lower_text(s)[i] as u32 == s[i] as u32 + 32,
        !('A' <= s[i] <= 'Z') ==> lower_text(s)[i] == s[i],
{
}

} // verus!
