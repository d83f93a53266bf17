//! Tool calls in generated text: found, parsed, and cut out.

use vstd::prelude::*;
use vstd::slice::slice_subrange;
use vstd::string::*;
#[allow(unused_imports)]
use vstd::utf8::encode_utf8;

#[allow(unused_imports)]
use crate::json::member_seen;
use crate::json::Json;
#[allow(unused_imports)]
use crate::parse::doc_of;
use crate::parse::read_json;
use crate::search::{find_chars, find_from, find_from_finds};
use crate::text::{from_chars, same_text, space_start, to_chars, trim_bounds, trimmed};

verus! {

/// What parsing one block gave: its name where that is text, and its arguments
/// as compact text. `None` when the block is no JSON.
pub type Parsed = Option<(Option<String>, String)>;

/// What begins a call.
pub open spec fn opening() -> Seq<char> {
    seq!['<', 't', 'o', 'o', 'l', '_', 'c', 'a', 'l', 'l', '>']
}

/// What ends a call.
pub open spec fn closing() -> Seq<char> {
    seq!['<', '/', 't', 'o', 'o', 'l', '_', 'c', 'a', 'l', 'l', '>']
}

/// Where each call begins and where its closing marker begins, from `p` on. A
/// call that is never closed is none.
pub open spec fn blocks_from(s: Seq<char>, p: int) -> Seq<(usize, usize)>
    decreases s.len() - p,
    when 0 <= p
    via blocks_decrease
{
    match find_from(s, opening(), p) {
        None => Seq::empty(),
        Some(a) => match find_from(s, closing(), a + 11) {
            None => Seq::empty(),
            Some(e) => seq![(a as usize, e as usize)] + blocks_from(s, e + 12),
        },
    }
}

#[via_fn]
proof fn blocks_decrease(s: Seq<char>, p: int) {
    find_from_finds(s, opening(), p);
    if let Some(a) = find_from(s, opening(), p) {
        find_from_finds(s, closing(), a + 11);
    }
}

/// The calls of a text.
pub open spec fn blocks(s: Seq<char>) -> Seq<(usize, usize)> {
    blocks_from(s, 0)
}

/// What stands between a call's markers, without whitespace at either end.
pub open spec fn block_body(s: Seq<char>, b: (usize, usize)) -> Seq<char> {
    trimmed(s.subrange(b.0 + 11, b.1 as int))
}

/// The contents of a parse result.
pub open spec fn parsed_view(p: Parsed) -> Option<(Option<Seq<char>>, Seq<char>)> {
    match p {
        None => None,
        Some((None, a)) => Some((None, a@)),
        Some((Some(n), a)) => Some((Some(n@), a@)),
    }
}

/// The call that a parsed block is: one with a name that is text. Arguments
/// that are null stand for none.
pub open spec fn call_of(p: Option<(Option<Seq<char>>, Seq<char>)>) -> Option<
    (Seq<char>, Seq<char>),
> {
    match p {
        Some((Some(name), args)) => Some(
            (
                name,
                if args == "null"@ {
                    "{}"@
                } else {
                    args
                },
            ),
        ),
        _ => None,
    }
}

/// The parse results of `list`.
pub open spec fn parsed_views(list: Seq<Parsed>) -> Seq<Option<(Option<Seq<char>>, Seq<char>)>> {
    list.map_values(|p: Parsed| parsed_view(p))
}

/// The calls among the first `n` blocks.
pub open spec fn calls(
    parsed: Seq<Option<(Option<Seq<char>>, Seq<char>)>>,
    n: int,
) -> Seq<(Seq<char>, Seq<char>)>
    decreases n,
{
    if n <= 0 {
        Seq::empty()
    } else {
        let before = calls(parsed, n - 1);
        match call_of(parsed[n - 1]) {
            Some(c) => before.push(c),
            None => before,
        }
    }
}

/// Where block `n` ends, behind its marker; the start of the text for none.
pub open spec fn end_of(bl: Seq<(usize, usize)>, n: int) -> int {
    if n <= 0 {
        0
    } else {
        bl[n - 1].1 + 12
    }
}

/// The text up to the end of the first `n` blocks, without those that are calls.
pub open spec fn kept(
    s: Seq<char>,
    bl: Seq<(usize, usize)>,
    parsed: Seq<Option<(Option<Seq<char>>, Seq<char>)>>,
    n: int,
) -> Seq<char>
    decreases n,
{
    if n <= 0 {
        Seq::empty()
    } else {
        let before = kept(s, bl, parsed, n - 1);
        let from = end_of(bl, n - 1);
        if call_of(parsed[n - 1]) is Some {
            before + s.subrange(from, bl[n - 1].0 as int)
        } else {
            before + s.subrange(from, end_of(bl, n))
        }
    }
}

/// `s` without whitespace at its end.
pub open spec fn trimmed_end(s: Seq<char>) -> Seq<char> {
    s.take(space_start(s, 0, s.len() as int))
}

/// The text that is shown: everything but the blocks that are calls.
pub open spec fn visible(
    s: Seq<char>,
    bl: Seq<(usize, usize)>,
    parsed: Seq<Option<(Option<Seq<char>>, Seq<char>)>>,
) -> Seq<char> {
    let n = bl.len() as int;
    trimmed_end(kept(s, bl, parsed, n) + s.skip(end_of(bl, n)))
}

/// The contents of a list of calls.
pub open spec fn call_views(list: Seq<(String, String)>) -> Seq<(Seq<char>, Seq<char>)> {
    list.map_values(|c: (String, String)| (c.0@, c.1@))
}

/// Whether the blocks lie in order in a text of `n` characters.
pub open spec fn blocks_in(bl: Seq<(usize, usize)>, n: int) -> bool {
    &&& forall|i: int|
        0 <= i < bl.len() ==> (#[trigger] bl[i]).0 + 11 <= bl[i].1 && bl[i].1 + 12 <= n
    &&& forall|i: int, j: int|
        0 <= i < j < bl.len() ==> (#[trigger] bl[i]).1 + 12 <= (#[trigger] bl[j]).0
}

proof fn blocks_from_in(s: Seq<char>, p: int)
    requires
        0 <= p,
        s.len() <= usize::MAX,
    ensures
        blocks_in(blocks_from(s, p), s.len() as int),
        forall|i: int|
            0 <= i < blocks_from(s, p).len() ==> p <= (#[trigger] blocks_from(s, p)[i]).0,
    decreases s.len() - p,
{
    find_from_finds(s, opening(), p);
    if let Some(a) = find_from(s, opening(), p) {
        find_from_finds(s, closing(), a + 11);
        if let Some(e) = find_from(s, closing(), a + 11) {
            blocks_from_in(s, e + 12);
            let rest = blocks_from(s, e + 12);
            let bl = blocks_from(s, p);
            assert(bl =~= seq![(a as usize, e as usize)] + rest);
            assert forall|i: int| 0 <= i < bl.len() implies (#[trigger] bl[i]).0 + 11 <= bl[i].1
                && bl[i].1 + 12 <= s.len() && p <= bl[i].0 by {
                if i > 0 {
                    assert(bl[i] == rest[i - 1]);
                }
            }
            assert forall|i: int, j: int| 0 <= i < j < bl.len() implies (#[trigger] bl[i]).1 + 12
                <= (#[trigger] bl[j]).0 by {
                assert(bl[j] == rest[j - 1]);
                if i > 0 {
                    assert(bl[i] == rest[i - 1]);
                }
            }
        }
    }
}

/// The calls of a text lie in it, one behind the other.
pub proof fn blocks_are_in(s: Seq<char>)
    requires
        s.len() <= usize::MAX,
    ensures
        blocks_in(blocks(s), s.len() as int),
{
    blocks_from_in(s, 0);
}

proof fn kept_untouched(
    s: Seq<char>,
    bl: Seq<(usize, usize)>,
    parsed: Seq<Option<(Option<Seq<char>>, Seq<char>)>>,
    n: int,
)
    requires
        blocks_in(bl, s.len() as int),
        0 <= n <= bl.len(),
        forall|i: int| 0 <= i < n ==> call_of(#[trigger] parsed[i]) is None,
    ensures
        0 <= end_of(bl, n) <= s.len(),
        kept(s, bl, parsed, n) == s.take(end_of(bl, n)),
    decreases n,
{
    if n > 0 {
        kept_untouched(s, bl, parsed, n - 1);
        assert(bl[n - 1].1 + 12 <= s.len());
        if n > 1 {
            assert(bl[n - 2].1 + 12 <= bl[n - 1].0);
        }
        assert(call_of(parsed[n - 1]) is None);
        assert(kept(s, bl, parsed, n) =~= s.take(end_of(bl, n)));
    } else {
        assert(kept(s, bl, parsed, n) =~= s.take(0));
    }
}

/// Blocks that are no calls stay in the text untouched: if none is one, the
/// text is shown as it is, but for whitespace at its end.
pub proof fn unparsed_stays(
    s: Seq<char>,
    bl: Seq<(usize, usize)>,
    parsed: Seq<Option<(Option<Seq<char>>, Seq<char>)>>,
)
    requires
        blocks_in(bl, s.len() as int),
        forall|i: int| 0 <= i < bl.len() ==> call_of(#[trigger] parsed[i]) is None,
    ensures
        visible(s, bl, parsed) == trimmed_end(s),
        calls(parsed, bl.len() as int).len() == 0,
{
    let n = bl.len() as int;
    kept_untouched(s, bl, parsed, n);
    assert(s.take(end_of(bl, n)) + s.skip(end_of(bl, n)) =~= s);
    no_calls(parsed, n);
}

proof fn no_calls(parsed: Seq<Option<(Option<Seq<char>>, Seq<char>)>>, n: int)
    requires
        forall|i: int| 0 <= i < n ==> call_of(#[trigger] parsed[i]) is None,
    ensures
        calls(parsed, n).len() == 0,
    decreases n,
{
    if n > 0 {
        assert(call_of(parsed[n - 1]) is None);
        no_calls(parsed, n - 1);
    }
}

/// What a block says: `None` when it is no JSON; else the text of its member
/// `name`, where that is a string, and its member `arguments` in compact form,
/// null when there is none.
pub open spec fn block_members(block: Seq<char>) -> Option<(Option<Seq<char>>, Seq<char>)> {
    match doc_of(encode_utf8(block)) {
        Some(d) => Some((d.member_string("name"@), d.member_text("arguments"@))),
        None => None,
    }
}

/// Picks a block's name and arguments from the value that it is.
pub fn pick_members(j: &Json) -> (p: (Option<String>, String))
    ensures
        parsed_view(Some(p)) == Some((j.member_string("name"@), j.member_text("arguments"@))),
{
    let name: Option<String> = match j.get_str("name") {
        Some(n) => Some(String::from_str(n)),
        None => None,
    };
    (name, String::from_str(j.get_text("arguments")))
}

/// Reads a block.
pub fn parse_block(block: &str) -> (p: Parsed)
    ensures
        parsed_view(p) == block_members(block@),
{
    match read_json(block.as_bytes()) {
        Some(j) => {
            proof {
                member_seen(j, "name"@);
                member_seen(j, "arguments"@);
            }
            Some(pick_members(&j))
        },
        None => None,
    }
}

/// Finds the calls of a text.
pub fn find_blocks(s: &[char]) -> (bl: Vec<(usize, usize)>)
    ensures
        bl@ == blocks(s@),
        blocks_in(bl@, s@.len() as int),
{
    let open: [char; 11] = ['<', 't', 'o', 'o', 'l', '_', 'c', 'a', 'l', 'l', '>'];
    let close: [char; 12] = ['<', '/', 't', 'o', 'o', 'l', '_', 'c', 'a', 'l', 'l', '>'];
    assert(open@ =~= opening());
    assert(close@ =~= closing());
    let len: usize = s.len();
    let mut bl: Vec<(usize, usize)> = Vec::new();
    let mut p: usize = 0;
    assert(bl@ + blocks(s@) =~= blocks(s@));
    loop
        invariant
            open@ == opening(),
            close@ == closing(),
            len == s@.len(),
            p <= len,
            bl@ + blocks_from(s@, p as int) == blocks(s@),
        ensures
            bl@ == blocks(s@),
        decreases len - p,
    {
        proof {
            find_from_finds(s@, opening(), p as int);
        }
        let a: usize = match find_chars(s, &open, p) {
            Some(a) => a,
            None => {
                assert(bl@ + blocks_from(s@, p as int) =~= bl@);
                break;
            },
        };
        assert(a + 11 <= len);
        proof {
            find_from_finds(s@, closing(), a + 11);
        }
        let e: usize = match find_chars(s, &close, a + 11) {
            Some(e) => e,
            None => {
                assert(bl@ + blocks_from(s@, p as int) =~= bl@);
                break;
            },
        };
        assert(e + 12 <= len);
        let ghost before = bl@;
        bl.push((a, e));
        assert(before + (seq![(a, e)] + blocks_from(s@, e + 12)) =~= bl@ + blocks_from(s@, e + 12));
        p = e + 12;
    }
    proof {
        blocks_are_in(s@);
    }
    bl
}

fn push_chars(out: &mut Vec<char>, s: &[char], from: usize, to: usize)
    requires
        from <= to <= s@.len(),
    ensures
        final(out)@ == old(out)@ + s@.subrange(from as int, to as int),
{
    let mut i: usize = from;
    assert(out@ =~= old(out)@ + s@.subrange(from as int, from as int));
    while i < to
        invariant
            from <= i <= to <= s@.len(),
            out@ == old(out)@ + s@.subrange(from as int, i as int),
        decreases to - i,
    {
        out.push(s[i]);
        i += 1;
        assert(out@ =~= old(out)@ + s@.subrange(from as int, i as int));
    }
}

/// The contents of a call, if it is one.
pub open spec fn call_view(c: Option<(String, String)>) -> Option<(Seq<char>, Seq<char>)> {
    match c {
        Some((n, a)) => Some((n@, a@)),
        None => None,
    }
}

/// Tells whether a parsed block is a call, and which.
pub fn read_call(p: &Parsed) -> (c: Option<(String, String)>)
    ensures
        call_view(c) == call_of(parsed_view(*p)),
{
    match p {
        Some((Some(name), args)) => {
            let args: String = if same_text(args.as_str(), "null") {
                String::from_str("{}")
            } else {
                args.clone()
            };
            Some((name.clone(), args))
        },
        _ => None,
    }
}

/// Splits a text, given what parsing each of its blocks gave: the text that is
/// shown, and the calls as names and arguments.
pub fn split_calls(s: &[char], bl: &[(usize, usize)], parsed: &[Parsed]) -> (r: (
    String,
    Vec<(String, String)>,
))
    requires
        blocks_in(bl@, s@.len() as int),
        parsed@.len() == bl@.len(),
    ensures
        r.0@ == visible(s@, bl@, parsed_views(parsed@)),
        call_views(r.1@) == calls(parsed_views(parsed@), bl@.len() as int),
{
    let ghost views = parsed_views(parsed@);
    let mut clean: Vec<char> = Vec::new();
    let mut found: Vec<(String, String)> = Vec::new();
    let mut from: usize = 0;
    let mut i: usize = 0;
    assert(call_views(found@) =~= calls(views, 0));
    while i < bl.len()
        invariant
            i <= bl@.len(),
            blocks_in(bl@, s@.len() as int),
            parsed@.len() == bl@.len(),
            views == parsed_views(parsed@),
            from == end_of(bl@, i as int),
            from <= s.len(),
            clean@ == kept(s@, bl@, views, i as int),
            call_views(found@) == calls(views, i as int),
        decreases bl@.len() - i,
    {
        let (a, e) = bl[i];
        assert(bl@[i as int].1 + 12 <= s.len());
        assert(from <= a) by {
            if i > 0 {
                assert(bl@[i - 1].1 + 12 <= bl@[i as int].0);
            }
        }
        assert(views[i as int] == parsed_view(parsed@[i as int]));
        let ghost before = found@;
        match read_call(&parsed[i]) {
            Some(c) => {
                push_chars(&mut clean, s, from, a);
                assert(call_view(Some(c)) == Some((c.0@, c.1@)));
                found.push(c);
                assert(call_views(found@) =~= call_views(before).push((c.0@, c.1@)));
            },
            None => {
                push_chars(&mut clean, s, from, e + 12);
            },
        }
        from = e + 12;
        i += 1;
    }
    push_chars(&mut clean, s, from, s.len());
    assert(s@.subrange(from as int, s@.len() as int) =~= s@.skip(from as int));
    let end: usize = end_without_space(&clean);
    let shown: String = from_chars(slice_subrange(&clean, 0, end));
    assert(clean@.subrange(0, end as int) =~= clean@.take(end as int));
    (shown, found)
}

fn end_without_space(s: &Vec<char>) -> (j: usize)
    ensures
        j == space_start(s@, 0, s@.len() as int),
        j <= s@.len(),
{
    let mut j: usize = s.len();
    while 0 < j && crate::text::char_is_space(s[j - 1])
        invariant
            j <= s@.len(),
            space_start(s@, 0, s@.len() as int) == space_start(s@, 0, j as int),
        decreases j,
    {
        j -= 1;
    }
    j
}

/// What parsing each block of a text gives.
pub open spec fn members_of(s: Seq<char>) -> Seq<Option<(Option<Seq<char>>, Seq<char>)>> {
    blocks(s).map_values(|b: (usize, usize)| block_members(block_body(s, b)))
}

/// Splits generated text into what is shown and the tool calls in it. Blocks
/// that are not closed, do not parse or have no name stay in the text.
pub fn extract_tool_calls(text: &str) -> (r: (String, Vec<(String, String)>))
    ensures
        r.0@ == visible(text@, blocks(text@), members_of(text@)),
        call_views(r.1@) == calls(members_of(text@), blocks(text@).len() as int),
{
    let s: Vec<char> = to_chars(text);
    let bl: Vec<(usize, usize)> = find_blocks(&s);
    let mut parsed: Vec<Parsed> = Vec::new();
    let mut i: usize = 0;
    while i < bl.len()
        invariant
            i <= bl@.len(),
            s@ == text@,
            bl@ == blocks(text@),
            blocks_in(bl@, s@.len() as int),
            parsed@.len() == i,
            forall|k: int|
                0 <= k < i ==> parsed_view(#[trigger] parsed@[k]) == block_members(
                    block_body(s@, bl@[k]),
                ),
        decreases bl@.len() - i,
    {
        let (a, e) = bl[i];
        assert(bl@[i as int].1 + 12 <= s.len());
        let body: &[char] = slice_subrange(&s, a + 11, e);
        let (x, y) = trim_bounds(body);
        let block: String = from_chars(slice_subrange(body, x, y));
        parsed.push(parse_block(block.as_str()));
        i += 1;
    }
    assert(parsed_views(parsed@) =~= members_of(text@));
    split_calls(&s, &bl, &parsed)
}

} // verus!
