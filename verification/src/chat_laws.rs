//! What serving a chat promises: how messages become ids, which calls are found in
//! a reply and what is left of it, and what is reused and sent.

use vstd::prelude::*;
use vstd::string::*;
#[allow(unused_imports)]
use vstd::utf8::valid_utf8;

#[allow(unused_imports)]
use crate::answer::{calls_tree, chunk_fields, completion_tree, delta_tree, error_tree, models_tree, Delta, Tree};
#[allow(unused_imports)]
use crate::bpe::Bpe;
#[allow(unused_imports)]
use crate::chat::Markers;
#[allow(unused_imports)]
use crate::json::Json;
#[allow(unused_imports)]
use crate::messages::{
    call_arguments, calls_text, encoded, message_text, schemas, tools_intro, tools_text,
    trimmed_start, with_message, Encoded,
};
#[allow(unused_imports)]
use crate::reply::{common_from, mark, reuse, valid_len, Reuse, Stream};
#[allow(unused_imports)]
use crate::search::{find_from, find_from_finds, stands_at};
#[allow(unused_imports)]
use crate::text::{is_space, space_end, space_start, trimmed};
#[allow(unused_imports)]
use crate::toolcall::{
    blocks, blocks_from, blocks_in, call_of, calls, closing, end_of, kept, opening, trimmed_end,
    visible,
};

verus! {

proof fn role_names_differ()
    ensures
        "system"@ != "user"@,
        "system"@ != "assistant"@,
        "system"@ != "tool"@,
        "user"@ != "assistant"@,
        "user"@ != "tool"@,
        "assistant"@ != "tool"@,
{
    reveal_strlit("system");
    reveal_strlit("user");
    reveal_strlit("assistant");
    reveal_strlit("tool");
    assert("user"@[0] != "tool"@[0]);
    assert("system"@.len() == 6 && "user"@.len() == 4 && "assistant"@.len() == 9 && "tool"@.len()
        == 4);
}

/// A conversation is its messages, each behind those before it: one message adds
/// ids at the end and changes none.
pub proof fn messages_go_in_order(
    m: Markers,
    t: Bpe,
    messages: Seq<Json>,
    tools: Option<Seq<Json>>,
    n: int,
)
    requires
        0 <= n < messages.len(),
    ensures
        ({
            let a = encoded(m, t, messages, tools, n).ids;
            let b = encoded(m, t, messages, tools, n + 1).ids;
            &&& a.len() <= b.len()
            &&& b.take(a.len() as int) == a
            &&& encoded(m, t, messages, tools, 0).ids == seq![m.bos]
        }),
{
    let e = encoded(m, t, messages, tools, n);
    let a = e.ids;
    let b = encoded(m, t, messages, tools, n + 1).ids;
    assert(b == with_message(m, t, e, messages[n]).ids);
    assert(b.take(a.len() as int) =~= a);
}

/// What a message of each role goes in as: a system message in the system layout,
/// the tools behind its text if they are still to come; a user message in the user
/// layout, the tools in a system message before it; an assistant's as a finished
/// turn, its calls behind its text as the model writes them; a tool's result as a
/// user message that names the call. Any other goes in as nothing.
pub proof fn message_goes_in_by_role(m: Markers, t: Bpe, ids: Seq<u32>, tools: Seq<char>, msg: Json)
    ensures
        ({
            let role = msg.member_string("role"@);
            let text = message_text(msg);
            let early = with_message(m, t, Encoded { ids, pending: Some(tools) }, msg).ids;
            let late = with_message(m, t, Encoded { ids, pending: None }, msg).ids;
            &&& role == Some("system"@) ==> {
                &&& late == ids + m.system(t, text)
                &&& early == ids + m.system(t, text + tools)
            }
            &&& role == Some("user"@) ==> {
                &&& late == ids + m.user_message(t, text)
                &&& early == ids + m.system(t, trimmed_start(tools)) + m.user_message(t, text)
            }
            &&& role == Some("assistant"@) ==> {
                &&& early == late
                &&& msg.member_list("tool_calls"@) is None ==> late == ids + m.history(t, text)
                &&& msg.member_list("tool_calls"@) matches Some(c) ==> late == ids + m.history(
                    t,
                    text + calls_text(c, c.len() as int),
                )
            }
            &&& role == Some("tool"@) ==> {
                &&& early == late
                &&& msg.member_string("tool_call_id"@) matches Some(id) ==> late == ids
                    + m.user_message(
                    t,
                    "<tool_result id=\""@ + id + "\">\n"@ + text + "\n</tool_result>"@,
                )
            }
            &&& role != Some("system"@) && role != Some("user"@) && role != Some("assistant"@)
                && role != Some("tool"@) ==> late == ids && early == ids
        }),
{
    role_names_differ();
    reveal_strlit("system");
    reveal_strlit("user");
    reveal_strlit("assistant");
    reveal_strlit("tool");
    assert(ids + Seq::<u32>::empty() =~= ids);
}

/// A past call is written as the model writes one: its name and its arguments
/// between the markers of a call.
pub proof fn past_call_is_written_whole(calls: Seq<Json>, n: int, f: Json)
    requires
        0 <= n < calls.len(),
        calls[n].member("function"@) == Some(f),
    ensures
        f.member_string("arguments"@) matches Some(args) ==> calls_text(calls, n + 1) == calls_text(
            calls,
            n,
        ) + ("\n<tool_call>\n{\"name\": "@ + f.member_text("name"@) + ", \"arguments\": "@ + args
            + "}\n</tool_call>"@),
        f.member_string("arguments"@) is None ==> calls_text(calls, n + 1) == calls_text(calls, n)
            + ("\n<tool_call>\n{\"name\": "@ + f.member_text("name"@) + ", \"arguments\": "@ + "{}"@
            + "}\n</tool_call>"@),
        calls_text(calls, 0).len() == 0,
{
    let args = call_arguments(calls[n]);
    assert(calls_text(calls, n + 1) =~= calls_text(calls, n) + ("\n<tool_call>\n{\"name\": "@
        + f.member_text("name"@) + ", \"arguments\": "@ + args + "}\n</tool_call>"@));
}

/// The tools' schemas are listed in order, with commas between.
pub proof fn schemas_are_listed(tools: Seq<Json>, n: int)
    requires
        1 <= n < tools.len(),
    ensures
        schemas(tools, 1) == tools[0].member_text("function"@),
        schemas(tools, n + 1) == schemas(tools, n) + seq![','] + tools[n].member_text("function"@),
        tools_text(Some(tools)) == Some(
            tools_intro() + "["@ + schemas(tools, tools.len() as int) + "]"@,
        ),
        tools_text(None) is None,
        tools_text(Some(Seq::empty())) is None,
{
    assert(schemas(tools, n + 1) =~= schemas(tools, n) + seq![','] + tools[n].member_text(
        "function"@,
    ));
}

proof fn space_end_is_end(s: Seq<char>, i: int)
    requires
        0 <= i <= s.len(),
    ensures
        ({
            let e = space_end(s, i);
            &&& i <= e <= s.len()
            &&& forall|k: int| i <= k < e ==> is_space(#[trigger] s[k])
            &&& e < s.len() ==> !is_space(s[e])
        }),
    decreases s.len() - i,
{
    if i < s.len() && is_space(s[i]) {
        space_end_is_end(s, i + 1);
    }
}

proof fn space_start_is_start(s: Seq<char>, i: int, j: int)
    requires
        0 <= i <= j <= s.len(),
    ensures
        ({
            let b = space_start(s, i, j);
            &&& i <= b <= j
            &&& forall|k: int| b <= k < j ==> is_space(#[trigger] s[k])
            &&& b > i ==> !is_space(s[b - 1])
        }),
    decreases j - i,
{
    if i < j && is_space(s[j - 1]) {
        space_start_is_start(s, i, j - 1);
    }
}

/// Trimming takes away whitespace at the ends, all of it and nothing else.
pub proof fn trimming_takes_whitespace(s: Seq<char>)
    ensures
        ({
            let t = trimmed(s);
            let e = trimmed_end(s);
            let b = trimmed_start(s);
            &&& t.len() > 0 ==> !is_space(t[0]) && !is_space(t.last())
            &&& exists|i: int, j: int|
                {
                    &&& 0 <= i <= j <= s.len()
                    &&& t == #[trigger] s.subrange(i, j)
                    &&& forall|k: int| 0 <= k < i || j <= k < s.len() ==> is_space(#[trigger] s[k])
                }
            &&& e.len() <= s.len() && e == s.take(e.len() as int)
            &&& e.len() > 0 ==> !is_space(e.last())
            &&& forall|k: int| e.len() <= k < s.len() ==> is_space(#[trigger] s[k])
            &&& b.len() <= s.len() && b == s.skip(s.len() - b.len())
            &&& b.len() > 0 ==> !is_space(b[0])
            &&& forall|k: int| 0 <= k < s.len() - b.len() ==> is_space(#[trigger] s[k])
        }),
{
    let n = s.len() as int;
    let i = space_end(s, 0);
    space_end_is_end(s, 0);
    space_start_is_start(s, i, n);
    space_start_is_start(s, 0, n);
    let j = space_start(s, i, n);
    let t = trimmed(s);
    assert(t == s.subrange(i, j));
    if t.len() > 0 {
        assert(t[0] == s[i]);
        assert(t.last() == s[j - 1]);
    }
    assert forall|k: int| 0 <= k < i || j <= k < s.len() implies is_space(#[trigger] s[k]) by {}
    let e = trimmed_end(s);
    assert(e.len() == space_start(s, 0, n));
    if e.len() > 0 {
        assert(e.last() == s[e.len() - 1]);
    }
    let b = trimmed_start(s);
    assert(b.len() == n - i);
    if b.len() > 0 {
        assert(b[0] == s[i]);
    }
}

/// The markers of a call, in characters and in bytes.
pub proof fn markers_spelled()
    ensures
        opening() == "<tool_call>"@,
        closing() == "</tool_call>"@,
        mark().len() == opening().len(),
        forall|i: int| 0 <= i < 11 ==> mark()[i] == #[trigger] opening()[i] as u32,
{
    reveal_strlit("<tool_call>");
    reveal_strlit("</tool_call>");
    assert(opening() =~= "<tool_call>"@);
    assert(closing() =~= "</tool_call>"@);
    assert forall|i: int| 0 <= i < 11 implies mark()[i] == #[trigger] opening()[i] as u32 by {
        if i == 0 {
        } else if i == 1 {
        } else if i == 2 {
        } else if i == 3 {
        } else if i == 4 {
        } else if i == 5 {
        } else if i == 6 {
        } else if i == 7 {
        } else if i == 8 {
        } else if i == 9 {
        }
    }
}

proof fn blocks_at(s: Seq<char>, p: int, i: int)
    requires
        0 <= p,
        s.len() <= usize::MAX,
        0 <= i < blocks_from(s, p).len(),
    ensures
        ({
            let bl = blocks_from(s, p);
            let from = if i == 0 {
                p
            } else {
                bl[i - 1].1 + 12
            };
            let (a, e) = (bl[i].0 as int, bl[i].1 as int);
            &&& from <= a && a + 11 <= e
            &&& stands_at(s, opening(), a)
            &&& stands_at(s, closing(), e)
            &&& forall|j: int| from <= j < a ==> !#[trigger] stands_at(s, opening(), j)
            &&& forall|j: int| a + 11 <= j < e ==> !#[trigger] stands_at(s, closing(), j)
        }),
    decreases s.len() - p,
{
    find_from_finds(s, opening(), p);
    match find_from(s, opening(), p) {
        None => {},
        Some(a) => {
            find_from_finds(s, closing(), a + 11);
            match find_from(s, closing(), a + 11) {
                None => {},
                Some(e) => {
                    let rest = blocks_from(s, e + 12);
                    let bl = blocks_from(s, p);
                    assert(bl =~= seq![(a as usize, e as usize)] + rest);
                    if i > 0 {
                        blocks_at(s, e + 12, i - 1);
                        assert(bl[i] == rest[i - 1]);
                        if i > 1 {
                            assert(bl[i - 1] == rest[i - 2]);
                        }
                    }
                },
            }
        },
    }
}

proof fn blocks_end(s: Seq<char>, p: int)
    requires
        0 <= p,
        s.len() <= usize::MAX,
    ensures
        ({
            let bl = blocks_from(s, p);
            let from = if bl.len() == 0 {
                p
            } else {
                bl.last().1 + 12
            };
            forall|a: int, e: int|
                from <= a && a + 11 <= e ==> !(#[trigger] stands_at(s, opening(), a)
                    && #[trigger] stands_at(s, closing(), e))
        }),
    decreases s.len() - p,
{
    find_from_finds(s, opening(), p);
    match find_from(s, opening(), p) {
        None => {},
        Some(a) => {
            find_from_finds(s, closing(), a + 11);
            match find_from(s, closing(), a + 11) {
                None => {
                    assert forall|x: int, e: int| p <= x && x + 11 <= e implies !(
                    #[trigger] stands_at(s, opening(), x) && #[trigger] stands_at(
                        s,
                        closing(),
                        e,
                    )) by {
                        if stands_at(s, opening(), x) {
                            assert(a <= x);
                        }
                    }
                },
                Some(e) => {
                    blocks_end(s, e + 12);
                    let rest = blocks_from(s, e + 12);
                    assert(blocks_from(s, p) =~= seq![(a as usize, e as usize)] + rest);
                },
            }
        },
    }
}

/// The blocks of a text: each begins at the first opening marker behind the one
/// before it and ends at the first closing marker behind that; none is passed
/// over, so behind the last there is no opening marker that is closed.
pub proof fn blocks_are_between_markers(s: Seq<char>, i: int)
    requires
        s.len() <= usize::MAX,
    ensures
        ({
            let bl = blocks(s);
            &&& 0 <= i < bl.len() ==> {
                let from = if i == 0 {
                    0
                } else {
                    bl[i - 1].1 + 12
                };
                let (a, e) = (bl[i].0 as int, bl[i].1 as int);
                &&& from <= a && a + 11 <= e
                &&& stands_at(s, opening(), a)
                &&& stands_at(s, closing(), e)
                &&& forall|j: int| from <= j < a ==> !#[trigger] stands_at(s, opening(), j)
                &&& forall|j: int| a + 11 <= j < e ==> !#[trigger] stands_at(s, closing(), j)
            }
            &&& ({
                let from = if bl.len() == 0 {
                    0
                } else {
                    bl.last().1 + 12
                };
                forall|a: int, e: int|
                    from <= a && a + 11 <= e ==> !(#[trigger] stands_at(s, opening(), a)
                        && #[trigger] stands_at(s, closing(), e))
            })
        }),
{
    if 0 <= i < blocks(s).len() {
        blocks_at(s, 0, i);
    }
    blocks_end(s, 0);
}

/// A parsed block is a call exactly if it has a name that is text; its arguments are
/// what it gives, or none where it gives null.
pub proof fn calls_have_names(p: Option<(Option<Seq<char>>, Seq<char>)>)
    ensures
        call_of(p) is Some <==> p is Some && (p->0).0 is Some,
        call_of(p) matches Some(c) ==> {
            &&& Some(c.0) == (p->0).0
            &&& (p->0).1 != "null"@ ==> c.1 == (p->0).1
            &&& (p->0).1 == "null"@ ==> c.1 == "{}"@
        },
{
}

/// The calls of a text are those of its blocks, in order.
pub proof fn calls_come_in_order(parsed: Seq<Option<(Option<Seq<char>>, Seq<char>)>>, n: int)
    requires
        0 <= n < parsed.len(),
    ensures
        calls(parsed, 0).len() == 0,
        call_of(parsed[n]) is None ==> calls(parsed, n + 1) == calls(parsed, n),
        call_of(parsed[n]) matches Some(c) ==> calls(parsed, n + 1) == calls(parsed, n) + seq![c],
{
    if call_of(parsed[n]) is Some {
        assert(calls(parsed, n + 1) =~= calls(parsed, n) + seq![call_of(parsed[n])->0]);
    }
}

/// What is shown is the text with the calls cut out: what stands between blocks is
/// kept, a block that is a call is not, with its markers, and any other is.
pub proof fn calls_are_cut_out(
    s: Seq<char>,
    bl: Seq<(usize, usize)>,
    parsed: Seq<Option<(Option<Seq<char>>, Seq<char>)>>,
    n: int,
)
    requires
        blocks_in(bl, s.len() as int),
        parsed.len() == bl.len(),
        0 <= n < bl.len(),
    ensures
        ({
            let from = if n == 0 {
                0
            } else {
                bl[n - 1].1 + 12
            };
            let gap = s.subrange(from, bl[n].0 as int);
            let block = s.subrange(bl[n].0 as int, bl[n].1 + 12);
            &&& kept(s, bl, parsed, 0).len() == 0
            &&& kept(s, bl, parsed, n + 1) == kept(s, bl, parsed, n) + gap + (if call_of(
                parsed[n],
            ) is Some {
                Seq::empty()
            } else {
                block
            })
            &&& visible(s, bl, parsed) == trimmed_end(
                kept(s, bl, parsed, bl.len() as int) + s.skip(bl.last().1 + 12),
            )
        }),
{
    let from = end_of(bl, n);
    if n > 0 {
        assert(bl[n - 1].1 + 12 <= bl[n].0);
    }
    assert(bl[n].0 + 11 <= bl[n].1 && bl[n].1 + 12 <= s.len());
    let gap = s.subrange(from, bl[n].0 as int);
    let block = s.subrange(bl[n].0 as int, bl[n].1 + 12);
    if call_of(parsed[n]) is Some {
        assert(kept(s, bl, parsed, n + 1) =~= kept(s, bl, parsed, n) + gap + Seq::<char>::empty());
    } else {
        assert(s.subrange(from, bl[n].1 + 12) =~= gap + block);
        assert(kept(s, bl, parsed, n + 1) =~= kept(s, bl, parsed, n) + gap + block);
    }
}

proof fn common_is_longest(a: Seq<u32>, b: Seq<u32>, i: int)
    requires
        0 <= i <= a.len(),
        i <= b.len(),
    ensures
        ({
            let n = i + common_from(a, b, i);
            &&& i <= n <= a.len()
            &&& n <= b.len()
            &&& forall|k: int| i <= k < n ==> #[trigger] a[k] == b[k]
            &&& n < a.len() && n < b.len() ==> a[n] != b[n]
        }),
    decreases a.len() - i,
{
    if i < a.len() && i < b.len() && a[i] == b[i] {
        common_is_longest(a, b, i + 1);
    }
}

/// As much is reused as can be: with reuse switched on, all tokens that the context
/// and the prompt begin with in common, but not the prompt's last; and nothing
/// where it is switched off. A recurrent state is kept only where the context is
/// all in common and the prompt goes on behind it.
pub proof fn reuse_is_longest(
    hist: Seq<u32>,
    prompt: Seq<u32>,
    enabled: bool,
    recurrent: bool,
    n: int,
)
    requires
        prompt.len() > 0,
        prompt.len() <= usize::MAX,
        0 <= n <= hist.len(),
        n <= prompt.len(),
        forall|k: int| 0 <= k < n ==> #[trigger] hist[k] == prompt[k],
        n < hist.len() && n < prompt.len() ==> hist[n] != prompt[n],
    ensures
        ({
            let most = if n < prompt.len() {
                n
            } else {
                prompt.len() - 1
            };
            reuse(hist, prompt, enabled, recurrent) == (if !enabled {
                Reuse::Keep(0)
            } else if recurrent && !(n == hist.len() && n < prompt.len()) {
                Reuse::Rewind(most as usize)
            } else {
                Reuse::Keep(most as usize)
            })
        }),
{
    common_is_longest(hist, prompt, 0);
    let c = common_from(hist, prompt, 0);
    if c < n {
        assert(hist[c] == prompt[c]);
    }
    if n < c {
        assert(hist[n] == prompt[n]);
    }
}

/// What goes out ends with a whole character, as late as one does.
pub proof fn valid_beginning_is_longest(b: Seq<u8>, k: int, j: int)
    requires
        0 <= k <= b.len(),
    ensures
        0 <= valid_len(b, k) <= k,
        valid_len(b, k) > 0 ==> valid_utf8(b.take(valid_len(b, k))),
        valid_len(b, k) < j <= k ==> !valid_utf8(b.take(j)),
    decreases k,
{
    if k > 0 && !valid_utf8(b.take(k)) {
        valid_beginning_is_longest(b, k - 1, j);
    }
}

/// A whole reply, member by member: what it is called, what model answered, the
/// assistant's words and calls, why it ended, and what it took.
pub proof fn reply_says(
    id: Seq<char>,
    model: Seq<char>,
    content: Seq<char>,
    request: u64,
    calls: Seq<(String, String)>,
    prompt: int,
    completion: int,
)
    ensures
        ({
            let t = completion_tree(id, model, content, request, calls, prompt, completion);
            let m = t->Members_0;
            let choice = m[3].1->List_0[0]->Members_0;
            let message = choice[1].1->Members_0;
            let usage = m[4].1->Members_0;
            &&& m.len() == 5
            &&& m[0] == ("id"@, Tree::Text(id))
            &&& m[1] == ("object"@, Tree::Text("chat.completion"@))
            &&& m[2] == ("model"@, Tree::Text(model))
            &&& m[3].0 == "choices"@ && m[3].1->List_0.len() == 1
            &&& choice.len() == 3
            &&& choice[0] == ("index"@, Tree::Number(0))
            &&& choice[1].0 == "message"@
            &&& choice[2].0 == "finish_reason"@
            &&& choice[2].1 == (if calls.len() == 0 {
                Tree::Text("stop"@)
            } else {
                Tree::Text("tool_calls"@)
            })
            &&& message[0] == ("role"@, Tree::Text("assistant"@))
            &&& message[1] == ("content"@, Tree::Text(content))
            &&& calls.len() == 0 ==> message.len() == 2
            &&& calls.len() > 0 ==> message.len() == 3 && message[2].0 == "tool_calls"@
                && message[2].1->List_0.len() == calls.len()
            &&& m[4].0 == "usage"@
            &&& usage.len() == 3
            &&& usage[0] == ("prompt_tokens"@, Tree::Number(prompt))
            &&& usage[1] == ("completion_tokens"@, Tree::Number(completion))
            &&& usage[2] == ("total_tokens"@, Tree::Number(prompt + completion))
        }),
{
}

/// A call in a reply: its id names the request and the call, and it holds the name
/// and the arguments that were found.
pub proof fn reply_call_says(request: u64, calls: Seq<(String, String)>, k: int)
    requires
        0 <= k < calls.len(),
        k <= usize::MAX,
    ensures
        ({
            let c = calls_tree(request, calls)->List_0[k]->Members_0;
            let f = c[2].1->Members_0;
            &&& c.len() == 3
            &&& c[0] == (
                "id"@,
                Tree::Text(
                    "call_"@ + crate::text::decimal(request as nat) + "_"@ + crate::text::decimal(
                        k as nat,
                    ),
                ),
            )
            &&& c[1] == ("type"@, Tree::Text("function"@))
            &&& c[2].0 == "function"@
            &&& f.len() == 2
            &&& f[0] == ("name"@, Tree::Text(calls[k].0@))
            &&& f[1] == ("arguments"@, Tree::Text(calls[k].1@))
        }),
{
}

/// A piece of a streamed reply, member by member.
pub proof fn piece_says(id: Seq<char>, model: Seq<char>, delta: Tree, reason: Tree, words: &str)
    ensures
        ({
            let m = chunk_fields(id, model, delta, reason);
            let choice = m[3].1->List_0[0]->Members_0;
            &&& m.len() == 4
            &&& m[0] == ("id"@, Tree::Text(id))
            &&& m[1] == ("object"@, Tree::Text("chat.completion.chunk"@))
            &&& m[2] == ("model"@, Tree::Text(model))
            &&& m[3].0 == "choices"@ && m[3].1->List_0.len() == 1
            &&& choice.len() == 3
            &&& choice[0] == ("index"@, Tree::Number(0))
            &&& choice[1] == ("delta"@, delta)
            &&& choice[2] == ("finish_reason"@, reason)
            &&& delta_tree(Delta::Role) == Tree::Members(
                seq![("role"@, Tree::Text("assistant"@))],
            )
            &&& delta_tree(Delta::Content(words)) == Tree::Members(
                seq![("content"@, Tree::Text(words@))],
            )
        }),
{
}

/// Little is held back while a reply is streamed: all whole characters but the last
/// ten bytes go out, and all of them once a call has begun.
pub proof fn little_is_held_back(s: Stream)
    ensures
        ({
            let n = s.bytes.len() as int;
            let valid = valid_len(s.bytes, n);
            &&& 0 <= s.ready() <= valid <= n
            &&& s.tool_phase ==> s.ready() == valid
            &&& !s.tool_phase && n >= 10 ==> s.ready() == valid || s.ready() == n - 10
            &&& !s.tool_phase && n < 10 ==> s.ready() == 0
            &&& !s.tool_phase ==> s.ready() + 10 <= n || s.ready() == 0
        }),
{
    valid_beginning_is_longest(s.bytes, s.bytes.len() as int, 0);
}

/// Decoded bytes join what is held back, up to where a call begins; from there on
/// nothing is taken in.
pub proof fn bytes_join_until_a_call(s: Stream, more: Seq<u8>)
    ensures
        ({
            let t = s.with_bytes(more);
            let all = s.bytes + more;
            &&& s.tool_phase ==> t == s
            &&& !s.tool_phase && find_from(all, mark(), 0) is None ==> t.bytes == all
                && !t.tool_phase
            &&& !s.tool_phase ==> (find_from(all, mark(), 0) matches Some(p) ==> t.bytes == all.take(
                p,
            ) && t.tool_phase)
        }),
{
}

/// The list of models and an error, member by member.
pub proof fn models_and_errors_say(model: Seq<char>, message: Seq<char>)
    ensures
        ({
            let m = models_tree(model)->Members_0;
            let entry = m[1].1->List_0[0]->Members_0;
            let e = error_tree(message)->Members_0;
            &&& m.len() == 2
            &&& m[0] == ("object"@, Tree::Text("list"@))
            &&& m[1].0 == "data"@ && m[1].1->List_0.len() == 1
            &&& entry.len() == 3
            &&& entry[0] == ("id"@, Tree::Text(model))
            &&& entry[1] == ("object"@, Tree::Text("model"@))
            &&& entry[2] == ("owned_by"@, Tree::Text("pulsar"@))
            &&& e.len() == 1 && e[0].0 == "error"@
            &&& e[0].1->Members_0 == seq![("message"@, Tree::Text(message))]
        }),
{
}

/// A streamed call names its place among the calls, and says what a whole reply's
/// call says.
pub proof fn streamed_call_says(request: u64, k: usize, name: &str, args: &str)
    ensures
        ({
            let d = delta_tree(Delta::Call { request, k, name, args })->Members_0;
            let c = d[0].1->List_0[0]->Members_0;
            &&& d.len() == 1 && d[0].0 == "tool_calls"@ && d[0].1->List_0.len() == 1
            &&& c.len() == 4
            &&& c[0] == ("index"@, Tree::Number(k as int))
            &&& c[1].0 == "id"@
            &&& c[2] == ("type"@, Tree::Text("function"@))
            &&& c[3].0 == "function"@
            &&& c[3].1->Members_0 == seq![
                ("name"@, Tree::Text(name@)),
                ("arguments"@, Tree::Text(args@)),
            ]
        }),
{
}

} // verus!
