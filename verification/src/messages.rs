//! Chat messages to token ids: each message in its turn's layout, the tools
//! described once, and past tool calls in the form the model writes them.

use vstd::prelude::*;
use vstd::string::*;

use crate::bpe::Bpe;
use crate::chat::{push_all, ChatMarkers, Markers};
use crate::json::{content_text, text_of, Json};
use crate::text::{from_chars, same_text, space_end, to_chars, trim_bounds};
use crate::tokenizer::Tokenizer;

verus! {

/// What precedes the list of tools.
pub open spec fn tools_intro() -> Seq<char> {
    "\n\n# Tools\n\nYou may call tools. To call one, output exactly:\n<tool_call>\n{\"name\": \"<tool name>\", \"arguments\": <json arguments>}\n</tool_call>\nYou may make multiple calls in one reply. After tool results arrive, continue the task.\nAvailable tools (JSON Schema):\n"@
}

/// The schemas of the first `n` tools, separated by commas.
pub open spec fn schemas(tools: Seq<Json>, n: int) -> Seq<char>
    decreases n,
{
    if n <= 0 {
        Seq::empty()
    } else {
        let own = tools[n - 1].member_text("function"@);
        if n == 1 {
            own
        } else {
            schemas(tools, n - 1).push(',') + own
        }
    }
}

/// The description of the tools, where there are any.
pub open spec fn tools_text(tools: Option<Seq<Json>>) -> Option<Seq<char>> {
    match tools {
        Some(t) => if t.len() > 0 {
            Some(tools_intro() + "["@ + schemas(t, t.len() as int) + "]"@)
        } else {
            None
        },
        None => None,
    }
}

/// `s` without whitespace at its start.
pub open spec fn trimmed_start(s: Seq<char>) -> Seq<char> {
    s.skip(space_end(s, 0))
}

/// The name of a past call, in compact form; `null` where there is none.
pub open spec fn call_name(c: Json) -> Seq<char> {
    match c.member("function"@) {
        Some(f) => f.member_text("name"@),
        None => "null"@,
    }
}

/// The arguments of a past call; none when they are not text.
pub open spec fn call_arguments(c: Json) -> Seq<char> {
    match c.member("function"@) {
        Some(f) => match f.member_string("arguments"@) {
            Some(a) => a,
            None => "{}"@,
        },
        None => "{}"@,
    }
}

/// The first `n` past calls, as the model writes them.
pub open spec fn calls_text(calls: Seq<Json>, n: int) -> Seq<char>
    decreases n,
{
    if n <= 0 {
        Seq::empty()
    } else {
        calls_text(calls, n - 1) + "\n<tool_call>\n{\"name\": "@ + call_name(calls[n - 1])
            + ", \"arguments\": "@ + call_arguments(calls[n - 1]) + "}\n</tool_call>"@
    }
}

/// The text of a message's content.
pub open spec fn message_text(msg: Json) -> Seq<char> {
    match msg.member("content"@) {
        Some(c) => text_of(c),
        None => Seq::empty(),
    }
}

/// A message's role; empty when it has none.
pub open spec fn role_of(msg: Json) -> Seq<char> {
    match msg.member_string("role"@) {
        Some(r) => r,
        None => Seq::empty(),
    }
}

/// Ids so far, and the description of the tools if it has yet to go in.
pub ghost struct Encoded {
    pub ids: Seq<u32>,
    pub pending: Option<Seq<char>>,
}

/// One message's ids behind those so far.
pub open spec fn with_message(m: Markers, t: Bpe, e: Encoded, msg: Json) -> Encoded {
    let role = role_of(msg);
    let text = message_text(msg);
    if role == "system"@ {
        let all = match e.pending {
            Some(tools) => text + tools,
            None => text,
        };
        Encoded { ids: e.ids + m.system(t, all), pending: None }
    } else if role == "user"@ {
        let before = match e.pending {
            Some(tools) => m.system(t, trimmed_start(tools)),
            None => Seq::empty(),
        };
        Encoded { ids: e.ids + before + m.user_message(t, text), pending: None }
    } else if role == "assistant"@ {
        let all = match msg.member_list("tool_calls"@) {
            Some(calls) => text + calls_text(calls, calls.len() as int),
            None => text,
        };
        Encoded { ids: e.ids + m.history(t, all), pending: e.pending }
    } else if role == "tool"@ {
        let id = match msg.member_string("tool_call_id"@) {
            Some(i) => i,
            None => Seq::empty(),
        };
        let all = "<tool_result id=\""@ + id + "\">\n"@ + text + "\n</tool_result>"@;
        Encoded { ids: e.ids + m.user_message(t, all), pending: e.pending }
    } else {
        e
    }
}

/// The ids of the first `n` messages.
pub open spec fn encoded(
    m: Markers,
    t: Bpe,
    messages: Seq<Json>,
    tools: Option<Seq<Json>>,
    n: int,
) -> Encoded
    decreases n,
{
    if n <= 0 {
        Encoded { ids: seq![m.bos], pending: tools_text(tools) }
    } else {
        with_message(m, t, encoded(m, t, messages, tools, n - 1), messages[n - 1])
    }
}

/// The tools are described once, with the first system or user message: after
/// `n` messages the description is still to come exactly when there are tools
/// and none of the messages was such a one.
pub proof fn tools_go_in_once(
    m: Markers,
    t: Bpe,
    messages: Seq<Json>,
    tools: Option<Seq<Json>>,
    n: int,
)
    requires
        0 <= n <= messages.len(),
    ensures
        encoded(m, t, messages, tools, n).pending == (if exists|i: int|
            0 <= i < n && (#[trigger] role_of(messages[i]) == "system"@ || role_of(messages[i])
                == "user"@) {
            None
        } else {
            tools_text(tools)
        }),
    decreases n,
{
    if n > 0 {
        tools_go_in_once(m, t, messages, tools, n - 1);
        let last = role_of(messages[n - 1]);
        if last == "system"@ || last == "user"@ {
            assert(role_of(messages[n - 1]) == last);
        } else if exists|i: int|
            0 <= i < n - 1 && (#[trigger] role_of(messages[i]) == "system"@ || role_of(
                messages[i],
            ) == "user"@) {
            let i = choose|i: int|
                0 <= i < n - 1 && (#[trigger] role_of(messages[i]) == "system"@ || role_of(
                    messages[i],
                ) == "user"@);
            assert(role_of(messages[i]) == role_of(messages[i]));
        }
    }
}

fn write_tools(tools: Option<&Vec<Json>>) -> (r: Option<String>)
    ensures
        match (tools, r) {
            (Some(t), Some(s)) => tools_text(Some(t@)) == Some(s@),
            (Some(t), None) => tools_text(Some(t@)) is None,
            (None, r) => r is None,
        },
{
    let t: &Vec<Json> = match tools {
        Some(t) => t,
        None => return None,
    };
    if t.len() == 0 {
        return None;
    }
    let mut s: String = String::from_str(
        "\n\n# Tools\n\nYou may call tools. To call one, output exactly:\n<tool_call>\n{\"name\": \"<tool name>\", \"arguments\": <json arguments>}\n</tool_call>\nYou may make multiple calls in one reply. After tool results arrive, continue the task.\nAvailable tools (JSON Schema):\n",
    );
    s.append("[");
    let ghost head = s@;
    let mut i: usize = 0;
    assert(s@ =~= head + schemas(t@, 0));
    while i < t.len()
        invariant
            i <= t@.len(),
            s@ == head + schemas(t@, i as int),
        decreases t@.len() - i,
    {
        if i > 0 {
            s.push(',');
        }
        s.append(t[i].get_text("function"));
        assert(s@ =~= head + schemas(t@, i + 1));
        i += 1;
    }
    s.append("]");
    assert(s@ =~= tools_intro() + "["@ + schemas(t@, t@.len() as int) + "]"@);
    Some(s)
}

fn trim_start(s: &str) -> (r: String)
    ensures
        r@ == trimmed_start(s@),
{
    let chars: Vec<char> = to_chars(s);
    let (a, _) = trim_bounds(&chars);
    let rest: String = from_chars(vstd::slice::slice_subrange(&chars, a, chars.len()));
    assert(chars@.subrange(a as int, chars@.len() as int) =~= chars@.skip(a as int));
    rest
}

fn push_calls(s: &mut String, calls: &Vec<Json>)
    ensures
        final(s)@ == old(s)@ + calls_text(calls@, calls@.len() as int),
{
    let mut i: usize = 0;
    assert(s@ =~= old(s)@ + calls_text(calls@, 0));
    while i < calls.len()
        invariant
            i <= calls@.len(),
            s@ == old(s)@ + calls_text(calls@, i as int),
        decreases calls@.len() - i,
    {
        let c: &Json = &calls[i];
        let f: Option<&Json> = c.get("function");
        s.append("\n<tool_call>\n{\"name\": ");
        match f {
            Some(f) => s.append(f.get_text("name")),
            None => s.append("null"),
        }
        s.append(", \"arguments\": ");
        match f {
            Some(f) => match f.get_str("arguments") {
                Some(a) => s.append(a),
                None => s.append("{}"),
            },
            None => s.append("{}"),
        }
        s.append("}\n</tool_call>");
        assert(s@ =~= old(s)@ + calls_text(calls@, i + 1));
        i += 1;
    }
}

fn read_text(msg: &Json) -> (s: String)
    ensures
        s@ == message_text(*msg),
{
    match msg.get("content") {
        Some(c) => content_text(c),
        None => String::new(),
    }
}

fn push_message(
    ids: &mut Vec<u32>,
    tok: &Tokenizer,
    m: &ChatMarkers,
    msg: &Json,
    tools: &str,
    pending: bool,
) -> (left: bool)
    ensures
        ({
            let e = Encoded {
                ids: old(ids)@,
                pending: if pending {
                    Some(tools@)
                } else {
                    None
                },
            };
            let r = with_message(m@, tok@, e, *msg);
            &&& final(ids)@ == r.ids
            &&& r.pending == (if left {
                Some(tools@)
            } else {
                None
            })
        }),
{
    let role: &str = match msg.get_str("role") {
        Some(r) => r,
        None => "",
    };
    proof {
        reveal_strlit("");
        assert(""@ =~= Seq::<char>::empty());
    }
    let mut text: String = read_text(msg);
    if same_text(role, "system") {
        if pending {
            text.append(tools);
        }
        push_all(ids, &m.render_system(tok, text.as_str()));
        false
    } else if same_text(role, "user") {
        if pending {
            let own: String = trim_start(tools);
            push_all(ids, &m.render_system(tok, own.as_str()));
        }
        push_all(ids, &m.render_user(tok, text.as_str()));
        assert(old(ids)@ + Seq::<u32>::empty() =~= old(ids)@);
        false
    } else if same_text(role, "assistant") {
        if let Some(calls) = msg.get_list("tool_calls") {
            push_calls(&mut text, calls);
        }
        push_all(ids, &m.render_assistant_history(tok, text.as_str()));
        pending
    } else if same_text(role, "tool") {
        let id: &str = match msg.get_str("tool_call_id") {
            Some(i) => i,
            None => "",
        };
        let mut all: String = String::from_str("<tool_result id=\"");
        all.append(id);
        all.append("\">\n");
        all.append(text.as_str());
        all.append("\n</tool_result>");
        push_all(ids, &m.render_user(tok, all.as_str()));
        pending
    } else {
        pending
    }
}

/// Encodes chat messages as a context that ends with an open assistant turn.
pub fn encode_messages(
    tok: &Tokenizer,
    m: &ChatMarkers,
    messages: &[Json],
    tools: Option<&Vec<Json>>,
) -> (ids: Vec<u32>)
    ensures
        ids@ == encoded(
            m@,
            tok@,
            messages@,
            match tools {
                Some(t) => Some(t@),
                None => None,
            },
            messages@.len() as int,
        ).ids + m@.opener(tok@),
{
    let ghost given = match tools {
        Some(t) => Some(t@),
        None => None,
    };
    let described: Option<String> = write_tools(tools);
    let mut ids: Vec<u32> = m.prologue();
    let mut pending: bool = described.is_some();
    let text: String = match described {
        Some(s) => s,
        None => String::new(),
    };
    let mut i: usize = 0;
    while i < messages.len()
        invariant
            i <= messages@.len(),
            ({
                let e = encoded(m@, tok@, messages@, given, i as int);
                &&& ids@ == e.ids
                &&& e.pending == (if pending {
                    Some(text@)
                } else {
                    None
                })
            }),
        decreases messages@.len() - i,
    {
        pending = push_message(&mut ids, tok, m, &messages[i], text.as_str(), pending);
        i += 1;
    }
    push_all(&mut ids, &m.open_assistant(tok));
    ids
}

} // verus!
