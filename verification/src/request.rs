//! Chat requests: the body of one read, and what it asks for.

use vstd::prelude::*;

use crate::json::{Json, Node};
#[allow(unused_imports)]
use crate::json::{member_index, member_seen, Doc};
#[allow(unused_imports)]
use crate::parse::doc_of;
use crate::parse::read_json;
#[allow(unused_imports)]
use crate::reply::params_of;
use crate::reply::{chat_params, ChatParams};
use crate::text::same_text;

verus! {

/// What a chat request asks for.
pub struct ChatRequest {
    pub messages: Vec<Json>,
    pub tools: Option<Vec<Json>>,
    pub params: ChatParams,
}

/// Why a body is no chat request.
#[derive(Clone, Copy, Debug, PartialEq, Eq, Structural)]
pub enum BodyError {
    NotJson,
    NoMessages,
}

impl BodyError {
    /// What the error says.
    pub open spec fn says(self) -> Seq<char> {
        match self {
            BodyError::NotJson => "chat request is not JSON"@,
            BodyError::NoMessages => "chat request needs a messages array"@,
        }
    }

    /// What the error says.
    pub fn message(&self) -> (s: &'static str)
        ensures
            s@ == self.says(),
    {
        match self {
            BodyError::NotJson => "chat request is not JSON",
            BodyError::NoMessages => "chat request needs a messages array",
        }
    }
}

/// The first of `members` from `i` on that is called `key`.
spec fn found(members: Seq<(String, Json)>, key: Seq<char>, i: int) -> Option<Json> {
    match member_index(members, key, i) {
        Some(k) => Some(members[k].1),
        None => None,
    }
}

/// Taking one member away leaves what the other names find.
proof fn found_elsewhere(members: Seq<(String, Json)>, k: int, key: Seq<char>, i: int)
    requires
        0 <= k < members.len(),
        members[k].0@ != key,
        0 <= i,
    ensures
        i <= k ==> found(members.remove(k), key, i) == found(members, key, i),
        i > k ==> found(members.remove(k), key, i - 1) == found(members, key, i),
    decreases members.len() - i,
{
    let rest = members.remove(k);
    if i < members.len() {
        found_elsewhere(members, k, key, i + 1);
        if i < k {
            assert(rest[i] == members[i]);
        } else if i > k {
            assert(rest[i - 1] == members[i]);
        }
    }
}

/// Takes a member out of a map.
fn take_member(members: &mut Vec<(String, Json)>, key: &str) -> (r: Option<Json>)
    ensures
        r == found(old(members)@, key@, 0),
        r is None ==> final(members)@ == old(members)@,
        forall|other: Seq<char>|
            other != key@ ==> #[trigger] found(final(members)@, other, 0) == found(
                old(members)@,
                other,
                0,
            ),
{
    let mut i: usize = 0;
    while i < members.len()
        invariant
            i <= members@.len(),
            members@ == old(members)@,
            member_index(members@, key@, 0) == member_index(members@, key@, i as int),
        decreases members@.len() - i,
    {
        if same_text(members[i].0.as_str(), key) {
            let (name, j) = members.remove(i);
            assert forall|other: Seq<char>| other != key@ implies #[trigger] found(
                members@,
                other,
                0,
            ) == found(old(members)@, other, 0) by {
                found_elsewhere(old(members)@, i as int, other, 0);
            }
            return Some(j);
        }
        i += 1;
    }
    None
}

/// Takes the items of a list out of a value.
fn take_list(j: Option<Json>) -> (r: Option<Vec<Json>>)
    ensures
        r == (match j {
            Some(j) => match j.node {
                Node::List(v) => Some(v),
                _ => None,
            },
            None => None,
        }),
{
    match j {
        Some(j) => match j.node {
            Node::List(v) => Some(v),
            _ => None,
        },
        None => None,
    }
}

/// The items of a list, if there is one.
pub open spec fn items(v: Option<Vec<Json>>) -> Option<Seq<Json>> {
    match v {
        Some(v) => Some(v@),
        None => None,
    }
}

/// What a request with these members asks for: its messages, its tools, and how
/// to answer. `None` when it has no list of messages.
pub fn pick_request(chat: Json) -> (r: Option<ChatRequest>)
    ensures
        match r {
            Some(q) => {
                &&& chat.member_list("messages"@) == Some(q.messages@)
                &&& chat.member_list("tools"@) == items(q.tools)
                &&& q.params == params_of(
                    chat.member_number("max_tokens"@),
                    chat.member_number("seed"@),
                    chat.member_bool("stream"@),
                )
            },
            None => chat.member_list("messages"@) is None,
        },
{
    let params: ChatParams = chat_params(
        chat.get_number("max_tokens"),
        chat.get_number("seed"),
        chat.get_bool("stream"),
    );
    let ghost whole = chat;
    let mut members: Vec<(String, Json)> = match chat.node {
        Node::Members(m) => m,
        _ => {
            return None;
        },
    };
    proof {
        reveal_strlit("messages");
        reveal_strlit("tools");
        assert("messages"@.len() != "tools"@.len());
        assert(whole.member("messages"@) == found(members@, "messages"@, 0));
        assert(whole.member("tools"@) == found(members@, "tools"@, 0));
    }
    let messages: Option<Vec<Json>> = take_list(take_member(&mut members, "messages"));
    let tools: Option<Vec<Json>> = take_list(take_member(&mut members, "tools"));
    match messages {
        Some(messages) => Some(ChatRequest { messages, tools, params }),
        None => None,
    }
}

/// The values of a list.
pub open spec fn docs(v: Seq<Json>) -> Seq<Doc> {
    v.map_values(|j: Json| j@)
}

/// The values of a list, if there is one.
pub open spec fn some_docs(v: Option<Vec<Json>>) -> Option<Seq<Doc>> {
    match v {
        Some(v) => Some(docs(v@)),
        None => None,
    }
}

/// Reads the body of a chat request: fails exactly when it is no JSON, or has no
/// list of messages.
pub fn read_request(body: &[u8]) -> (r: Result<ChatRequest, BodyError>)
    ensures
        match r {
            Ok(q) => doc_of(body@) matches Some(d) && {
                &&& d.member_list("messages"@) == Some(docs(q.messages@))
                &&& d.member_list("tools"@) == some_docs(q.tools)
                &&& q.params == params_of(
                    d.member_number("max_tokens"@),
                    d.member_number("seed"@),
                    d.member_bool("stream"@),
                )
            },
            Err(BodyError::NotJson) => doc_of(body@) is None,
            Err(BodyError::NoMessages) => doc_of(body@) matches Some(d) && d.member_list(
                "messages"@,
            ) is None,
        },
{
    let chat: Json = match read_json(body) {
        Some(j) => j,
        None => {
            return Err(BodyError::NotJson);
        },
    };
    let ghost whole = chat;
    proof {
        member_seen(chat, "messages"@);
        member_seen(chat, "tools"@);
        member_seen(chat, "max_tokens"@);
        member_seen(chat, "seed"@);
        member_seen(chat, "stream"@);
    }
    match pick_request(chat) {
        Some(q) => {
            proof {
                assert(docs(q.messages@) =~= whole@.member_list("messages"@)->0);
                if q.tools is Some {
                    assert(docs(q.tools->0@) =~= whole@.member_list("tools"@)->0);
                }
            }
            Ok(q)
        },
        None => Err(BodyError::NoMessages),
    }
}

} // verus!
