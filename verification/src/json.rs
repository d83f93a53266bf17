//! JSON values as the chat protocol reads them.

use vstd::prelude::*;
use vstd::string::*;

use crate::text::same_text;

verus! {

/// A JSON value together with its compact text.
pub struct Json {
    /// The value written without spaces or line breaks.
    pub text: String,
    pub node: Node,
}

/// A JSON value taken apart.
pub enum Node {
    Null,
    Bool(bool),
    /// A number, where it is a whole one that is not negative.
    Number(Option<u64>),
    Text(String),
    List(Vec<Json>),
    /// Members by name; no name occurs twice.
    Members(Vec<(String, Json)>),
}

/// What a JSON value is: its compact text, and its parts.
pub ghost struct Doc {
    pub text: Seq<char>,
    pub node: DocNode,
}

/// The parts of a JSON value.
pub ghost enum DocNode {
    Null,
    Bool(bool),
    Number(Option<u64>),
    Text(Seq<char>),
    List(Seq<Doc>),
    Members(Seq<(Seq<char>, Doc)>),
}

/// The first of `members` from `i` on that is called `key`.
pub open spec fn doc_member(members: Seq<(Seq<char>, Doc)>, key: Seq<char>, i: int) -> Option<Doc>
    decreases members.len() - i,
{
    if i < 0 || i >= members.len() {
        None
    } else if members[i].0 == key {
        Some(members[i].1)
    } else {
        doc_member(members, key, i + 1)
    }
}

impl Doc {
    /// The member called `key`; `None` when there is none or this is no map.
    pub open spec fn member(self, key: Seq<char>) -> Option<Doc> {
        match self.node {
            DocNode::Members(m) => doc_member(m, key, 0),
            _ => None,
        }
    }

    /// The items of a member that is a list.
    pub open spec fn member_list(self, key: Seq<char>) -> Option<Seq<Doc>> {
        match self.member(key) {
            Some(d) => match d.node {
                DocNode::List(v) => Some(v),
                _ => None,
            },
            None => None,
        }
    }

    /// A member that is a whole number and not negative.
    pub open spec fn member_number(self, key: Seq<char>) -> Option<u64> {
        match self.member(key) {
            Some(d) => match d.node {
                DocNode::Number(n) => n,
                _ => None,
            },
            None => None,
        }
    }

    /// A member that is true or false.
    pub open spec fn member_bool(self, key: Seq<char>) -> Option<bool> {
        match self.member(key) {
            Some(d) => match d.node {
                DocNode::Bool(b) => Some(b),
                _ => None,
            },
            None => None,
        }
    }

    /// The text of a member that is a string.
    pub open spec fn member_string(self, key: Seq<char>) -> Option<Seq<char>> {
        match self.member(key) {
            Some(d) => match d.node {
                DocNode::Text(s) => Some(s),
                _ => None,
            },
            None => None,
        }
    }

    /// The compact text of a member; that of null when it is missing.
    pub open spec fn member_text(self, key: Seq<char>) -> Seq<char> {
        match self.member(key) {
            Some(d) => d.text,
            None => "null"@,
        }
    }
}

/// The value that `j` holds.
pub open spec fn doc_of_json(j: Json) -> Doc
    decreases j,
{
    Doc {
        text: j.text@,
        node: match j.node {
            Node::Null => DocNode::Null,
            Node::Bool(b) => DocNode::Bool(b),
            Node::Number(n) => DocNode::Number(n),
            Node::Text(s) => DocNode::Text(s@),
            Node::List(v) => DocNode::List(
                Seq::new(
                    v@.len(),
                    |i: int|
                        if 0 <= i < v@.len() {
                            doc_of_json(v@[i])
                        } else {
                            arbitrary()
                        },
                ),
            ),
            Node::Members(m) => DocNode::Members(
                Seq::new(
                    m@.len(),
                    |i: int|
                        if 0 <= i < m@.len() {
                            (m@[i].0@, doc_of_json(m@[i].1))
                        } else {
                            arbitrary()
                        },
                ),
            ),
        },
    }
}

impl View for Json {
    type V = Doc;

    open spec fn view(&self) -> Doc {
        doc_of_json(*self)
    }
}

proof fn members_seen(m: Vec<(String, Json)>, d: Seq<(Seq<char>, Doc)>, key: Seq<char>, i: int)
    requires
        0 <= i,
        d.len() == m@.len(),
        forall|k: int| 0 <= k < m@.len() ==> #[trigger] d[k] == (m@[k].0@, m@[k].1@),
    ensures
        doc_member(d, key, i) == (match member_index(m@, key, i) {
            Some(k) => Some(m@[k].1@),
            None => None,
        }),
    decreases m@.len() - i,
{
    if i < m@.len() {
        assert(d[i] == (m@[i].0@, m@[i].1@));
        members_seen(m, d, key, i + 1);
    }
}

/// A member of a value is the same, read from what the value is or found in
/// how it is held.
pub proof fn member_seen(j: Json, key: Seq<char>)
    ensures
        j@.member(key) == (match j.member(key) {
            Some(c) => Some(c@),
            None => None,
        }),
        j@.member_string(key) == j.member_string(key),
        j@.member_text(key) == j.member_text(key),
        j@.member_number(key) == j.member_number(key),
        j@.member_bool(key) == j.member_bool(key),
        j@.member_list(key) is Some <==> j.member_list(key) is Some,
        j@.member_list(key) matches Some(l) ==> {
            let v = j.member_list(key)->0;
            l.len() == v.len() && forall|i: int| 0 <= i < l.len() ==> #[trigger] l[i] == v[i]@
        },
{
    if let Node::Members(m) = j.node {
        members_seen(m, j@.node->Members_0, key, 0);
    }
}

/// The position of the first of `members` from `i` on that is called `key`.
pub open spec fn member_index(members: Seq<(String, Json)>, key: Seq<char>, i: int) -> Option<int>
    decreases members.len() - i,
{
    if i < 0 || i >= members.len() {
        None
    } else if members[i].0@ == key {
        Some(i)
    } else {
        member_index(members, key, i + 1)
    }
}

proof fn member_index_in_range(members: Seq<(String, Json)>, key: Seq<char>, i: int)
    ensures
        member_index(members, key, i) matches Some(k) ==> 0 <= k < members.len(),
    decreases members.len() - i,
{
    if 0 <= i < members.len() {
        member_index_in_range(members, key, i + 1);
    }
}

impl Json {
    /// The member called `key`; `None` when there is none or this is no map.
    pub open spec fn member(self, key: Seq<char>) -> Option<Json> {
        match self.node {
            Node::Members(m) => match member_index(m@, key, 0) {
                Some(k) => Some(m@[k].1),
                None => None,
            },
            _ => None,
        }
    }

    /// The text of a string value.
    pub open spec fn string(self) -> Option<Seq<char>> {
        match self.node {
            Node::Text(s) => Some(s@),
            _ => None,
        }
    }

    /// The text of a member that is a string.
    pub open spec fn member_string(self, key: Seq<char>) -> Option<Seq<char>> {
        match self.member(key) {
            Some(j) => j.string(),
            None => None,
        }
    }

    /// The items of a member that is a list.
    pub open spec fn member_list(self, key: Seq<char>) -> Option<Seq<Json>> {
        match self.member(key) {
            Some(j) => match j.node {
                Node::List(v) => Some(v@),
                _ => None,
            },
            None => None,
        }
    }

    /// A member that is a whole number and not negative.
    pub open spec fn member_number(self, key: Seq<char>) -> Option<u64> {
        match self.member(key) {
            Some(j) => match j.node {
                Node::Number(n) => n,
                _ => None,
            },
            None => None,
        }
    }

    /// A member that is true or false.
    pub open spec fn member_bool(self, key: Seq<char>) -> Option<bool> {
        match self.member(key) {
            Some(j) => match j.node {
                Node::Bool(b) => Some(b),
                _ => None,
            },
            None => None,
        }
    }

    /// The compact text of a member; that of null when it is missing.
    pub open spec fn member_text(self, key: Seq<char>) -> Seq<char> {
        match self.member(key) {
            Some(j) => j.text@,
            None => "null"@,
        }
    }

    /// Finds the member called `key`.
    pub fn get(&self, key: &str) -> (r: Option<&Json>)
        ensures
            match r {
                Some(j) => self.member(key@) == Some(*j) && decreases_to!(self => j),
                None => self.member(key@) is None,
            },
    {
        match &self.node {
            Node::Members(m) => {
                let mut i: usize = 0;
                while i < m.len()
                    invariant
                        i <= m@.len(),
                        self.node == Node::Members(*m),
                        member_index(m@, key@, 0) == member_index(m@, key@, i as int),
                    decreases m@.len() - i,
                {
                    if same_text(m[i].0.as_str(), key) {
                        let j: &Json = &m[i].1;
                        assert(self.member(key@) == Some(*j));
                        assert(decreases_to!(*m => m[i as int]));
                        assert(decreases_to!(*self => *j));
                        return Some(j);
                    }
                    i += 1;
                }
                None
            },
            _ => None,
        }
    }

    /// Reads a string value.
    pub fn as_str(&self) -> (r: Option<&str>)
        ensures
            match r {
                Some(s) => self.string() == Some(s@),
                None => self.string() is None,
            },
    {
        match &self.node {
            Node::Text(s) => Some(s.as_str()),
            _ => None,
        }
    }

    /// Reads a member that is a string.
    pub fn get_str(&self, key: &str) -> (r: Option<&str>)
        ensures
            match r {
                Some(s) => self.member_string(key@) == Some(s@),
                None => self.member_string(key@) is None,
            },
    {
        match self.get(key) {
            Some(j) => j.as_str(),
            None => None,
        }
    }

    /// Reads a member that is a list.
    pub fn get_list(&self, key: &str) -> (r: Option<&Vec<Json>>)
        ensures
            match r {
                Some(v) => self.member_list(key@) == Some(v@),
                None => self.member_list(key@) is None,
            },
    {
        match self.get(key) {
            Some(j) => match &j.node {
                Node::List(v) => Some(v),
                _ => None,
            },
            None => None,
        }
    }

    /// Reads a member that is a whole number and not negative.
    pub fn get_number(&self, key: &str) -> (r: Option<u64>)
        ensures
            r == self.member_number(key@),
    {
        match self.get(key) {
            Some(j) => match &j.node {
                Node::Number(n) => *n,
                _ => None,
            },
            None => None,
        }
    }

    /// Reads a member that is true or false.
    pub fn get_bool(&self, key: &str) -> (r: Option<bool>)
        ensures
            r == self.member_bool(key@),
    {
        match self.get(key) {
            Some(j) => match &j.node {
                Node::Bool(b) => Some(*b),
                _ => None,
            },
            None => None,
        }
    }

    /// The compact text of a member.
    pub fn get_text(&self, key: &str) -> (s: &str)
        ensures
            s@ == self.member_text(key@),
    {
        match self.get(key) {
            Some(j) => j.text.as_str(),
            None => "null",
        }
    }
}

/// The text of message content: a string; or the texts of a list of blocks,
/// one behind the other, where a tool result stands for its own content; or
/// nothing.
pub open spec fn text_of(content: Json) -> Seq<char>
    decreases
            content,
            (match content.node {
                Node::List(v) => v@.len() + 2,
                _ => 0,
            }) as int,
{
    match content.node {
        Node::Text(s) => s@,
        Node::List(v) => blocks_text(content, v@.len() as int),
        _ => Seq::empty(),
    }
}

/// The texts of the first `n` blocks of a list.
pub open spec fn blocks_text(content: Json, n: int) -> Seq<char>
    decreases content, n + 1,
    via blocks_decrease
{
    match content.node {
        Node::List(v) => if 0 < n <= v@.len() {
            blocks_text(content, n - 1) + block_text(v@[n - 1])
        } else {
            Seq::empty()
        },
        _ => Seq::empty(),
    }
}

/// The text of one block.
pub open spec fn block_text(b: Json) -> Seq<char>
    decreases b, 0int,
    via block_decreases
{
    match b.member_string("text"@) {
        Some(t) => t,
        None => if b.member_string("type"@) == Some("tool_result"@) {
            match b.member("content"@) {
                Some(c) => text_of(c),
                None => Seq::empty(),
            }
        } else {
            Seq::empty()
        },
    }
}

#[via_fn]
proof fn blocks_decrease(content: Json, n: int) {
    broadcast use vstd::std_specs::vec::group_vec_axioms;

    if let Node::List(v) = content.node {
        if 0 < n <= v@.len() {
            assert(decreases_to!(v => v[n - 1]));
        }
    }
}

#[via_fn]
proof fn block_decreases(b: Json) {
    broadcast use vstd::std_specs::vec::group_vec_axioms;

    if let Node::Members(m) = b.node {
        member_index_in_range(m@, "content"@, 0);
        if let Some(k) = member_index(m@, "content"@, 0) {
            assert(decreases_to!(m => m[k]));
        }
    }
}

/// Reads the text of message content.
pub fn content_text(content: &Json) -> (s: String)
    ensures
        s@ == text_of(*content),
    decreases content,
{
    match &content.node {
        Node::Text(s) => s.clone(),
        Node::List(v) => {
            let mut s: String = String::new();
            let mut i: usize = 0;
            while i < v.len()
                invariant
                    i <= v@.len(),
                    content.node == Node::List(*v),
                    s@ == blocks_text(*content, i as int),
                decreases v@.len() - i,
            {
                let b: &Json = &v[i];
                let ghost before = s@;
                proof {
                    assert(decreases_to!(*v => v[i as int]));
                }
                if let Some(t) = b.get_str("text") {
                    s.append(t);
                } else {
                    let result: bool = match b.get_str("type") {
                        Some(k) => same_text(k, "tool_result"),
                        None => false,
                    };
                    if result {
                        if let Some(c) = b.get("content") {
                            let inner: String = content_text(c);
                            s.append(inner.as_str());
                        }
                    }
                }
                assert(s@ =~= before + block_text(*b));
                assert(blocks_text(*content, i + 1) == before + block_text(v@[i as int]));
                i += 1;
            }
            s
        },
        _ => String::new(),
    }
}

/// A member is the first of its name.
pub proof fn member_is_first(members: Seq<(String, Json)>, key: Seq<char>, i: int, k: int)
    requires
        0 <= i <= k < members.len(),
        members[k].0@ == key,
        forall|j: int| i <= j < k ==> (#[trigger] members[j]).0@ != key,
    ensures
        member_index(members, key, i) == Some(k),
    decreases k - i,
{
    if i < k {
        assert(members[i].0@ != key);
        member_is_first(members, key, i + 1, k);
    }
}

/// A name that no member has finds none.
pub proof fn no_such_member(members: Seq<(String, Json)>, key: Seq<char>, i: int)
    requires
        0 <= i,
        forall|j: int| i <= j < members.len() ==> (#[trigger] members[j]).0@ != key,
    ensures
        member_index(members, key, i) is None,
    decreases members.len() - i,
{
    if i < members.len() {
        assert(members[i].0@ != key);
        no_such_member(members, key, i + 1);
    }
}

/// The text of a message: a string is itself; of a list, each block adds its own
/// text, or where it is a tool's result the text of its content, behind those
/// before it; anything else is nothing.
pub proof fn text_is_put_together(content: Json, n: int)
    ensures
        content.node matches Node::Text(s) ==> text_of(content) == s@,
        content.node matches Node::List(v) ==> {
            &&& text_of(content) == blocks_text(content, v@.len() as int)
            &&& blocks_text(content, 0) == Seq::<char>::empty()
            &&& 0 <= n < v@.len() ==> {
                let b = v@[n];
                let grown = blocks_text(content, n + 1);
                let before = blocks_text(content, n);
                &&& b.member_string("text"@) matches Some(t) ==> grown == before + t
                &&& b.member_string("text"@) is None && b.member_string("type"@) == Some(
                    "tool_result"@,
                ) ==> (b.member("content"@) matches Some(c) ==> grown == before + text_of(c))
                &&& b.member_string("text"@) is None && b.member_string("type"@) != Some(
                    "tool_result"@,
                ) ==> grown == before
            }
        },
        !(content.node is Text) && !(content.node is List) ==> text_of(content).len() == 0,
{
    if let Node::List(v) = content.node {
        if 0 <= n < v@.len() {
            let before = blocks_text(content, n);
            assert(blocks_text(content, n + 1) == before + block_text(v@[n]));
            assert(before + Seq::<char>::empty() =~= before);
        }
    }
}

} // verus!
