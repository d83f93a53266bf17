//! The bodies of replies, as trees that the program writes out as JSON.

use vstd::prelude::*;
use vstd::string::*;

use crate::reply::{call_id, call_name, finish_reason, reason_of};

verus! {

/// A value to be written out.
#[derive(Debug)]
pub enum Out {
    Null,
    Number(u64),
    Text(String),
    List(Vec<Out>),
    Members(Vec<(String, Out)>),
}

/// A value to be written out, as mathematics.
pub ghost enum Tree {
    Null,
    Number(int),
    Text(Seq<char>),
    List(Seq<Tree>),
    Members(Seq<(Seq<char>, Tree)>),
}

impl View for Out {
    type V = Tree;

    open spec fn view(&self) -> Tree {
        tree_of(*self)
    }
}

/// The tree of a value.
pub open spec fn tree_of(o: Out) -> Tree
    decreases o,
{
    match o {
        Out::Null => Tree::Null,
        Out::Number(n) => Tree::Number(n as int),
        Out::Text(s) => Tree::Text(s@),
        Out::List(v) => Tree::List(
            Seq::new(
                v@.len(),
                |i: int|
                    if 0 <= i < v@.len() {
                        tree_of(v@[i])
                    } else {
                        Tree::Null
                    },
            ),
        ),
        Out::Members(m) => Tree::Members(
            Seq::new(
                m@.len(),
                |i: int|
                    if 0 <= i < m@.len() {
                        (m@[i].0@, tree_of(m@[i].1))
                    } else {
                        (Seq::empty(), Tree::Null)
                    },
            ),
        ),
    }
}

/// The members of a map.
spec fn fields_of(m: Seq<(String, Out)>) -> Seq<(Seq<char>, Tree)> {
    Seq::new(m.len(), |i: int| (m[i].0@, tree_of(m[i].1)))
}

/// The items of a list.
spec fn items_of(v: Seq<Out>) -> Seq<Tree> {
    Seq::new(v.len(), |i: int| tree_of(v[i]))
}

fn text(s: &str) -> (o: Out)
    ensures
        o@ == Tree::Text(s@),
{
    Out::Text(String::from_str(s))
}

fn list(v: Vec<Out>) -> (o: Out)
    ensures
        o@ == Tree::List(items_of(v@)),
{
    let o = Out::List(v);
    proof {
        assert(o@->List_0 =~= items_of(v@));
    }
    o
}

fn one(x: Out) -> (o: Out)
    ensures
        o@ == Tree::List(seq![x@]),
{
    let mut v: Vec<Out> = Vec::new();
    v.push(x);
    assert(items_of(v@) =~= seq![x@]);
    list(v)
}

fn members(m: Vec<(String, Out)>) -> (o: Out)
    ensures
        o@ == Tree::Members(fields_of(m@)),
{
    let o = Out::Members(m);
    proof {
        assert(o@->Members_0 =~= fields_of(m@));
    }
    o
}

fn no_members() -> (m: Vec<(String, Out)>)
    ensures
        fields_of(m@) == Seq::<(Seq<char>, Tree)>::empty(),
{
    let m: Vec<(String, Out)> = Vec::new();
    assert(fields_of(m@) =~= Seq::empty());
    m
}

fn put(m: &mut Vec<(String, Out)>, name: &str, x: Out)
    ensures
        fields_of(final(m)@) == fields_of(old(m)@).push((name@, x@)),
{
    m.push((String::from_str(name), x));
    assert(fields_of(m@) =~= fields_of(old(m)@).push((name@, x@)));
}

/// The list of models.
pub open spec fn models_tree(model: Seq<char>) -> Tree {
    let entry = Tree::Members(
        seq![
            ("id"@, Tree::Text(model)),
            ("object"@, Tree::Text("model"@)),
            ("owned_by"@, Tree::Text("pulsar"@)),
        ],
    );
    Tree::Members(
        seq![("object"@, Tree::Text("list"@)), ("data"@, Tree::List(seq![entry]))],
    )
}

/// Lists the one model that is served.
pub fn models_answer(model: &str) -> (o: Out)
    ensures
        o@ == models_tree(model@),
{
    let mut e: Vec<(String, Out)> = no_members();
    put(&mut e, "id", text(model));
    put(&mut e, "object", text("model"));
    put(&mut e, "owned_by", text("pulsar"));
    let mut m: Vec<(String, Out)> = no_members();
    put(&mut m, "object", text("list"));
    let entry = members(e);
    assert(entry@->Members_0 =~= models_tree(model@)->Members_0[1].1->List_0[0]->Members_0);
    put(&mut m, "data", one(entry));
    assert(fields_of(m@) =~= models_tree(model@)->Members_0);
    members(m)
}

/// An error.
pub open spec fn error_tree(message: Seq<char>) -> Tree {
    Tree::Members(
        seq![("error"@, Tree::Members(seq![("message"@, Tree::Text(message))]))],
    )
}

/// States an error.
pub fn error_answer(message: &str) -> (o: Out)
    ensures
        o@ == error_tree(message@),
{
    let mut e: Vec<(String, Out)> = no_members();
    put(&mut e, "message", text(message));
    let mut m: Vec<(String, Out)> = no_members();
    put(&mut m, "error", members(e));
    members(m)
}

/// How many tokens a reply took.
pub open spec fn usage_tree(prompt: int, completion: int) -> Tree {
    Tree::Members(
        seq![
            ("prompt_tokens"@, Tree::Number(prompt)),
            ("completion_tokens"@, Tree::Number(completion)),
            ("total_tokens"@, Tree::Number(prompt + completion)),
        ],
    )
}

fn usage(prompt: u64, completion: u64) -> (o: Out)
    requires
        prompt + completion <= u64::MAX,
    ensures
        o@ == usage_tree(prompt as int, completion as int),
{
    let mut m: Vec<(String, Out)> = no_members();
    put(&mut m, "prompt_tokens", Out::Number(prompt));
    put(&mut m, "completion_tokens", Out::Number(completion));
    put(&mut m, "total_tokens", Out::Number(prompt + completion));
    assert(fields_of(m@) =~= usage_tree(prompt as int, completion as int)->Members_0);
    members(m)
}

/// The members of a tool call: the `k`-th of a request.
pub open spec fn call_fields(request: u64, k: usize, name: Seq<char>, args: Seq<char>) -> Seq<
    (Seq<char>, Tree),
> {
    let function = Tree::Members(
        seq![("name"@, Tree::Text(name)), ("arguments"@, Tree::Text(args))],
    );
    seq![
        ("id"@, Tree::Text(call_name(request, k))),
        ("type"@, Tree::Text("function"@)),
        ("function"@, function),
    ]
}

fn put_call(m: &mut Vec<(String, Out)>, request: u64, k: usize, name: &str, args: &str)
    ensures
        fields_of(final(m)@) == fields_of(old(m)@) + call_fields(request, k, name@, args@),
{
    let mut f: Vec<(String, Out)> = no_members();
    put(&mut f, "name", text(name));
    put(&mut f, "arguments", text(args));
    assert(fields_of(f@) =~= seq![
        ("name"@, Tree::Text(name@)),
        ("arguments"@, Tree::Text(args@)),
    ]);
    let id: String = call_id(request, k);
    put(m, "id", Out::Text(id));
    put(m, "type", text("function"));
    put(m, "function", members(f));
    assert(fields_of(m@) =~= fields_of(old(m)@) + call_fields(request, k, name@, args@));
}

/// All tool calls of a reply.
pub open spec fn calls_tree(request: u64, calls: Seq<(String, String)>) -> Tree {
    Tree::List(
        Seq::new(
            calls.len(),
            |k: int|
                Tree::Members(call_fields(request, k as usize, calls[k].0@, calls[k].1@)),
        ),
    )
}

fn calls_out(request: u64, calls: &[(String, String)]) -> (o: Out)
    ensures
        o@ == calls_tree(request, calls@),
{
    let mut v: Vec<Out> = Vec::new();
    let mut k: usize = 0;
    while k < calls.len()
        invariant
            k <= calls.len(),
            v@.len() == k,
            forall|i: int|
                0 <= i < k ==> (#[trigger] v@[i])@ == Tree::Members(
                    call_fields(request, i as usize, calls@[i].0@, calls@[i].1@),
                ),
        decreases calls.len() - k,
    {
        let mut m: Vec<(String, Out)> = no_members();
        put_call(&mut m, request, k, calls[k].0.as_str(), calls[k].1.as_str());
        v.push(members(m));
        k += 1;
    }
    assert(items_of(v@) =~= calls_tree(request, calls@)->List_0);
    list(v)
}

/// A whole reply: the visible text, and the tool calls where there are any.
pub open spec fn completion_tree(
    id: Seq<char>,
    model: Seq<char>,
    content: Seq<char>,
    request: u64,
    calls: Seq<(String, String)>,
    prompt: int,
    completion: int,
) -> Tree {
    let spoken = seq![("role"@, Tree::Text("assistant"@)), ("content"@, Tree::Text(content))];
    let message = if calls.len() == 0 {
        spoken
    } else {
        spoken.push(("tool_calls"@, calls_tree(request, calls)))
    };
    let choice = Tree::Members(
        seq![
            ("index"@, Tree::Number(0)),
            ("message"@, Tree::Members(message)),
            ("finish_reason"@, Tree::Text(reason_of(calls.len() as int))),
        ],
    );
    Tree::Members(
        seq![
            ("id"@, Tree::Text(id)),
            ("object"@, Tree::Text("chat.completion"@)),
            ("model"@, Tree::Text(model)),
            ("choices"@, Tree::List(seq![choice])),
            ("usage"@, usage_tree(prompt, completion)),
        ],
    )
}

/// Puts a whole reply together.
pub fn completion_answer(
    id: &str,
    model: &str,
    content: &str,
    request: u64,
    calls: &[(String, String)],
    prompt: u64,
    completion: u64,
) -> (o: Out)
    requires
        prompt + completion <= u64::MAX,
    ensures
        o@ == completion_tree(
            id@,
            model@,
            content@,
            request,
            calls@,
            prompt as int,
            completion as int,
        ),
{
    let mut e: Vec<(String, Out)> = no_members();
    put(&mut e, "role", text("assistant"));
    put(&mut e, "content", text(content));
    if calls.len() > 0 {
        put(&mut e, "tool_calls", calls_out(request, calls));
    }
    let ghost want = completion_tree(
        id@,
        model@,
        content@,
        request,
        calls@,
        prompt as int,
        completion as int,
    );
    let ghost choice = want->Members_0[3].1->List_0[0];
    assert(fields_of(e@) =~= choice->Members_0[1].1->Members_0);
    let mut c: Vec<(String, Out)> = no_members();
    put(&mut c, "index", Out::Number(0));
    put(&mut c, "message", members(e));
    put(&mut c, "finish_reason", text(finish_reason(calls.len())));
    assert(fields_of(c@) =~= choice->Members_0);
    let mut m: Vec<(String, Out)> = no_members();
    put(&mut m, "id", text(id));
    put(&mut m, "object", text("chat.completion"));
    put(&mut m, "model", text(model));
    put(&mut m, "choices", one(members(c)));
    put(&mut m, "usage", usage(prompt, completion));
    assert(fields_of(m@) =~= want->Members_0);
    members(m)
}

/// A piece of a streamed reply.
pub open spec fn chunk_fields(
    id: Seq<char>,
    model: Seq<char>,
    delta: Tree,
    reason: Tree,
) -> Seq<(Seq<char>, Tree)> {
    let choice = Tree::Members(
        seq![("index"@, Tree::Number(0)), ("delta"@, delta), ("finish_reason"@, reason)],
    );
    seq![
        ("id"@, Tree::Text(id)),
        ("object"@, Tree::Text("chat.completion.chunk"@)),
        ("model"@, Tree::Text(model)),
        ("choices"@, Tree::List(seq![choice])),
    ]
}

fn put_chunk(m: &mut Vec<(String, Out)>, id: &str, model: &str, delta: Out, reason: Out)
    ensures
        fields_of(final(m)@) == fields_of(old(m)@) + chunk_fields(id@, model@, delta@, reason@),
{
    let mut c: Vec<(String, Out)> = no_members();
    put(&mut c, "index", Out::Number(0));
    put(&mut c, "delta", delta);
    put(&mut c, "finish_reason", reason);
    assert(fields_of(c@) =~= seq![
        ("index"@, Tree::Number(0)),
        ("delta"@, delta@),
        ("finish_reason"@, reason@),
    ]);
    put(m, "id", text(id));
    put(m, "object", text("chat.completion.chunk"));
    put(m, "model", text(model));
    put(m, "choices", one(members(c)));
    assert(fields_of(m@) =~= fields_of(old(m)@) + chunk_fields(id@, model@, delta@, reason@));
}

/// What a piece of a streamed reply brings.
#[derive(Debug, Clone, Copy)]
pub enum Delta<'a> {
    /// The speaker: the first piece.
    Role,
    /// More text.
    Content(&'a str),
    /// The `k`-th tool call of a request.
    Call { request: u64, k: usize, name: &'a str, args: &'a str },
}

/// What a piece brings, as a tree.
pub open spec fn delta_tree(d: Delta) -> Tree {
    match d {
        Delta::Role => Tree::Members(seq![("role"@, Tree::Text("assistant"@))]),
        Delta::Content(s) => Tree::Members(seq![("content"@, Tree::Text(s@))]),
        Delta::Call { request, k, name, args } => {
            let call = Tree::Members(
                seq![("index"@, Tree::Number(k as int))] + call_fields(request, k, name@, args@),
            );
            Tree::Members(seq![("tool_calls"@, Tree::List(seq![call]))])
        },
    }
}

/// Puts a piece of a streamed reply together.
pub fn chunk_answer(id: &str, model: &str, d: Delta) -> (o: Out)
    ensures
        o@ == Tree::Members(chunk_fields(id@, model@, delta_tree(d), Tree::Null)),
{
    let mut e: Vec<(String, Out)> = no_members();
    match d {
        Delta::Role => put(&mut e, "role", text("assistant")),
        Delta::Content(s) => put(&mut e, "content", text(s)),
        Delta::Call { request, k, name, args } => {
            let mut c: Vec<(String, Out)> = no_members();
            put(&mut c, "index", Out::Number(k as u64));
            put_call(&mut c, request, k, name, args);
            put(&mut e, "tool_calls", one(members(c)));
        },
    }
    let delta = members(e);
    assert(delta@ == delta_tree(d));
    let mut m: Vec<(String, Out)> = no_members();
    put_chunk(&mut m, id, model, delta, Out::Null);
    assert(fields_of(m@) =~= chunk_fields(id@, model@, delta_tree(d), Tree::Null));
    members(m)
}

/// Puts the last piece of a streamed reply together: it brings no more text,
/// but why the reply ended and what it took.
pub fn last_answer(id: &str, model: &str, n_calls: usize, prompt: u64, completion: u64) -> (o: Out)
    requires
        prompt + completion <= u64::MAX,
    ensures
        o@ == Tree::Members(
            chunk_fields(
                id@,
                model@,
                Tree::Members(Seq::empty()),
                Tree::Text(reason_of(n_calls as int)),
            ).push(("usage"@, usage_tree(prompt as int, completion as int))),
        ),
{
    let none: Vec<(String, Out)> = no_members();
    let mut m: Vec<(String, Out)> = no_members();
    put_chunk(&mut m, id, model, members(none), text(finish_reason(n_calls)));
    put(&mut m, "usage", usage(prompt, completion));
    assert(fields_of(m@) =~= chunk_fields(
        id@,
        model@,
        Tree::Members(Seq::empty()),
        Tree::Text(reason_of(n_calls as int)),
    ).push(("usage"@, usage_tree(prompt as int, completion as int))));
    members(m)
}

} // verus!
