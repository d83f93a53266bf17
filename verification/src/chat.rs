//! Chat layouts: how system, user and assistant turns become token ids.

use vstd::prelude::*;
use vstd::string::*;
use vstd::utf8::encode_utf8;

use crate::bpe::Bpe;
use crate::tokenizer::{Error, Tokenizer};

verus! {

/// The layouts a vocabulary's marker tokens can spell.
#[derive(Debug, Clone, Copy, PartialEq, Eq, Structural)]
pub enum ChatStyle {
    /// `[bos] [system text] user <text> assistant think_start think_end`.
    Hy3,
    /// `<|im_user|>user<|im_middle|>text<|im_end|>` and so on.
    Kimi,
}

/// The marker ids a chat needs.
pub struct ChatMarkers {
    style: ChatStyle,
    pub bos: u32,
    pub eos: u32,
    pub eot: Option<u32>,
    user: u32,
    assistant: u32,
    /// Hy3: think_start. Kimi: `<|im_middle|>`.
    aux0: u32,
    /// Hy3: think_end. Kimi: `<|im_system|>`.
    aux1: u32,
}

/// The marker ids as values.
pub ghost struct Markers {
    pub style: ChatStyle,
    pub bos: u32,
    pub eos: u32,
    pub eot: Option<u32>,
    pub user: u32,
    pub assistant: u32,
    pub aux0: u32,
    pub aux1: u32,
}

impl View for ChatMarkers {
    type V = Markers;

    closed spec fn view(&self) -> Markers {
        Markers {
            style: self.style,
            bos: self.bos,
            eos: self.eos,
            eot: self.eot,
            user: self.user,
            assistant: self.assistant,
            aux0: self.aux0,
            aux1: self.aux1,
        }
    }
}

/// The ids of `text`.
pub open spec fn ids_of(t: Bpe, text: Seq<char>) -> Seq<u32> {
    t.encode(encode_utf8(text))
}

/// The id, if there is one, as a list.
pub open spec fn optional_id(id: Option<u32>) -> Seq<u32> {
    match id {
        Some(i) => seq![i],
        None => Seq::empty(),
    }
}

/// The layout that a vocabulary spells: Kimi when it has its middle marker.
pub open spec fn style_of(t: Bpe) -> ChatStyle {
    if t.find("<|im_middle|>"@) is Some {
        ChatStyle::Kimi
    } else {
        ChatStyle::Hy3
    }
}

/// The marker tokens that a layout needs, in the order they are looked up:
/// user, assistant, and the two auxiliary ones.
pub open spec fn marker_names(style: ChatStyle) -> Seq<Seq<char>> {
    match style {
        ChatStyle::Kimi => seq![
            "<|im_user|>"@,
            "<|im_assistant|>"@,
            "<|im_middle|>"@,
            "<|im_system|>"@,
        ],
        ChatStyle::Hy3 => seq![
            "<\u{ff5c}hy_User:opensource\u{ff5c}>"@,
            "<\u{ff5c}hy_Assistant:opensource\u{ff5c}>"@,
            "<think:opensource>"@,
            "</think:opensource>"@,
        ],
    }
}

/// The first thing that is missing from a vocabulary, if anything is.
pub open spec fn first_missing(t: Bpe) -> Option<Seq<char>> {
    let names = marker_names(style_of(t));
    if t.bos is None {
        Some("bos_token_id"@)
    } else if t.eos is None {
        Some("eos_token_id"@)
    } else if t.find(names[0]) is None {
        Some(names[0])
    } else if t.find(names[1]) is None {
        Some(names[1])
    } else if t.find(names[2]) is None {
        Some(names[2])
    } else if t.find(names[3]) is None {
        Some(names[3])
    } else {
        None
    }
}

impl Markers {
    /// Ids of a system message.
    pub open spec fn system(self, t: Bpe, text: Seq<char>) -> Seq<u32> {
        match self.style {
            ChatStyle::Hy3 => ids_of(t, text),
            ChatStyle::Kimi => seq![self.aux1] + ids_of(t, "system"@) + seq![self.aux0] + ids_of(
                t,
                text,
            ) + optional_id(self.eot),
        }
    }

    /// Ids of a user message.
    pub open spec fn user_message(self, t: Bpe, text: Seq<char>) -> Seq<u32> {
        match self.style {
            ChatStyle::Hy3 => seq![self.user] + ids_of(t, text),
            ChatStyle::Kimi => seq![self.user] + ids_of(t, "user"@) + seq![self.aux0] + ids_of(
                t,
                text,
            ) + optional_id(self.eot),
        }
    }

    /// Ids that open an assistant turn, with thinking already closed.
    pub open spec fn opener(self, t: Bpe) -> Seq<u32> {
        match self.style {
            ChatStyle::Hy3 => seq![self.assistant, self.aux0, self.aux1],
            ChatStyle::Kimi => seq![self.assistant] + ids_of(t, "assistant"@) + seq![self.aux0]
                + ids_of(t, "<think></think>"@),
        }
    }

    /// The id that ends an assistant turn: the end of the sequence, or in the
    /// Kimi layout its own end-of-turn marker where there is one.
    pub open spec fn turn_end(self) -> u32 {
        match self.style {
            ChatStyle::Hy3 => self.eos,
            ChatStyle::Kimi => match self.eot {
                Some(i) => i,
                None => self.eos,
            },
        }
    }

    /// Ids of a finished assistant turn.
    pub open spec fn history(self, t: Bpe, text: Seq<char>) -> Seq<u32> {
        self.opener(t) + ids_of(t, text) + seq![self.turn_end()]
    }

    /// Ids of a system message, where there is one.
    pub open spec fn some_system(self, t: Bpe, text: Option<Seq<char>>) -> Seq<u32> {
        match text {
            Some(s) => self.system(t, s),
            None => Seq::empty(),
        }
    }

    /// What goes in for the first turn of a chat.
    pub open spec fn first_turn(
        self,
        t: Bpe,
        system: Option<Seq<char>>,
        text: Seq<char>,
    ) -> Seq<u32> {
        seq![self.bos] + self.some_system(t, system) + self.user_message(t, text) + self.opener(t)
    }

    /// What goes in for a later turn, behind the reply to the one before: its end
    /// first, unless it has `ended` by itself.
    pub open spec fn later_turn(self, t: Bpe, ended: bool, text: Seq<char>) -> Seq<u32> {
        let end = if ended {
            Seq::empty()
        } else {
            seq![self.turn_end()]
        };
        end + self.user_message(t, text) + self.opener(t)
    }

    /// Whether `id` ends generation.
    pub open spec fn stops(self, id: u32) -> bool {
        id == self.eos || self.eot == Some(id)
    }
}

/// The id that ends a turn in history is one that ends generation.
pub proof fn turn_end_stops(m: Markers)
    ensures
        m.stops(m.turn_end()),
{
}

/// A chat that keeps its context has the ids that the same conversation has as
/// history: the reply stands in it as a finished turn, whether the model ended it
/// itself or was cut off.
pub proof fn chat_is_its_history(
    m: Markers,
    t: Bpe,
    system: Option<Seq<char>>,
    text: Seq<char>,
    reply: Seq<char>,
    next: Seq<char>,
)
    ensures
        ({
            let first = m.first_turn(t, system, text);
            let ids = ids_of(t, reply);
            let history = seq![m.bos] + m.some_system(t, system) + m.user_message(t, text)
                + m.history(t, reply) + m.user_message(t, next) + m.opener(t);
            &&& first + ids + m.later_turn(t, false, next) == history
            &&& first + ids + seq![m.turn_end()] + m.later_turn(t, true, next) == history
        }),
{
    let first = m.first_turn(t, system, text);
    let ids = ids_of(t, reply);
    let history = seq![m.bos] + m.some_system(t, system) + m.user_message(t, text) + m.history(
        t,
        reply,
    ) + m.user_message(t, next) + m.opener(t);
    assert(first + ids + m.later_turn(t, false, next) =~= history);
    assert(first + ids + seq![m.turn_end()] + m.later_turn(t, true, next) =~= history);
}

/// The Hy3 layout, id by id: the beginning, the bare system text, the user marker
/// before the user's text, and the assistant marker with thinking opened and
/// closed; a finished turn has its text behind that and the end of the sequence.
pub proof fn hy3_layout(
    m: Markers,
    t: Bpe,
    system: Seq<char>,
    text: Seq<char>,
    reply: Seq<char>,
)
    requires
        m.style == ChatStyle::Hy3,
    ensures
        ({
            let (s, u, r) = (
                t.encode(encode_utf8(system)),
                t.encode(encode_utf8(text)),
                t.encode(encode_utf8(reply)),
            );
            let open = seq![m.assistant, m.aux0, m.aux1];
            &&& m.first_turn(t, Some(system), text) == seq![m.bos] + s + seq![m.user] + u + open
            &&& m.first_turn(t, None, text) == seq![m.bos] + seq![m.user] + u + open
            &&& m.later_turn(t, false, text) == seq![m.eos] + seq![m.user] + u + open
            &&& m.later_turn(t, true, text) == seq![m.user] + u + open
            &&& m.history(t, reply) == open + r + seq![m.eos]
        }),
{
    let (s, u, r) = (
        t.encode(encode_utf8(system)),
        t.encode(encode_utf8(text)),
        t.encode(encode_utf8(reply)),
    );
    let open = seq![m.assistant, m.aux0, m.aux1];
    assert(m.first_turn(t, Some(system), text) =~= seq![m.bos] + s + seq![m.user] + u + open);
    assert(m.first_turn(t, None, text) =~= seq![m.bos] + seq![m.user] + u + open);
    assert(m.later_turn(t, false, text) =~= seq![m.eos] + seq![m.user] + u + open);
    assert(m.later_turn(t, true, text) =~= seq![m.user] + u + open);
}

/// The Kimi layout, id by id: every turn is its role's marker, the role's name, the
/// middle marker, the text, and the end-of-turn marker where there is one; the
/// assistant's turn begins with thinking opened and closed.
pub proof fn kimi_layout(
    m: Markers,
    t: Bpe,
    system: Seq<char>,
    text: Seq<char>,
    reply: Seq<char>,
    end: u32,
)
    requires
        m.style == ChatStyle::Kimi,
        m.eot == Some(end),
    ensures
        ({
            let of = |x: Seq<char>| t.encode(encode_utf8(x));
            let middle = seq![m.aux0];
            let sys = seq![m.aux1] + of("system"@) + middle + of(system) + seq![end];
            let user = seq![m.user] + of("user"@) + middle + of(text) + seq![end];
            let open = seq![m.assistant] + of("assistant"@) + middle + of("<think></think>"@);
            &&& m.first_turn(t, Some(system), text) == seq![m.bos] + sys + user + open
            &&& m.first_turn(t, None, text) == seq![m.bos] + user + open
            &&& m.later_turn(t, false, text) == seq![end] + user + open
            &&& m.later_turn(t, true, text) == user + open
            &&& m.history(t, reply) == open + of(reply) + seq![end]
        }),
{
    let of = |x: Seq<char>| t.encode(encode_utf8(x));
    let middle = seq![m.aux0];
    let sys = seq![m.aux1] + of("system"@) + middle + of(system) + seq![end];
    let user = seq![m.user] + of("user"@) + middle + of(text) + seq![end];
    let open = seq![m.assistant] + of("assistant"@) + middle + of("<think></think>"@);
    assert(m.first_turn(t, Some(system), text) =~= seq![m.bos] + sys + user + open);
    assert(m.first_turn(t, None, text) =~= seq![m.bos] + user + open);
    assert(m.later_turn(t, false, text) =~= seq![end] + user + open);
    assert(m.later_turn(t, true, text) =~= user + open);
}

/// Generation stops at the end of the sequence and at the end of a turn, and at no
/// other id.
pub proof fn stops_at_ends(m: Markers, id: u32)
    ensures
        m.stops(m.eos),
        m.eot matches Some(e) ==> m.stops(e),
        m.stops(id) ==> id == m.eos || m.eot == Some(id),
{
}

/// Appends `ids` to `out`.
pub(crate) fn push_all(out: &mut Vec<u32>, ids: &Vec<u32>)
    ensures
        final(out)@ == old(out)@ + ids@,
{
    let mut i: usize = 0;
    while i < ids.len()
        invariant
            i <= ids@.len(),
            out@ == old(out)@ + ids@.take(i as int),
        decreases ids@.len() - i,
    {
        out.push(ids[i]);
        assert(ids@.take(i + 1) =~= ids@.take(i as int).push(ids@[i as int]));
        assert(out@ =~= old(out)@ + ids@.take(i + 1));
        i += 1;
    }
    assert(ids@.take(i as int) =~= ids@);
}

fn find(t: &Tokenizer, name: &'static str) -> (r: Result<u32, Error>)
    ensures
        match r {
            Ok(id) => t@.find(name@) == Some(id),
            Err(e) => t@.find(name@) is None && (e matches Error::MissingKey(k) && k@ == name@),
        },
{
    match t.find_token(name) {
        Some(id) => Ok(id),
        None => Err(Error::MissingKey(name)),
    }
}

impl ChatMarkers {
    /// Looks the markers up, or names the first one that is missing.
    pub fn resolve(t: &Tokenizer) -> (r: Result<ChatMarkers, Error>)
        ensures
            match r {
                Ok(m) => {
                    &&& first_missing(t@) is None
                    &&& m@.style == style_of(t@)
                    &&& Some(m@.bos) == t@.bos
                    &&& Some(m@.eos) == t@.eos
                    &&& m@.eot == (match m@.style {
                        ChatStyle::Kimi => t@.find("<|im_end|>"@),
                        ChatStyle::Hy3 => t@.eot,
                    })
                    &&& Some(m@.user) == t@.find(marker_names(m@.style)[0])
                    &&& Some(m@.assistant) == t@.find(marker_names(m@.style)[1])
                    &&& Some(m@.aux0) == t@.find(marker_names(m@.style)[2])
                    &&& Some(m@.aux1) == t@.find(marker_names(m@.style)[3])
                    &&& t@.find("<|im_middle|>"@) is Some ==> {
                        &&& m@.style == ChatStyle::Kimi
                        &&& Some(m@.user) == t@.find("<|im_user|>"@)
                        &&& Some(m@.assistant) == t@.find("<|im_assistant|>"@)
                        &&& Some(m@.aux0) == t@.find("<|im_middle|>"@)
                        &&& Some(m@.aux1) == t@.find("<|im_system|>"@)
                    }
                    &&& t@.find("<|im_middle|>"@) is None ==> {
                        &&& m@.style == ChatStyle::Hy3
                        &&& Some(m@.user) == t@.find("<\u{ff5c}hy_User:opensource\u{ff5c}>"@)
                        &&& Some(m@.assistant) == t@.find(
                            "<\u{ff5c}hy_Assistant:opensource\u{ff5c}>"@,
                        )
                        &&& Some(m@.aux0) == t@.find("<think:opensource>"@)
                        &&& Some(m@.aux1) == t@.find("</think:opensource>"@)
                    }
                },
                Err(e) => e matches Error::MissingKey(k) && first_missing(t@) == Some(k@),
            },
    {
        let kimi: bool = t.find_token("<|im_middle|>").is_some();
        let (bos_id, eos_id, eot_id) = t.special_ids();
        let bos: u32 = match bos_id {
            Some(i) => i,
            None => return Err(Error::MissingKey("bos_token_id")),
        };
        let eos: u32 = match eos_id {
            Some(i) => i,
            None => return Err(Error::MissingKey("eos_token_id")),
        };
        if kimi {
            let eot: Option<u32> = t.find_token("<|im_end|>");
            let user: u32 = match find(t, "<|im_user|>") {
                Ok(i) => i,
                Err(e) => return Err(e),
            };
            let assistant: u32 = match find(t, "<|im_assistant|>") {
                Ok(i) => i,
                Err(e) => return Err(e),
            };
            let aux0: u32 = match find(t, "<|im_middle|>") {
                Ok(i) => i,
                Err(e) => return Err(e),
            };
            let aux1: u32 = match find(t, "<|im_system|>") {
                Ok(i) => i,
                Err(e) => return Err(e),
            };
            return Ok(
                ChatMarkers { style: ChatStyle::Kimi, bos, eos, eot, user, assistant, aux0, aux1 },
            );
        }
        let user: u32 = match find(t, "<\u{ff5c}hy_User:opensource\u{ff5c}>") {
            Ok(i) => i,
            Err(e) => return Err(e),
        };
        let assistant: u32 = match find(t, "<\u{ff5c}hy_Assistant:opensource\u{ff5c}>") {
            Ok(i) => i,
            Err(e) => return Err(e),
        };
        let aux0: u32 = match find(t, "<think:opensource>") {
            Ok(i) => i,
            Err(e) => return Err(e),
        };
        let aux1: u32 = match find(t, "</think:opensource>") {
            Ok(i) => i,
            Err(e) => return Err(e),
        };
        Ok(
            ChatMarkers {
                style: ChatStyle::Hy3,
                bos,
                eos,
                eot: eot_id,
                user,
                assistant,
                aux0,
                aux1,
            },
        )
    }

    /// What every context begins with.
    pub fn prologue(&self) -> (v: Vec<u32>)
        ensures
            v@ == seq![self@.bos],
    {
        let v: Vec<u32> = vec![self.bos];
        assert(v@ =~= seq![self@.bos]);
        v
    }

    /// System text for the first turn.
    pub fn render_system(&self, t: &Tokenizer, text: &str) -> (v: Vec<u32>)
        ensures
            v@ == self@.system(t@, text@),
    {
        match self.style {
            ChatStyle::Hy3 => t.encode(text),
            ChatStyle::Kimi => {
                let mut v: Vec<u32> = vec![self.aux1];
                push_all(&mut v, &t.encode("system"));
                v.push(self.aux0);
                push_all(&mut v, &t.encode(text));
                if let Some(i) = self.eot {
                    v.push(i);
                }
                assert(v@ =~= self@.system(t@, text@));
                v
            },
        }
    }

    /// A user message, without the assistant opener.
    pub fn render_user(&self, t: &Tokenizer, text: &str) -> (v: Vec<u32>)
        ensures
            v@ == self@.user_message(t@, text@),
    {
        let mut v: Vec<u32> = vec![self.user];
        match self.style {
            ChatStyle::Hy3 => {
                push_all(&mut v, &t.encode(text));
            },
            ChatStyle::Kimi => {
                push_all(&mut v, &t.encode("user"));
                v.push(self.aux0);
                push_all(&mut v, &t.encode(text));
                if let Some(i) = self.eot {
                    v.push(i);
                }
            },
        }
        assert(v@ =~= self@.user_message(t@, text@));
        v
    }

    /// The assistant opener; generation starts right after it.
    pub fn open_assistant(&self, t: &Tokenizer) -> (v: Vec<u32>)
        ensures
            v@ == self@.opener(t@),
    {
        let mut v: Vec<u32> = vec![self.assistant];
        match self.style {
            ChatStyle::Hy3 => {
                v.push(self.aux0);
                v.push(self.aux1);
            },
            ChatStyle::Kimi => {
                push_all(&mut v, &t.encode("assistant"));
                v.push(self.aux0);
                push_all(&mut v, &t.encode("<think></think>"));
            },
        }
        assert(v@ =~= self@.opener(t@));
        v
    }

    /// A completed assistant turn: opener, content, stop.
    pub fn render_assistant_history(&self, t: &Tokenizer, text: &str) -> (v: Vec<u32>)
        ensures
            v@ == self@.history(t@, text@),
    {
        let mut v: Vec<u32> = self.open_assistant(t);
        push_all(&mut v, &t.encode(text));
        v.push(self.end_of_turn());
        assert(v@ =~= self@.history(t@, text@));
        v
    }

    fn end_of_turn(&self) -> (id: u32)
        ensures
            id == self@.turn_end(),
    {
        match self.style {
            ChatStyle::Hy3 => self.eos,
            ChatStyle::Kimi => self.eot.unwrap_or(self.eos),
        }
    }

    /// The first turn of a chat, up to where the reply begins.
    pub fn begin_chat(&self, t: &Tokenizer, system: Option<&str>, text: &str) -> (v: Vec<u32>)
        ensures
            v@ == self@.first_turn(
                t@,
                match system {
                    Some(s) => Some(s@),
                    None => None,
                },
                text@,
            ),
    {
        let mut v: Vec<u32> = self.prologue();
        if let Some(s) = system {
            push_all(&mut v, &self.render_system(t, s));
        }
        push_all(&mut v, &self.render_user_turn(t, text));
        assert(v@ =~= self@.first_turn(
            t@,
            match system {
                Some(s) => Some(s@),
                None => None,
            },
            text@,
        ));
        v
    }

    /// A later turn of a chat: ends the last reply's turn where the reply did not
    /// end itself, and goes up to where the next reply begins.
    pub fn continue_chat(&self, t: &Tokenizer, ended: bool, text: &str) -> (v: Vec<u32>)
        ensures
            v@ == self@.later_turn(t@, ended, text@),
    {
        let mut v: Vec<u32> = Vec::new();
        if !ended {
            v.push(self.end_of_turn());
        }
        push_all(&mut v, &self.render_user_turn(t, text));
        assert(v@ =~= self@.later_turn(t@, ended, text@));
        v
    }

    /// One user turn and the assistant opener.
    pub fn render_user_turn(&self, t: &Tokenizer, text: &str) -> (v: Vec<u32>)
        ensures
            v@ == self@.user_message(t@, text@) + self@.opener(t@),
    {
        let mut v: Vec<u32> = self.render_user(t, text);
        push_all(&mut v, &self.open_assistant(t));
        v
    }

    /// Whether `id` ends generation.
    pub fn is_stop(&self, id: u32) -> (r: bool)
        ensures
            r == self@.stops(id),
    {
        if id == self.eos {
            return true;
        }
        match self.eot {
            Some(i) => i == id,
            None => false,
        }
    }
}

} // verus!
