//! Byte-level BPE tokenizer, built entirely from model metadata.

use vstd::hash_map::StringHashMap;
use vstd::prelude::*;
use vstd::string::*;

use crate::bpe::{
    best_pair, best_pair_in_range, char_ids, merge_at, merged, numbering, pair_key, singles,
    symbol_ids, symbols_ids, Bpe, Pre,
};
use crate::bytemap::{
    byte_char, byte_chars, byte_table, char_bytes, gpt2_char_to_byte, token_bytes,
};
use crate::bytes::contents;
use crate::gguf::{text_view, Gguf, MetaValue};
#[allow(unused_imports)]
use crate::glm4::glm4_pieces;
use crate::glm4::pretokenize_glm4;
#[allow(unused_imports)]
use crate::kimi::kimi_pieces;
use crate::kimi::pretokenize_kimi_k2;
use crate::pretokenize::pretokenize;
#[allow(unused_imports)]
use crate::pretokenize::words;
use crate::text::{push_utf8, same_text, to_chars};

verus! {

/// Why a tokenizer or its chat markers could not be built.
#[derive(Debug)]
pub enum Error {
    /// The key is absent or not a list.
    MissingKey(&'static str),
    /// The key's list holds something other than text.
    BadKey(&'static str),
}

impl Error {
    /// The message shown to a user.
    pub fn message(&self) -> (s: String)
        ensures
            match self {
                Error::MissingKey(k) => s@ == "gguf metadata is missing "@ + k@,
                Error::BadKey(k) => s@ == "gguf metadata key "@ + k@ + " has the wrong shape"@,
            },
    {
        match self {
            Error::MissingKey(k) => {
                let mut s: String = String::from_str("gguf metadata is missing ");
                s.append(k);
                s
            },
            Error::BadKey(k) => {
                let mut s: String = String::from_str("gguf metadata key ");
                s.append(k);
                s.append(" has the wrong shape");
                s
            },
        }
    }
}

/// The contents of a list of strings.
pub open spec fn texts(list: Seq<String>) -> Seq<Seq<char>> {
    list.map_values(|s: String| s@)
}

/// Whether every item of a metadata list is text.
pub open spec fn all_text(items: Seq<MetaValue>) -> bool {
    forall|i: int| 0 <= i < items.len() ==> (#[trigger] items[i]).text is Some
}

/// The texts of a metadata list of texts.
pub open spec fn item_texts(items: Seq<MetaValue>) -> Seq<Seq<char>> {
    items.map_values(|v: MetaValue| text_view(v.text)->0)
}

/// The list of texts stored under `key`.
pub fn string_array(g: &Gguf, key: &'static str) -> (r: Result<Vec<String>, Error>)
    ensures
        match r {
            Ok(list) => {
                &&& g.items(key@) matches Some(items)
                &&& all_text(items)
                &&& texts(list@) == item_texts(items)
            },
            Err(Error::MissingKey(k)) => k@ == key@ && g.items(key@) is None,
            Err(Error::BadKey(k)) => k@ == key@ && (g.items(key@) matches Some(items) && !all_text(
                items,
            )),
        },
{
    let items: &Vec<MetaValue> = match g.get_items(key) {
        Some(a) => a,
        None => return Err(Error::MissingKey(key)),
    };
    let mut list: Vec<String> = Vec::new();
    let mut i: usize = 0;
    while i < items.len()
        invariant
            i <= items@.len(),
            g.items(key@) == Some(items@),
            list@.len() == i,
            forall|j: int| 0 <= j < i ==> (#[trigger] items@[j]).text is Some,
            forall|j: int|
                0 <= j < i ==> (#[trigger] list@[j])@ == text_view(items@[j].text)->0,
        decreases items@.len() - i,
    {
        match &items[i].text {
            Some(s) => list.push(s.clone()),
            None => {
                assert(items@[i as int].text is None);
                return Err(Error::BadKey(key));
            },
        }
        i += 1;
    }
    assert(texts(list@) =~= item_texts(items@));
    Ok(list)
}

/// Numbers a list of strings.
fn number(list: &Vec<String>) -> (m: StringHashMap<u32>)
    ensures
        m@ == numbering(texts(list@)),
{
    let mut m: StringHashMap<u32> = StringHashMap::new();
    let mut i: usize = 0;
    assert(texts(list@).take(0) =~= Seq::empty());
    while i < list.len()
        invariant
            i <= list@.len(),
            m@ == numbering(texts(list@).take(i as int)),
        decreases list@.len() - i,
    {
        proof {
            let next = texts(list@).take(i + 1);
            assert(next.drop_last() =~= texts(list@).take(i as int));
            assert(next.last() == list@[i as int]@);
        }
        m.insert(list[i].clone(), i as u32);
        i += 1;
    }
    assert(texts(list@).take(i as int) =~= texts(list@));
    m
}

/// A vocabulary with its merges and special-token ids.
pub struct Tokenizer {
    tokens: Vec<String>,
    token_to_id: StringHashMap<u32>,
    merge_rank: StringHashMap<u32>,
    byte_to_char: Vec<char>,
    pub bos_id: Option<u32>,
    pub eos_id: Option<u32>,
    pub eot_id: Option<u32>,
    pre: Pre,
}

impl View for Tokenizer {
    type V = Bpe;

    closed spec fn view(&self) -> Bpe {
        Bpe {
            vocab: texts(self.tokens@),
            ranks: self.merge_rank@,
            pre: self.pre,
            bos: self.bos_id,
            eos: self.eos_id,
            eot: self.eot_id,
        }
    }
}

/// The key that holds the vocabulary.
pub open spec fn tokens_key() -> Seq<char> {
    "tokenizer.ggml.tokens"@
}

/// The key that holds the merge list.
pub open spec fn merges_key() -> Seq<char> {
    "tokenizer.ggml.merges"@
}

/// The cut that the header asks for.
pub open spec fn pre_of(g: &Gguf) -> Pre {
    let name = g.text("tokenizer.ggml.pre"@);
    if name == Some("glm4"@) {
        Pre::Glm4
    } else if name == Some("kimi-k2"@) {
        Pre::KimiK2
    } else {
        Pre::JoyAi
    }
}

/// The token id under `key`, cut to 32 bits.
pub open spec fn id_at(g: &Gguf, key: Seq<char>) -> Option<u32> {
    match g.unsigned(key) {
        Some(v) => Some(v as u32),
        None => None,
    }
}

fn id_key(g: &Gguf, key: &str) -> (r: Option<u32>)
    ensures
        r == id_at(g, key@),
{
    match g.get_unsigned(key) {
        Some(v) => Some(v as u32),
        None => None,
    }
}

/// Ids of a text's merged symbols, so far.
proof fn symbols_ids_step(sym: Seq<Seq<char>>, ids: Map<Seq<char>, u32>, i: int)
    requires
        0 <= i < sym.len(),
    ensures
        symbols_ids(sym.take(i + 1), ids) == symbols_ids(sym.take(i), ids) + symbol_ids(
            sym[i],
            ids,
        ),
{
    assert(sym.take(i + 1).drop_last() =~= sym.take(i));
}

proof fn char_ids_step(s: Seq<char>, ids: Map<Seq<char>, u32>, i: int)
    requires
        0 <= i < s.len(),
    ensures
        char_ids(s.take(i + 1), ids) == if ids.contains_key(seq![s[i]]) {
            char_ids(s.take(i), ids).push(ids[seq![s[i]]])
        } else {
            char_ids(s.take(i), ids)
        },
{
    assert(s.take(i + 1).drop_last() =~= s.take(i));
    assert(s.take(i + 1).last() == s[i]);
}

impl Tokenizer {
    #[verifier::type_invariant]
    spec fn inv(&self) -> bool {
        &&& self.token_to_id@ == numbering(texts(self.tokens@))
        &&& self.byte_to_char@.len() == 256
        &&& forall|b: u8| #[trigger] self.byte_to_char@[b as int] == byte_char(b)
    }

    /// Builds the tokenizer that the header describes. Fails on the
    /// vocabulary first, then on the merge list.
    pub fn from_gguf(g: &Gguf) -> (r: Result<Tokenizer, Error>)
        ensures
            match r {
                Ok(t) => {
                    &&& g.items(tokens_key()) matches Some(tokens)
                    &&& all_text(tokens)
                    &&& g.items(merges_key()) matches Some(merges)
                    &&& all_text(merges)
                    &&& t@.vocab == item_texts(tokens)
                    &&& t@.ranks == numbering(item_texts(merges))
                    &&& t@.pre == pre_of(g)
                    &&& g.text("tokenizer.ggml.pre"@) == Some("glm4"@) <==> t@.pre == Pre::Glm4
                    &&& g.text("tokenizer.ggml.pre"@) == Some("kimi-k2"@) <==> t@.pre == Pre::KimiK2
                    &&& t@.bos == id_at(g, "tokenizer.ggml.bos_token_id"@)
                    &&& t@.eos == id_at(g, "tokenizer.ggml.eos_token_id"@)
                    &&& t@.eot == id_at(g, "tokenizer.ggml.eot_token_id"@)
                },
                Err(e) => if g.items(tokens_key()) is None {
                    e matches Error::MissingKey(k) && k@ == tokens_key()
                } else if !all_text(g.items(tokens_key())->0) {
                    e matches Error::BadKey(k) && k@ == tokens_key()
                } else if g.items(merges_key()) is None {
                    e matches Error::MissingKey(k) && k@ == merges_key()
                } else {
                    &&& !all_text(g.items(merges_key())->0)
                    &&& e matches Error::BadKey(k)
                    &&& k@ == merges_key()
                },
            },
    {
        proof {
            reveal_strlit("glm4");
            reveal_strlit("kimi-k2");
            assert("glm4"@.len() != "kimi-k2"@.len());
        }
        let tokens: Vec<String> = match string_array(g, "tokenizer.ggml.tokens") {
            Ok(v) => v,
            Err(e) => return Err(e),
        };
        let merges: Vec<String> = match string_array(g, "tokenizer.ggml.merges") {
            Ok(v) => v,
            Err(e) => return Err(e),
        };
        let token_to_id: StringHashMap<u32> = number(&tokens);
        let merge_rank: StringHashMap<u32> = number(&merges);
        let pre: Pre = match g.get_text("tokenizer.ggml.pre") {
            Some(name) => if same_text(name, "glm4") {
                Pre::Glm4
            } else if same_text(name, "kimi-k2") {
                Pre::KimiK2
            } else {
                Pre::JoyAi
            },
            None => Pre::JoyAi,
        };
        Ok(
            Tokenizer {
                tokens,
                token_to_id,
                merge_rank,
                byte_to_char: byte_table(),
                bos_id: id_key(g, "tokenizer.ggml.bos_token_id"),
                eos_id: id_key(g, "tokenizer.ggml.eos_token_id"),
                eot_id: id_key(g, "tokenizer.ggml.eot_token_id"),
                pre,
            },
        )
    }

    /// The ids that begin a context, end one, and end a turn.
    pub(crate) fn special_ids(&self) -> (r: (Option<u32>, Option<u32>, Option<u32>))
        ensures
            r == (self@.bos, self@.eos, self@.eot),
    {
        (self.bos_id, self.eos_id, self.eot_id)
    }

    /// How many tokens there are.
    pub fn n_vocab(&self) -> (n: usize)
        ensures
            n == self@.vocab.len(),
    {
        self.tokens.len()
    }

    /// The raw text of token `id`.
    pub fn token_str(&self, id: u32) -> (r: Option<&str>)
        ensures
            match r {
                Some(s) => id < self@.vocab.len() && s@ == self@.vocab[id as int],
                None => id >= self@.vocab.len(),
            },
    {
        if (id as usize) < self.tokens.len() {
            Some(self.tokens[id as usize].as_str())
        } else {
            None
        }
    }

    /// The id of the token whose text is exactly `s`.
    pub fn find_token(&self, s: &str) -> (r: Option<u32>)
        ensures
            r == self@.find(s@),
    {
        proof {
            use_type_invariant(self);
        }
        match self.token_to_id.get(s) {
            Some(id) => Some(*id),
            None => None,
        }
    }

    /// Encodes plain text; nothing in it is taken for a special token.
    pub fn encode(&self, text: &str) -> (out: Vec<u32>)
        ensures
            out@ == self@.encode(text.spec_bytes()),
            self@.pre == Pre::JoyAi ==> out@ == self@.encode_pieces(words(text.spec_bytes())),
            self@.pre == Pre::Glm4 ==> out@ == self@.encode_pieces(glm4_pieces(text.spec_bytes())),
            self@.pre == Pre::KimiK2 ==> out@ == self@.encode_pieces(
                kimi_pieces(text.spec_bytes()),
            ),
    {
        let bytes: &[u8] = text.as_bytes();
        let pieces: Vec<&[u8]> = match self.pre {
            Pre::JoyAi => pretokenize(bytes),
            Pre::Glm4 => pretokenize_glm4(bytes),
            Pre::KimiK2 => pretokenize_kimi_k2(bytes),
        };
        let mut out: Vec<u32> = Vec::new();
        let mut i: usize = 0;
        let ghost all = contents(pieces@);
        assert(all.take(0) =~= Seq::empty());
        while i < pieces.len()
            invariant
                i <= pieces@.len(),
                all == contents(pieces@),
                out@ == self@.encode_pieces(all.take(i as int)),
            decreases pieces@.len() - i,
        {
            proof {
                assert(all.take(i + 1).drop_last() =~= all.take(i as int));
                assert(all.take(i + 1).last() == pieces@[i as int]@);
            }
            self.bpe_piece(pieces[i], &mut out);
            i += 1;
        }
        assert(all.take(i as int) =~= all);
        out
    }

    /// Decodes ids to bytes. Ids outside the vocabulary stand for nothing.
    pub fn decode(&self, ids: &[u32]) -> (out: Vec<u8>)
        ensures
            out@ == self@.decode(ids@),
    {
        let mut out: Vec<u8> = Vec::new();
        let mut i: usize = 0;
        assert(ids@.take(0) =~= Seq::empty());
        while i < ids.len()
            invariant
                i <= ids@.len(),
                out@ == self@.decode(ids@.take(i as int)),
            decreases ids@.len() - i,
        {
            let id: u32 = ids[i];
            proof {
                assert(ids@.take(i + 1).drop_last() =~= ids@.take(i as int));
                assert(ids@.take(i + 1).last() == id);
            }
            if (id as usize) < self.tokens.len() {
                push_token_bytes(&mut out, self.tokens[id as usize].as_str());
                assert(self@.vocab[id as int] == self.tokens@[id as int]@);
            } else {
                assert(out@ =~= self@.decode(ids@.take(i + 1)));
            }
            i += 1;
        }
        assert(ids@.take(i as int) =~= ids@);
        out
    }

    /// Appends the token ids of one piece.
    fn bpe_piece(&self, piece: &[u8], out: &mut Vec<u32>)
        ensures
            final(out)@ == old(out)@ + self@.encode_piece(piece@),
    {
        proof {
            use_type_invariant(self);
        }
        let ghost start = singles(byte_chars(piece@));
        let mut sym: Vec<String> = self.byte_symbols(piece);
        loop
            invariant
                merged(texts(sym@), self.merge_rank@) == merged(start, self.merge_rank@),
            ensures
                texts(sym@) == merged(start, self.merge_rank@),
            decreases sym@.len(),
        {
            let best: Option<usize> = self.best_merge(&sym);
            proof {
                best_pair_in_range(texts(sym@), self.merge_rank@, sym@.len() - 1);
            }
            let i: usize = match best {
                Some(i) => i,
                None => break,
            };
            let ghost before = texts(sym@);
            assert(i + 1 < sym.len());
            let right: String = sym.remove(i + 1);
            let mut left: String = sym[i].clone();
            left.append(right.as_str());
            sym[i] = left;
            assert(texts(sym@) =~= merge_at(before, i as int));
        }
        let mut k: usize = 0;
        let ghost done = texts(sym@);
        let ghost ids = self.token_to_id@;
        assert(done.take(0) =~= Seq::empty());
        assert(out@ =~= old(out)@ + symbols_ids(done.take(0), ids));
        while k < sym.len()
            invariant
                k <= sym@.len(),
                done == texts(sym@),
                ids == self.token_to_id@,
                out@ == old(out)@ + symbols_ids(done.take(k as int), ids),
            decreases sym@.len() - k,
        {
            proof {
                symbols_ids_step(done, ids, k as int);
            }
            self.push_symbol(sym[k].as_str(), out);
            assert(out@ =~= old(out)@ + symbols_ids(done.take(k + 1), ids));
            k += 1;
        }
        assert(done.take(k as int) =~= done);
    }

    /// One symbol per byte of `piece`.
    fn byte_symbols(&self, piece: &[u8]) -> (sym: Vec<String>)
        ensures
            texts(sym@) == singles(byte_chars(piece@)),
    {
        proof {
            use_type_invariant(self);
        }
        let mut sym: Vec<String> = Vec::new();
        let mut i: usize = 0;
        while i < piece.len()
            invariant
                i <= piece@.len(),
                sym@.len() == i,
                self.inv(),
                forall|j: int| 0 <= j < i ==> (#[trigger] sym@[j])@ == seq![byte_char(piece@[j])],
            decreases piece@.len() - i,
        {
            let mut s: String = String::new();
            let c: char = self.byte_to_char[piece[i] as usize];
            s.push(c);
            assert(s@ =~= seq![byte_char(piece@[i as int])]);
            sym.push(s);
            i += 1;
        }
        assert(texts(sym@) =~= singles(byte_chars(piece@)));
        sym
    }

    /// The position of the merge to make next, if any applies.
    fn best_merge(&self, sym: &Vec<String>) -> (r: Option<usize>)
        ensures
            match r {
                Some(i) => {
                    &&& i < sym@.len() - 1
                    &&& best_pair(texts(sym@), self.merge_rank@, sym@.len() - 1) matches Some((b, _))
                    &&& b == i
                },
                None => best_pair(texts(sym@), self.merge_rank@, sym@.len() - 1) is None,
            },
    {
        let mut best: Option<(usize, u32)> = None;
        if sym.len() == 0 {
            return None;
        }
        let mut i: usize = 0;
        while i < sym.len() - 1
            invariant
                sym@.len() > 0,
                i <= sym@.len() - 1,
                match best {
                    Some((b, r)) => b < i && best_pair(texts(sym@), self.merge_rank@, i as int)
                        == Some((b as int, r)),
                    None => best_pair(texts(sym@), self.merge_rank@, i as int) is None,
                },
            decreases sym@.len() - i,
        {
            let mut key: String = sym[i].clone();
            key.push(' ');
            key.append(sym[i + 1].as_str());
            assert(key@ == pair_key(texts(sym@)[i as int], texts(sym@)[i + 1]));
            match self.merge_rank.get(key.as_str()) {
                Some(rank) => {
                    let better: bool = match best {
                        Some((_, r)) => *rank < r,
                        None => true,
                    };
                    if better {
                        best = Some((i, *rank));
                    }
                },
                None => {},
            }
            i += 1;
        }
        match best {
            Some((b, _)) => Some(b),
            None => None,
        }
    }

    /// Appends the ids of one merged symbol.
    fn push_symbol(&self, s: &str, out: &mut Vec<u32>)
        ensures
            final(out)@ == old(out)@ + symbol_ids(s@, self.token_to_id@),
    {
        match self.token_to_id.get(s) {
            Some(id) => {
                out.push(*id);
                assert(out@ =~= old(out)@ + symbol_ids(s@, self.token_to_id@));
            },
            None => {
                let chars: Vec<char> = to_chars(s);
                let mut i: usize = 0;
                let ghost ids = self.token_to_id@;
                assert(s@.take(0) =~= Seq::empty());
                assert(out@ =~= old(out)@ + char_ids(s@.take(0), ids));
                while i < chars.len()
                    invariant
                        i <= chars@.len(),
                        chars@ == s@,
                        ids == self.token_to_id@,
                        out@ == old(out)@ + char_ids(s@.take(i as int), ids),
                    decreases chars@.len() - i,
                {
                    let mut one: String = String::new();
                    one.push(chars[i]);
                    proof {
                        assert(one@ =~= seq![s@[i as int]]);
                        char_ids_step(s@, ids, i as int);
                    }
                    match self.token_to_id.get(one.as_str()) {
                        Some(id) => {
                            out.push(*id);
                        },
                        None => {},
                    }
                    assert(out@ =~= old(out)@ + char_ids(s@.take(i + 1), ids));
                    i += 1;
                }
                assert(s@.take(i as int) =~= s@);
            },
        }
    }
}

/// Appends the bytes that token text stands for.
fn push_token_bytes(out: &mut Vec<u8>, text: &str)
    ensures
        final(out)@ == old(out)@ + token_bytes(text@),
{
    let chars: Vec<char> = to_chars(text);
    let mut i: usize = 0;
    assert(text@.take(0) =~= Seq::empty());
    assert(out@ =~= old(out)@ + token_bytes(text@.take(0)));
    while i < chars.len()
        invariant
            i <= chars@.len(),
            chars@ == text@,
            out@ == old(out)@ + token_bytes(text@.take(i as int)),
        decreases chars@.len() - i,
    {
        let c: char = chars[i];
        proof {
            assert(text@.take(i + 1).drop_last() =~= text@.take(i as int));
            assert(text@.take(i + 1).last() == c);
        }
        match gpt2_char_to_byte(c) {
            Some(b) => {
                out.push(b);
                assert(char_bytes(c) == seq![b]);
            },
            None => push_utf8(out, c),
        }
        assert(out@ =~= old(out)@ + token_bytes(text@.take(i + 1)));
        i += 1;
    }
    assert(text@.take(i as int) =~= text@);
}

} // verus!
