//! Byte-pair encoding as mathematics: what a vocabulary and a merge list make
//! of a piece of text, and back.

use vstd::prelude::*;

use crate::bytemap::{
    byte_char, byte_chars, token_bytes, token_bytes_concat, token_bytes_inverts,
};
use crate::bytes::joined;
use crate::glm4::{glm4_pieces, glm4_pieces_rejoin};
use crate::kimi::{kimi_pieces, kimi_pieces_rejoin};
use crate::pretokenize::{words, words_rejoin};

verus! {

/// How text is cut before merging.
#[derive(Debug, Clone, Copy, PartialEq, Eq, Structural)]
pub enum Pre {
    /// [`crate::pretokenize`].
    JoyAi,
    /// [`crate::glm4`].
    Glm4,
    /// [`crate::kimi`].
    KimiK2,
}

/// A tokenizer's data.
pub ghost struct Bpe {
    /// Token text by id.
    pub vocab: Seq<Seq<char>>,
    /// Priority of each merge, keyed "left right"; lower goes first.
    pub ranks: Map<Seq<char>, u32>,
    pub pre: Pre,
    /// Id of the token that begins a context.
    pub bos: Option<u32>,
    /// Id of the token that ends a context.
    pub eos: Option<u32>,
    /// Id of the token that ends a turn.
    pub eot: Option<u32>,
}

/// The number of each string in a list; of equal ones, the last counts.
pub open spec fn numbering(list: Seq<Seq<char>>) -> Map<Seq<char>, u32>
    decreases list.len(),
{
    if list.len() == 0 {
        Map::empty()
    } else {
        numbering(list.drop_last()).insert(list.last(), (list.len() - 1) as u32)
    }
}

/// The merge key of two neighbouring symbols.
pub open spec fn pair_key(a: Seq<char>, b: Seq<char>) -> Seq<char> {
    a.push(' ') + b
}

/// The priority of merging symbols `i` and `i + 1`, if that is a merge.
pub open spec fn pair_rank(sym: Seq<Seq<char>>, ranks: Map<Seq<char>, u32>, i: int) -> Option<u32> {
    let key = pair_key(sym[i], sym[i + 1]);
    if ranks.contains_key(key) {
        Some(ranks[key])
    } else {
        None
    }
}

/// Of the first `n` neighbouring pairs, the one to merge: the lowest rank,
/// the leftmost of equal ones.
pub open spec fn best_pair(sym: Seq<Seq<char>>, ranks: Map<Seq<char>, u32>, n: int) -> Option<
    (int, u32),
>
    decreases n,
{
    if n <= 0 {
        None
    } else {
        let before = best_pair(sym, ranks, n - 1);
        match (before, pair_rank(sym, ranks, n - 1)) {
            (_, None) => before,
            (None, Some(r)) => Some((n - 1, r)),
            (Some((i, b)), Some(r)) => if r < b {
                Some((n - 1, r))
            } else {
                before
            },
        }
    }
}

/// `sym` with symbols `i` and `i + 1` made one.
pub open spec fn merge_at(sym: Seq<Seq<char>>, i: int) -> Seq<Seq<char>> {
    sym.remove(i + 1).update(i, sym[i] + sym[i + 1])
}

/// What is left of `sym` when no merge applies any more.
pub open spec fn merged(sym: Seq<Seq<char>>, ranks: Map<Seq<char>, u32>) -> Seq<Seq<char>>
    decreases sym.len(),
{
    match best_pair(sym, ranks, sym.len() - 1) {
        Some((i, _)) => if 0 <= i < sym.len() - 1 {
            merged(merge_at(sym, i), ranks)
        } else {
            sym
        },
        None => sym,
    }
}

/// Ids of the characters of `s` that are tokens themselves.
pub open spec fn char_ids(s: Seq<char>, ids: Map<Seq<char>, u32>) -> Seq<u32>
    decreases s.len(),
{
    if s.len() == 0 {
        Seq::empty()
    } else {
        let before = char_ids(s.drop_last(), ids);
        if ids.contains_key(seq![s.last()]) {
            before.push(ids[seq![s.last()]])
        } else {
            before
        }
    }
}

/// Ids of one merged symbol: its own, or those of its characters when it is
/// not a token.
pub open spec fn symbol_ids(s: Seq<char>, ids: Map<Seq<char>, u32>) -> Seq<u32> {
    if ids.contains_key(s) {
        seq![ids[s]]
    } else {
        char_ids(s, ids)
    }
}

/// Ids of a list of symbols.
pub open spec fn symbols_ids(sym: Seq<Seq<char>>, ids: Map<Seq<char>, u32>) -> Seq<u32>
    decreases sym.len(),
{
    if sym.len() == 0 {
        Seq::empty()
    } else {
        symbols_ids(sym.drop_last(), ids) + symbol_ids(sym.last(), ids)
    }
}

/// One symbol per character.
pub open spec fn singles(text: Seq<char>) -> Seq<Seq<char>> {
    text.map_values(|c: char| seq![c])
}

/// Symbols put back together.
pub open spec fn unsplit(sym: Seq<Seq<char>>) -> Seq<char>
    decreases sym.len(),
{
    if sym.len() == 0 {
        Seq::empty()
    } else {
        unsplit(sym.drop_last()) + sym.last()
    }
}

impl Bpe {
    /// The id of each token text.
    pub open spec fn ids(self) -> Map<Seq<char>, u32> {
        numbering(self.vocab)
    }

    /// The id of the token whose text is exactly `s`.
    pub open spec fn find(self, s: Seq<char>) -> Option<u32> {
        if self.ids().contains_key(s) {
            Some(self.ids()[s])
        } else {
            None
        }
    }

    /// The pieces that merging happens inside of.
    pub open spec fn pieces(self, text: Seq<u8>) -> Seq<Seq<u8>> {
        match self.pre {
            Pre::JoyAi => words(text),
            Pre::Glm4 => glm4_pieces(text),
            Pre::KimiK2 => kimi_pieces(text),
        }
    }

    /// Token ids of one piece.
    pub open spec fn encode_piece(self, piece: Seq<u8>) -> Seq<u32> {
        symbols_ids(merged(singles(byte_chars(piece)), self.ranks), self.ids())
    }

    /// Token ids of a list of pieces.
    pub open spec fn encode_pieces(self, pieces: Seq<Seq<u8>>) -> Seq<u32>
        decreases pieces.len(),
    {
        if pieces.len() == 0 {
            Seq::empty()
        } else {
            self.encode_pieces(pieces.drop_last()) + self.encode_piece(pieces.last())
        }
    }

    /// Token ids of `text`.
    pub open spec fn encode(self, text: Seq<u8>) -> Seq<u32> {
        self.encode_pieces(self.pieces(text))
    }

    /// The bytes one id stands for; none when it is outside the vocabulary.
    pub open spec fn decode_one(self, id: u32) -> Seq<u8> {
        if id < self.vocab.len() {
            token_bytes(self.vocab[id as int])
        } else {
            Seq::empty()
        }
    }

    /// The bytes that `ids` stand for.
    pub open spec fn decode(self, ids: Seq<u32>) -> Seq<u8>
        decreases ids.len(),
    {
        if ids.len() == 0 {
            Seq::empty()
        } else {
            self.decode(ids.drop_last()) + self.decode_one(ids.last())
        }
    }

    /// Whether every byte has a token of its own and ids fit their type.
    pub open spec fn covers_bytes(self) -> bool {
        &&& self.vocab.len() <= 0x1_0000_0000
        &&& forall|b: u8| #[trigger] self.ids().contains_key(seq![byte_char(b)])
    }
}

/// A chosen pair is one of those looked at.
pub proof fn best_pair_in_range(sym: Seq<Seq<char>>, ranks: Map<Seq<char>, u32>, n: int)
    ensures
        best_pair(sym, ranks, n) matches Some((i, _)) ==> 0 <= i < n,
    decreases n,
{
    if n > 0 {
        best_pair_in_range(sym, ranks, n - 1);
    }
}

/// The merge that is chosen has the lowest rank, and is the leftmost with it;
/// when none is chosen, no pair is a merge.
pub proof fn best_pair_is_best(sym: Seq<Seq<char>>, ranks: Map<Seq<char>, u32>, n: int)
    ensures
        match best_pair(sym, ranks, n) {
            Some((i, r)) => {
                &&& 0 <= i < n
                &&& pair_rank(sym, ranks, i) == Some(r)
                &&& forall|j: int|
                    0 <= j < n ==> (#[trigger] pair_rank(sym, ranks, j) matches Some(q) ==> r < q
                        || r == q && i <= j)
            },
            None => forall|j: int| 0 <= j < n ==> #[trigger] pair_rank(sym, ranks, j) is None,
        },
    decreases n,
{
    if n > 0 {
        best_pair_is_best(sym, ranks, n - 1);
    }
}

/// A string's number points back at it.
pub proof fn numbering_points_back(list: Seq<Seq<char>>, s: Seq<char>)
    requires
        list.len() <= 0x1_0000_0000,
        numbering(list).contains_key(s),
    ensures
        numbering(list)[s] < list.len(),
        list[numbering(list)[s] as int] == s,
    decreases list.len(),
{
    if list.len() > 0 && s != list.last() {
        numbering_points_back(list.drop_last(), s);
    }
}

/// Every string of the list has a number.
pub proof fn numbering_total(list: Seq<Seq<char>>, i: int)
    requires
        0 <= i < list.len(),
    ensures
        numbering(list).contains_key(list[i]),
    decreases list.len(),
{
    if i < list.len() - 1 {
        assert(list.drop_last()[i] == list[i]);
        numbering_total(list.drop_last(), i);
    }
}

spec fn stands_for_byte(c: char) -> bool {
    exists|b: u8| byte_char(b) == c
}

proof fn unsplit_concat(a: Seq<Seq<char>>, b: Seq<Seq<char>>)
    ensures
        unsplit(a + b) == unsplit(a) + unsplit(b),
    decreases b.len(),
{
    if b.len() == 0 {
        assert(a + b =~= a);
        assert(unsplit(a) + unsplit(b) =~= unsplit(a));
    } else {
        assert((a + b).drop_last() =~= a + b.drop_last());
        unsplit_concat(a, b.drop_last());
        assert(unsplit(a + b) =~= unsplit(a) + unsplit(b));
    }
}

proof fn unsplit_merge(sym: Seq<Seq<char>>, i: int)
    requires
        0 <= i < sym.len() - 1,
    ensures
        unsplit(merge_at(sym, i)) == unsplit(sym),
{
    let left = sym.take(i);
    let right = sym.skip(i + 2);
    let two = seq![sym[i], sym[i + 1]];
    let one = seq![sym[i] + sym[i + 1]];
    assert(sym =~= left + two + right);
    assert(merge_at(sym, i) =~= left + one + right);
    unsplit_concat(left + two, right);
    unsplit_concat(left, two);
    unsplit_concat(left + one, right);
    unsplit_concat(left, one);
    assert(two.drop_last() =~= seq![sym[i]]);
    assert(one.drop_last() =~= Seq::empty());
    reveal_with_fuel(unsplit, 3);
    assert(seq![sym[i]].drop_last() =~= Seq::empty());
    assert(unsplit(two) =~= sym[i] + sym[i + 1]);
    assert(unsplit(one) =~= sym[i] + sym[i + 1]);
}

/// Merging regroups the text and changes nothing of it.
pub proof fn merged_unsplit(sym: Seq<Seq<char>>, ranks: Map<Seq<char>, u32>)
    ensures
        unsplit(merged(sym, ranks)) == unsplit(sym),
    decreases sym.len(),
{
    best_pair_in_range(sym, ranks, sym.len() - 1);
    match best_pair(sym, ranks, sym.len() - 1) {
        Some((i, _)) => {
            merged_unsplit(merge_at(sym, i), ranks);
            unsplit_merge(sym, i);
        },
        None => {},
    }
}

/// Where merging stops, no neighbouring pair is a merge.
pub proof fn merged_is_final(sym: Seq<Seq<char>>, ranks: Map<Seq<char>, u32>)
    ensures
        forall|j: int|
            0 <= j < merged(sym, ranks).len() - 1 ==> #[trigger] pair_rank(
                merged(sym, ranks),
                ranks,
                j,
            ) is None,
    decreases sym.len(),
{
    best_pair_is_best(sym, ranks, sym.len() - 1);
    match best_pair(sym, ranks, sym.len() - 1) {
        Some((i, _)) => {
            merged_is_final(merge_at(sym, i), ranks);
        },
        None => {},
    }
}

proof fn unsplit_singles(text: Seq<char>)
    ensures
        unsplit(singles(text)) == text,
    decreases text.len(),
{
    if text.len() > 0 {
        assert(singles(text).drop_last() =~= singles(text.drop_last()));
        unsplit_singles(text.drop_last());
        assert(unsplit(singles(text)) =~= text);
    } else {
        assert(unsplit(singles(text)) =~= text);
    }
}

impl Bpe {
    /// Decoding a list of ids is decoding its parts one after the other.
    pub proof fn decode_concat(self, a: Seq<u32>, b: Seq<u32>)
        ensures
            self.decode(a + b) == self.decode(a) + self.decode(b),
        decreases b.len(),
    {
        if b.len() == 0 {
            assert(a + b =~= a);
            assert(self.decode(a) + self.decode(b) =~= self.decode(a));
        } else {
            assert((a + b).drop_last() =~= a + b.drop_last());
            self.decode_concat(a, b.drop_last());
            assert(self.decode(a + b) =~= self.decode(a) + self.decode(b));
        }
    }

    proof fn decode_single(self, s: Seq<char>)
        requires
            self.vocab.len() <= 0x1_0000_0000,
            self.ids().contains_key(s),
        ensures
            self.decode(seq![self.ids()[s]]) == token_bytes(s),
    {
        numbering_points_back(self.vocab, s);
        let one = seq![self.ids()[s]];
        assert(one.drop_last() =~= Seq::empty());
        reveal_with_fuel(Bpe::decode, 2);
        assert(self.decode(one) =~= token_bytes(s));
    }

    proof fn decode_chars(self, s: Seq<char>)
        requires
            self.covers_bytes(),
            forall|i: int| 0 <= i < s.len() ==> stands_for_byte(#[trigger] s[i]),
        ensures
            self.decode(char_ids(s, self.ids())) == token_bytes(s),
        decreases s.len(),
    {
        if s.len() > 0 {
            let init = s.drop_last();
            assert forall|i: int| 0 <= i < init.len() implies stands_for_byte(#[trigger] init[i]) by {
                assert(init[i] == s[i]);
            }
            self.decode_chars(init);
            let last = s[s.len() - 1];
            let b = choose|b: u8| byte_char(b) == last;
            assert(self.ids().contains_key(seq![byte_char(b)]));
            let one = seq![s.last()];
            self.decode_single(one);
            let before = char_ids(init, self.ids());
            assert(char_ids(s, self.ids()) =~= before + seq![self.ids()[one]]);
            self.decode_concat(before, seq![self.ids()[one]]);
            token_bytes_concat(init, one);
            assert(init + one =~= s);
        }
    }

    proof fn decode_symbols(self, sym: Seq<Seq<char>>, bytes: Seq<u8>)
        requires
            self.covers_bytes(),
            unsplit(sym) == byte_chars(bytes),
        ensures
            self.decode(symbols_ids(sym, self.ids())) == bytes,
        decreases sym.len(),
    {
        if sym.len() == 0 {
            assert(byte_chars(bytes).len() == 0);
            assert(self.decode(symbols_ids(sym, self.ids())) =~= bytes);
        } else {
            let last = sym.last();
            let init = sym.drop_last();
            let cut = bytes.len() - last.len();
            assert(byte_chars(bytes).len() == bytes.len());
            assert(unsplit(sym).len() == unsplit(init).len() + last.len());
            let head = bytes.take(cut);
            let tail = bytes.skip(cut);
            assert(unsplit(init) =~= unsplit(sym).take(cut));
            assert(last =~= unsplit(sym).skip(cut));
            assert(byte_chars(head) =~= byte_chars(bytes).take(cut));
            assert(byte_chars(tail) =~= byte_chars(bytes).skip(cut));
            self.decode_symbols(init, head);
            token_bytes_inverts(tail);
            if self.ids().contains_key(last) {
                self.decode_single(last);
            } else {
                assert forall|i: int| 0 <= i < last.len() implies stands_for_byte(
                    #[trigger] last[i],
                ) by {
                    assert(last[i] == byte_char(tail[i]));
                }
                self.decode_chars(last);
            }
            self.decode_concat(symbols_ids(init, self.ids()), symbol_ids(last, self.ids()));
            assert(head + tail =~= bytes);
        }
    }

    /// Decoding the ids of a piece gives the piece back.
    pub proof fn decode_encode_piece(self, piece: Seq<u8>)
        requires
            self.covers_bytes(),
        ensures
            self.decode(self.encode_piece(piece)) == piece,
    {
        let sym = singles(byte_chars(piece));
        unsplit_singles(byte_chars(piece));
        merged_unsplit(sym, self.ranks);
        self.decode_symbols(merged(sym, self.ranks), piece);
    }

    proof fn decode_encode_pieces(self, pieces: Seq<Seq<u8>>)
        requires
            self.covers_bytes(),
        ensures
            self.decode(self.encode_pieces(pieces)) == joined(pieces),
        decreases pieces.len(),
    {
        if pieces.len() > 0 {
            let init = pieces.drop_last();
            self.decode_encode_pieces(init);
            self.decode_encode_piece(pieces.last());
            self.decode_concat(self.encode_pieces(init), self.encode_piece(pieces.last()));
            joined_last(pieces);
        }
    }

    /// Text encoded and decoded again is the text, for a vocabulary that has
    /// a token for every byte.
    pub proof fn decode_inverts_encode(self, text: Seq<u8>)
        requires
            self.covers_bytes(),
        ensures
            self.decode(self.encode(text)) == text,
    {
        self.decode_encode_pieces(self.pieces(text));
        match self.pre {
            Pre::JoyAi => words_rejoin(text),
            Pre::Glm4 => glm4_pieces_rejoin(text),
            Pre::KimiK2 => kimi_pieces_rejoin(text),
        }
    }
}

proof fn joined_last(pieces: Seq<Seq<u8>>)
    requires
        pieces.len() > 0,
    ensures
        joined(pieces) == joined(pieces.drop_last()) + pieces.last(),
    decreases pieces.len(),
{
    if pieces.len() == 1 {
        reveal_with_fuel(joined, 2);
        assert(pieces.drop_first() =~= Seq::empty());
        assert(joined(pieces) =~= joined(pieces.drop_last()) + pieces.last());
    } else {
        joined_last(pieces.drop_first());
        assert(pieces.drop_first().drop_last() =~= pieces.drop_last().drop_first());
        assert(joined(pieces) =~= joined(pieces.drop_last()) + pieces.last());
    }
}

/// Of equal strings in a list, the last gives the number; a string that is not in
/// the list has none.
pub proof fn numbering_takes_last(list: Seq<Seq<char>>, i: int)
    requires
        list.len() <= 0x1_0000_0000,
        0 <= i < list.len(),
        forall|j: int| i < j < list.len() ==> #[trigger] list[j] != list[i],
    ensures
        numbering(list).contains_key(list[i]),
        numbering(list)[list[i]] == i,
    decreases list.len(),
{
    if i < list.len() - 1 {
        let init = list.drop_last();
        assert forall|j: int| i < j < init.len() implies #[trigger] init[j] != init[i] by {
            assert(list[j] != list[i]);
        }
        numbering_takes_last(init, i);
        assert(list[list.len() - 1] != list[i]);
    }
}

/// A string that is not in a list has no number.
pub proof fn numbering_only_of_list(list: Seq<Seq<char>>, s: Seq<char>)
    requires
        forall|j: int| 0 <= j < list.len() ==> #[trigger] list[j] != s,
    ensures
        !numbering(list).contains_key(s),
    decreases list.len(),
{
    if list.len() > 0 {
        assert forall|j: int| 0 <= j < list.drop_last().len() implies #[trigger] list.drop_last()[j]
            != s by {
            assert(list[j] != s);
        }
        numbering_only_of_list(list.drop_last(), s);
        assert(list[list.len() - 1] != s);
    }
}

/// One merge: where the pair of symbols `i` and `i + 1`, written with a space
/// between, is in the merge list, with a rank that none before it reaches and none
/// behind it is below, those two become one symbol and merging goes on with the
/// rest as it was. So the order of merges is that of their ranks, and from left
/// to right among equal ones.
pub proof fn lowest_rank_merges_first(sym: Seq<Seq<char>>, ranks: Map<Seq<char>, u32>, i: int)
    requires
        0 <= i < sym.len() - 1,
        ranks.contains_key(sym[i] + seq![' '] + sym[i + 1]),
        ({
            let r = ranks[sym[i] + seq![' '] + sym[i + 1]];
            forall|j: int, key: Seq<char>|
                0 <= j < sym.len() - 1 && key == sym[j] + seq![' '] + #[trigger] sym[j + 1]
                    && #[trigger] ranks.contains_key(key) ==> (if j < i {
                    ranks[key] > r
                } else {
                    ranks[key] >= r
                })
        }),
    ensures
        merged(sym, ranks) == merged(
            sym.take(i) + seq![sym[i] + sym[i + 1]] + sym.skip(i + 2),
            ranks,
        ),
{
    let n = sym.len() - 1;
    let r = ranks[sym[i] + seq![' '] + sym[i + 1]];
    assert forall|j: int| 0 <= j < n implies #[trigger] pair_key(sym[j], sym[j + 1]) == sym[j]
        + seq![' '] + sym[j + 1] by {
        assert(pair_key(sym[j], sym[j + 1]) =~= sym[j] + seq![' '] + sym[j + 1]);
    }
    best_pair_is_best(sym, ranks, n);
    assert(pair_key(sym[i], sym[i + 1]) == sym[i] + seq![' '] + sym[i + 1]);
    assert(pair_rank(sym, ranks, i) == Some(r));
    match best_pair(sym, ranks, n) {
        Some((b, q)) => {
            assert(pair_key(sym[b], sym[b + 1]) == sym[b] + seq![' '] + sym[b + 1]);
            assert(ranks.contains_key(pair_key(sym[b], sym[b + 1])));
            assert(b == i);
        },
        None => {},
    }
    assert(merge_at(sym, i) =~= sym.take(i) + seq![sym[i] + sym[i + 1]] + sym.skip(i + 2));
}

/// Where no neighbouring pair is in the merge list, nothing is merged.
pub proof fn no_merge_left(sym: Seq<Seq<char>>, ranks: Map<Seq<char>, u32>)
    requires
        forall|j: int, key: Seq<char>|
            0 <= j < sym.len() - 1 && key == sym[j] + seq![' '] + #[trigger] sym[j + 1]
                ==> !#[trigger] ranks.contains_key(key),
    ensures
        merged(sym, ranks) == sym,
{
    let n = sym.len() - 1;
    best_pair_is_best(sym, ranks, n);
    match best_pair(sym, ranks, n) {
        Some((b, q)) => {
            assert(pair_key(sym[b], sym[b + 1]) =~= sym[b] + seq![' '] + sym[b + 1]);
            assert(ranks.contains_key(pair_key(sym[b], sym[b + 1])));
        },
        None => {},
    }
}

impl Bpe {
    /// A piece whose symbols are all tokens once merging is done is encoded as
    /// these tokens, one for each symbol and in their order.
    pub proof fn tokens_of_symbols(self, piece: Seq<u8>, sym: Seq<Seq<char>>)
        requires
            self.vocab.len() <= 0x1_0000_0000,
            sym == merged(
                Seq::new(piece.len(), |i: int| seq![byte_char(piece[i])]),
                self.ranks,
            ),
            forall|i: int| 0 <= i < sym.len() ==> self.vocab.contains(#[trigger] sym[i]),
        ensures
            self.encode_piece(piece).len() == sym.len(),
            forall|i: int|
                0 <= i < sym.len() ==> {
                    let id = #[trigger] self.encode_piece(piece)[i];
                    id < self.vocab.len() && self.vocab[id as int] == sym[i]
                },
    {
        assert(singles(byte_chars(piece)) =~= Seq::new(
            piece.len(),
            |i: int| seq![byte_char(piece[i])],
        ));
        assert forall|i: int| 0 <= i < sym.len() implies self.ids().contains_key(
            #[trigger] sym[i],
        ) by {
            let k = self.vocab.index_of(sym[i]);
            assert(self.vocab.contains(sym[i]));
            assert(0 <= k < self.vocab.len() && self.vocab[k] == sym[i]);
            numbering_total(self.vocab, k);
        }
        ids_of_tokens(sym, self.ids());
        assert forall|i: int| 0 <= i < sym.len() implies {
            let id = #[trigger] self.encode_piece(piece)[i];
            id < self.vocab.len() && self.vocab[id as int] == sym[i]
        } by {
            assert(self.ids().contains_key(sym[i]));
            numbering_points_back(self.vocab, sym[i]);
        }
    }

    /// A text is encoded piece by piece.
    pub proof fn pieces_encode_apart(self, a: Seq<Seq<u8>>, b: Seq<Seq<u8>>)
        ensures
            self.encode_pieces(a + b) == self.encode_pieces(a) + self.encode_pieces(b),
            a.len() == 1 ==> self.encode_pieces(a) == self.encode_piece(a[0]),
        decreases b.len(),
    {
        if a.len() == 1 {
            assert(a.drop_last() =~= Seq::empty());
            reveal_with_fuel(Bpe::encode_pieces, 2);
            assert(self.encode_pieces(a) =~= self.encode_piece(a[0]));
        }
        if b.len() == 0 {
            assert(a + b =~= a);
            assert(self.encode_pieces(a) + self.encode_pieces(b) =~= self.encode_pieces(a));
        } else {
            assert((a + b).drop_last() =~= a + b.drop_last());
            self.pieces_encode_apart(a, b.drop_last());
            assert(self.encode_pieces(a + b) =~= self.encode_pieces(a) + self.encode_pieces(b));
        }
    }
}

proof fn ids_of_tokens(sym: Seq<Seq<char>>, ids: Map<Seq<char>, u32>)
    requires
        forall|i: int| 0 <= i < sym.len() ==> ids.contains_key(#[trigger] sym[i]),
    ensures
        symbols_ids(sym, ids) == Seq::new(sym.len(), |i: int| ids[sym[i]]),
    decreases sym.len(),
{
    if sym.len() > 0 {
        let init = sym.drop_last();
        assert forall|i: int| 0 <= i < init.len() implies ids.contains_key(#[trigger] init[i]) by {
            assert(init[i] == sym[i]);
        }
        ids_of_tokens(init, ids);
        assert(ids.contains_key(sym[sym.len() - 1]));
    }
    assert(symbols_ids(sym, ids) =~= Seq::new(sym.len(), |i: int| ids[sym[i]]));
}

} // verus!
