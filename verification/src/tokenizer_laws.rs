//! What holds of encoding and decoding together.
use vstd::prelude::*;
use vstd::utf8::{decode_utf8, encode_utf8, valid_utf8};

use crate::gguf::texts;
use crate::tokenizer::{
    alphabet_is_injective, char_bytes, id_map, is_next, join_all, join_at, joined, pair_rank,
    part_id, piece_ids, pieces_ids, rule, single_parts, stands_at, successive, token_bytes,
    unicode_of, Tokenizer,
};

verus! {

/// Concatenation of parts distributes over lists of parts.
proof fn joined_concat(a: Seq<Seq<char>>, b: Seq<Seq<char>>)
    ensures
        joined(a + b) == joined(a) + joined(b),
    decreases b.len(),
{
    if b.len() == 0 {
        assert(a + b =~= a);
        assert(joined(a) + joined(b) =~= joined(a));
    } else {
        assert((a + b).drop_last() =~= a + b.drop_last());
        joined_concat(a, b.drop_last());
        assert(joined(a) + (joined(b.drop_last()) + b.last()) =~= joined(a) + joined(b.drop_last())
            + b.last());
    }
}

/// Joining two neighbours keeps the text.
proof fn join_at_keeps_text(parts: Seq<Seq<char>>, i: int)
    requires
        0 <= i < parts.len() - 1,
    ensures
        joined(join_at(parts, i)) == joined(parts),
{
    let a = parts.take(i);
    let b = parts.skip(i + 2);
    let pair = seq![parts[i], parts[i + 1]];
    let one = seq![parts[i] + parts[i + 1]];
    assert(join_at(parts, i) =~= a + one + b);
    assert(parts =~= a + pair + b);
    joined_concat(a + one, b);
    joined_concat(a, one);
    joined_concat(a + pair, b);
    joined_concat(a, pair);
    joined_one(parts[i] + parts[i + 1]);
    joined_one(parts[i]);
    assert(pair.drop_last() =~= seq![parts[i]]);
}

proof fn joined_one(part: Seq<char>)
    ensures
        joined(seq![part]) == part,
{
    reveal_with_fuel(joined, 2);
    assert(seq![part].drop_last() =~= Seq::empty());
    assert(Seq::<char>::empty() + part =~= part);
}

/// Merging loses and adds nothing: the merged parts spell the same text.
pub proof fn merging_keeps_the_text(ranks: Map<Seq<char>, u32>, parts: Seq<Seq<char>>)
    ensures
        joined(join_all(ranks, parts)) == joined(parts),
    decreases parts.len(),
{
    if exists|i: int| is_next(ranks, parts, i) {
        let i = choose|i: int| is_next(ranks, parts, i);
        join_at_keeps_text(parts, i);
        merging_keeps_the_text(ranks, join_at(parts, i));
    }
}

/// Merging goes on until no rule applies.
pub proof fn merging_is_complete(ranks: Map<Seq<char>, u32>, parts: Seq<Seq<char>>, i: int)
    ensures
        !is_next(ranks, join_all(ranks, parts), i),
    decreases parts.len(),
{
    if exists|j: int| is_next(ranks, parts, j) {
        let j = choose|j: int| is_next(ranks, parts, j);
        merging_is_complete(ranks, join_at(parts, j), i);
    }
}

/// Merging a merged list changes nothing.
pub proof fn merging_twice_is_merging_once(ranks: Map<Seq<char>, u32>, parts: Seq<Seq<char>>)
    ensures
        join_all(ranks, join_all(ranks, parts)) == join_all(ranks, parts),
{
    let merged = join_all(ranks, parts);
    if exists|j: int| is_next(ranks, merged, j) {
        merging_is_complete(ranks, parts, choose|j: int| is_next(ranks, merged, j));
    }
}

/// The text of a rule determines the two parts that it joins, as long as the left one holds
/// no space.
pub proof fn rules_are_unambiguous(l1: Seq<char>, r1: Seq<char>, l2: Seq<char>, r2: Seq<char>)
    requires
        !l1.contains(' '),
        !l2.contains(' '),
        rule(l1, r1) == rule(l2, r2),
    ensures
        l1 == l2,
        r1 == r2,
{
    let a = rule(l1, r1);
    let b = rule(l2, r2);
    if l1.len() < l2.len() {
        assert(a[l1.len() as int] == ' ');
        assert(b[l1.len() as int] == l2[l1.len() as int]);
        assert(l2.contains(' '));
    } else if l2.len() < l1.len() {
        assert(b[l2.len() as int] == ' ');
        assert(a[l2.len() as int] == l1[l2.len() as int]);
        assert(l1.contains(' '));
    } else {
        assert forall|i: int| 0 <= i < l1.len() implies l1[i] == l2[i] by {
            assert(a[i] == l1[i] && b[i] == l2[i]);
        }
        assert(l1 =~= l2);
        assert(a.len() == b.len());
        assert forall|i: int| 0 <= i < r1.len() implies r1[i] == r2[i] by {
            assert(a[l1.len() + 1 + i] == r1[i] && b[l1.len() + 1 + i] == r2[i]);
        }
        assert(r1 =~= r2);
    }
}

/// The parts of a piece never hold a space, neither before nor after merging.
pub proof fn parts_hold_no_space(ranks: Map<Seq<char>, u32>, bytes: Seq<u8>)
    ensures
        spaceless(single_parts(bytes)),
        spaceless(join_all(ranks, single_parts(bytes))),
{
    let parts = single_parts(bytes);
    assert forall|i: int| 0 <= i < parts.len() implies !(#[trigger] parts[i]).contains(' ') by {
        assert(unicode_of(bytes[i]) as u32 != ' ' as u32);
    }
    join_all_spaceless(ranks, parts);
}

/// No part holds a space.
pub open spec fn spaceless(parts: Seq<Seq<char>>) -> bool {
    forall|i: int| 0 <= i < parts.len() ==> !(#[trigger] parts[i]).contains(' ')
}

proof fn join_all_spaceless(ranks: Map<Seq<char>, u32>, parts: Seq<Seq<char>>)
    requires
        spaceless(parts),
    ensures
        spaceless(join_all(ranks, parts)),
    decreases parts.len(),
{
    if exists|i: int| is_next(ranks, parts, i) {
        let i = choose|i: int| is_next(ranks, parts, i);
        join_at_spaceless(parts, i);
        join_all_spaceless(ranks, join_at(parts, i));
    }
}

proof fn join_at_spaceless(parts: Seq<Seq<char>>, i: int)
    requires
        spaceless(parts),
        0 <= i < parts.len() - 1,
    ensures
        spaceless(join_at(parts, i)),
{
    let after = join_at(parts, i);
    assert forall|k: int| 0 <= k < after.len() implies !(#[trigger] after[k]).contains(' ') by {
        if k < i {
            assert(after[k] == parts[k]);
        } else if k > i {
            assert(after[k] == parts[k + 1]);
        } else {
            assert(!parts[i].contains(' ') && !parts[i + 1].contains(' '));
            assert(after[i] == parts[i] + parts[i + 1]);
            if after[i].contains(' ') {
                let at = choose|at: int| 0 <= at < after[i].len() && after[i][at] == ' ';
                if at < parts[i].len() {
                    assert(parts[i][at] == ' ');
                } else {
                    assert(parts[i + 1][at - parts[i].len()] == ' ');
                }
            }
        }
    }
}

/// A character of the alphabet decodes to the byte that it stands for.
proof fn alphabet_decodes(b: u8)
    ensures
        char_bytes(unicode_of(b)) == seq![b],
{
    let c = unicode_of(b);
    alphabet_is_injective(b, choose|x: u8| #[trigger] unicode_of(x) == c);
}

proof fn token_bytes_concat(a: Seq<char>, b: Seq<char>)
    ensures
        token_bytes(a + b) == token_bytes(a) + token_bytes(b),
    decreases b.len(),
{
    if b.len() == 0 {
        assert(a + b =~= a);
        assert(token_bytes(a) + token_bytes(b) =~= token_bytes(a));
    } else {
        assert((a + b).drop_last() =~= a + b.drop_last());
        token_bytes_concat(a, b.drop_last());
        assert(token_bytes(a) + (token_bytes(b.drop_last()) + char_bytes(b.last()))
            =~= token_bytes(a) + token_bytes(b.drop_last()) + char_bytes(b.last()));
    }
}

/// Bytes written in the alphabet decode to themselves.
pub proof fn alphabet_round_trip(bytes: Seq<u8>)
    ensures
        token_bytes(joined(single_parts(bytes))) == bytes,
    decreases bytes.len(),
{
    let parts = single_parts(bytes);
    if bytes.len() > 0 {
        let rest = bytes.drop_last();
        assert(parts.drop_last() =~= single_parts(rest));
        alphabet_round_trip(rest);
        let last = seq![unicode_of(bytes.last())];
        assert(parts.last() == last);
        token_bytes_concat(joined(single_parts(rest)), last);
        alphabet_decodes(bytes.last());
        assert(token_bytes(last) == seq![bytes.last()]) by {
            reveal_with_fuel(token_bytes, 2);
            assert(last.drop_last() =~= Seq::empty());
            assert(Seq::<u8>::empty() + char_bytes(last.last()) =~= char_bytes(last.last()));
        }
        assert(rest + seq![bytes.last()] =~= bytes);
    } else {
        assert(joined(parts) =~= Seq::empty());
        assert(token_bytes(joined(parts)) =~= bytes);
    }
}

/// Looking up a vocabulary entry gives the number of an equal entry.
pub proof fn ids_name_their_entries(vocab: Seq<Seq<char>>, s: Seq<char>)
    requires
        vocab.len() <= 0x1_0000_0000,
    ensures
        id_map(vocab).contains_key(s) <==> vocab.contains(s),
        id_map(vocab).contains_key(s) ==> id_map(vocab)[s] < vocab.len()
            && vocab[id_map(vocab)[s] as int] == s,
    decreases vocab.len(),
{
    if vocab.len() > 0 {
        let before = vocab.drop_last();
        ids_name_their_entries(before, s);
        if s == vocab.last() {
            assert(vocab[vocab.len() - 1] == s);
        } else if before.contains(s) {
            let i = choose|i: int| 0 <= i < before.len() && before[i] == s;
            assert(vocab[i] == s);
        } else if vocab.contains(s) {
            let i = choose|i: int| 0 <= i < vocab.len() && vocab[i] == s;
            assert(before[i] == s);
        }
    }
}

/// Every part of a piece is in the vocabulary, as an ordinary token.
pub open spec fn covered(t: Tokenizer, bytes: Seq<u8>) -> bool {
    let parts = join_all(t.ranks(), single_parts(bytes));
    forall|i: int|
        0 <= i < parts.len() ==> {
            &&& t.ids().contains_key(#[trigger] parts[i])
            &&& !t.is_mark(t.ids()[parts[i]])
            &&& !t.is_control(t.ids()[parts[i]])
        }
}

proof fn parts_decode(t: Tokenizer, parts: Seq<Seq<char>>)
    requires
        t.wf(),
        t.vocab@.len() <= 0x1_0000_0000,
        forall|i: int|
            0 <= i < parts.len() ==> {
                &&& t.ids().contains_key(#[trigger] parts[i])
                &&& !t.is_mark(t.ids()[parts[i]])
                &&& !t.is_control(t.ids()[parts[i]])
            },
    ensures
        t.bytes_of_all(parts.map_values(|p: Seq<char>| part_id(t.ids(), t.eos_id, p)))
            == token_bytes(joined(parts)),
    decreases parts.len(),
{
    let ids = parts.map_values(|p: Seq<char>| part_id(t.ids(), t.eos_id, p));
    if parts.len() > 0 {
        let rest = parts.drop_last();
        assert(ids.drop_last() =~= rest.map_values(
            |p: Seq<char>| part_id(t.ids(), t.eos_id, p),
        ));
        assert forall|i: int| 0 <= i < rest.len() implies t.ids().contains_key(#[trigger] rest[i])
            && !t.is_mark(t.ids()[rest[i]]) && !t.is_control(t.ids()[rest[i]]) by {
            assert(rest[i] == parts[i]);
        }
        parts_decode(t, rest);
        let last = parts.last();
        assert(last == parts[parts.len() - 1]);
        ids_name_their_entries(texts(t.vocab@), last);
        assert(ids.last() == t.ids()[last]);
        assert(texts(t.vocab@)[ids.last() as int] == t.vocab@[ids.last() as int]@);
        token_bytes_concat(joined(rest), last);
    }
}

/// Decoding the tokens of a piece gives back its bytes.
pub proof fn piece_round_trip(t: Tokenizer, bytes: Seq<u8>)
    requires
        t.wf(),
        t.vocab@.len() <= 0x1_0000_0000,
        covered(t, bytes),
    ensures
        t.bytes_of_all(piece_ids(t.ids(), t.ranks(), t.eos_id, bytes)) == bytes,
{
    let parts = join_all(t.ranks(), single_parts(bytes));
    merging_keeps_the_text(t.ranks(), single_parts(bytes));
    alphabet_round_trip(bytes);
    parts_decode(t, parts);
    if bytes.len() == 1 {
        assert(forall|i: int| !is_next(t.ranks(), single_parts(bytes), i));
        assert(parts[0] == single_parts(bytes)[0]);
    }
}

proof fn bytes_of_all_concat(t: Tokenizer, a: Seq<u32>, b: Seq<u32>)
    ensures
        t.bytes_of_all(a + b) == t.bytes_of_all(a) + t.bytes_of_all(b),
    decreases b.len(),
{
    if b.len() == 0 {
        assert(a + b =~= a);
        assert(t.bytes_of_all(a) + t.bytes_of_all(b) =~= t.bytes_of_all(a));
    } else {
        assert((a + b).drop_last() =~= a + b.drop_last());
        bytes_of_all_concat(t, a, b.drop_last());
        assert(t.bytes_of_all(a) + (t.bytes_of_all(b.drop_last()) + t.bytes_of(b.last()))
            =~= t.bytes_of_all(a) + t.bytes_of_all(b.drop_last()) + t.bytes_of(b.last()));
    }
}

/// The bytes of two lists of tokens together are the bytes of the one and the bytes of the
/// other: what a token decodes to does not depend on its neighbours.
pub proof fn decoding_is_piecewise(t: Tokenizer, a: Seq<u32>, b: Seq<u32>)
    ensures
        t.bytes_of_all(a + b) == t.bytes_of_all(a) + t.bytes_of_all(b),
{
    bytes_of_all_concat(t, a, b);
}

/// The marks of beginning and end leave no trace in the decoded text.
pub proof fn marks_decode_to_nothing(t: Tokenizer, a: Seq<u32>, b: Seq<u32>, mark: u32)
    requires
        t.is_mark(mark),
    ensures
        t.bytes_of_all(a.push(mark) + b) == t.bytes_of_all(a + b),
{
    bytes_of_all_concat(t, a.push(mark), b);
    bytes_of_all_concat(t, a, b);
    assert(a.push(mark).drop_last() =~= a);
    assert(t.bytes_of_all(a) + Seq::empty() =~= t.bytes_of_all(a));
}

proof fn encode_utf8_concat(a: Seq<char>, b: Seq<char>)
    ensures
        encode_utf8(a + b) == encode_utf8(a) + encode_utf8(b),
    decreases a.len(),
{
    if a.len() == 0 {
        assert(a + b =~= b);
        assert(encode_utf8(a) + encode_utf8(b) =~= encode_utf8(b));
    } else {
        assert((a + b).drop_first() =~= a.drop_first() + b);
        encode_utf8_concat(a.drop_first(), b);
        assert((a + b)[0] == a[0]);
        assert(encode_utf8(a + b) =~= encode_utf8(a) + encode_utf8(b));
    }
}

proof fn pieces_round_trip(t: Tokenizer, pieces: Seq<Seq<char>>)
    requires
        t.wf(),
        t.vocab@.len() <= 0x1_0000_0000,
        forall|i: int| 0 <= i < pieces.len() ==> covered(t, encode_utf8(#[trigger] pieces[i])),
    ensures
        t.bytes_of_all(pieces_ids(t.ids(), t.ranks(), t.eos_id, pieces)) == encode_utf8(
            joined(pieces),
        ),
    decreases pieces.len(),
{
    if pieces.len() > 0 {
        let rest = pieces.drop_last();
        assert forall|i: int| 0 <= i < rest.len() implies covered(
            t,
            encode_utf8(#[trigger] rest[i]),
        ) by {
            assert(rest[i] == pieces[i]);
        }
        pieces_round_trip(t, rest);
        let last = encode_utf8(pieces.last());
        assert(pieces.last() == pieces[pieces.len() - 1]);
        piece_round_trip(t, last);
        bytes_of_all_concat(
            t,
            pieces_ids(t.ids(), t.ranks(), t.eos_id, rest),
            piece_ids(t.ids(), t.ranks(), t.eos_id, last),
        );
        encode_utf8_concat(joined(rest), pieces.last());
    }
}

proof fn split_at_end(text: Seq<char>, last: Seq<char>, at: int)
    requires
        stands_at(text, last, at),
        at + last.len() == text.len(),
    ensures
        text == text.take(at) + last,
{
    assert(text =~= text.take(at) + text.subrange(at, at + last.len()));
}

/// Pieces that stand in a text one behind the other hold no more than the text, and those that
/// hold as many characters spell the text.
pub proof fn pieces_spell_the_text(text: Seq<char>, pieces: Seq<Seq<char>>)
    requires
        successive(text, pieces),
    ensures
        joined(pieces).len() <= text.len(),
        joined(pieces).len() == text.len() ==> joined(pieces) == text,
    decreases pieces.len(),
{
    if pieces.len() == 0 {
        assert(text.len() == 0 ==> joined(pieces) =~= text);
    } else {
        let last = pieces.last();
        let rest = pieces.drop_last();
        let at = choose|at: int| #[trigger]
            stands_at(text, last, at) && successive(text.take(at), rest);
        let front = text.take(at);
        pieces_spell_the_text(front, rest);
        assert(joined(pieces) == joined(rest) + last);
        assert(front.len() == at);
        if joined(pieces).len() == text.len() {
            assert(joined(rest) == front);
            split_at_end(text, last, at);
        }
    }
}

/// Decoding what was encoded gives back the text, wherever the pieces that pre-tokenization
/// made of it spell the whole text and their parts are all in the vocabulary as ordinary
/// tokens.
pub proof fn decoding_undoes_encoding(t: Tokenizer, text: Seq<char>, pieces: Seq<Seq<char>>)
    requires
        t.wf(),
        t.vocab@.len() <= 0x1_0000_0000,
        joined(pieces) == text,
        forall|i: int| 0 <= i < pieces.len() ==> covered(t, encode_utf8(#[trigger] pieces[i])),
    ensures
        ({
            let bytes = t.bytes_of_all(pieces_ids(t.ids(), t.ranks(), t.eos_id, pieces));
            valid_utf8(bytes) && decode_utf8(bytes) == text
        }),
{
    pieces_round_trip(t, pieces);
    vstd::utf8::encode_utf8_valid_utf8(text);
    vstd::utf8::encode_utf8_decode_utf8(text);
}

/// A text is in the vocabulary, as an ordinary token.
pub open spec fn ordinary(t: Tokenizer, s: Seq<char>) -> bool {
    &&& t.ids().contains_key(s)
    &&& !t.is_mark(t.ids()[s])
    &&& !t.is_control(t.ids()[s])
}

/// The vocabulary holds the letter of every byte and what every merge rule makes, all of them as
/// ordinary tokens.
pub open spec fn complete_vocabulary(t: Tokenizer) -> bool {
    &&& t.wf()
    &&& t.vocab@.len() <= 0x1_0000_0000
    &&& forall|b: u8| ordinary(t, seq![#[trigger] unicode_of(b)])
    &&& forall|l: Seq<char>, r: Seq<char>|
        t.ranks().contains_key(#[trigger] rule(l, r)) && !l.contains(' ') ==> ordinary(t, l + r)
}

proof fn merged_parts_are_ordinary(t: Tokenizer, parts: Seq<Seq<char>>)
    requires
        complete_vocabulary(t),
        spaceless(parts),
        forall|i: int| 0 <= i < parts.len() ==> ordinary(t, #[trigger] parts[i]),
    ensures
        forall|i: int|
            0 <= i < join_all(t.ranks(), parts).len() ==> ordinary(
                t,
                #[trigger] join_all(t.ranks(), parts)[i],
            ),
    decreases parts.len(),
{
    if exists|i: int| is_next(t.ranks(), parts, i) {
        let i = choose|i: int| is_next(t.ranks(), parts, i);
        join_at_spaceless(parts, i);
        let after = join_at(parts, i);
        assert(pair_rank(t.ranks(), parts, i) is Some);
        assert(t.ranks().contains_key(rule(parts[i], parts[i + 1])));
        assert(!parts[i].contains(' '));
        assert forall|k: int| 0 <= k < after.len() implies ordinary(t, #[trigger] after[k]) by {
            if k < i {
                assert(after[k] == parts[k]);
            } else if k > i {
                assert(after[k] == parts[k + 1]);
            } else {
                assert(after[k] == parts[i] + parts[i + 1]);
            }
        }
        merged_parts_are_ordinary(t, after);
        assert(join_all(t.ranks(), parts) == join_all(t.ranks(), after));
    } else {
        assert(join_all(t.ranks(), parts) == parts);
    }
}

/// A complete vocabulary covers every piece.
pub proof fn complete_vocabularies_cover(t: Tokenizer, bytes: Seq<u8>)
    requires
        complete_vocabulary(t),
    ensures
        covered(t, bytes),
{
    let parts = single_parts(bytes);
    parts_hold_no_space(t.ranks(), bytes);
    assert forall|i: int| 0 <= i < parts.len() implies ordinary(t, #[trigger] parts[i]) by {
        assert(parts[i] == seq![unicode_of(bytes[i])]);
    }
    merged_parts_are_ordinary(t, parts);
    let all = join_all(t.ranks(), parts);
    assert forall|i: int| 0 <= i < all.len() implies t.ids().contains_key(#[trigger] all[i])
        && !t.is_mark(t.ids()[all[i]]) && !t.is_control(t.ids()[all[i]]) by {
        assert(ordinary(t, all[i]));
    }
}

/// Encoding pieces whose parts are all in the vocabulary as ordinary tokens gives neither the mark
/// of beginning nor that of the end.
pub proof fn encoding_gives_no_marks(t: Tokenizer, pieces: Seq<Seq<char>>)
    requires
        forall|i: int| 0 <= i < pieces.len() ==> covered(t, encode_utf8(#[trigger] pieces[i])),
    ensures
        forall|k: int|
            0 <= k < pieces_ids(t.ids(), t.ranks(), t.eos_id, pieces).len() ==> !t.is_mark(
                #[trigger] pieces_ids(t.ids(), t.ranks(), t.eos_id, pieces)[k],
            ),
    decreases pieces.len(),
{
    if pieces.len() > 0 {
        let rest = pieces.drop_last();
        assert forall|i: int| 0 <= i < rest.len() implies covered(
            t,
            encode_utf8(#[trigger] rest[i]),
        ) by {
            assert(rest[i] == pieces[i]);
        }
        encoding_gives_no_marks(t, rest);
        let bytes = encode_utf8(pieces.last());
        assert(pieces.last() == pieces[pieces.len() - 1]);
        assert(covered(t, bytes));
        let parts = join_all(t.ranks(), single_parts(bytes));
        let before = pieces_ids(t.ids(), t.ranks(), t.eos_id, rest);
        let last = piece_ids(t.ids(), t.ranks(), t.eos_id, bytes);
        let all = pieces_ids(t.ids(), t.ranks(), t.eos_id, pieces);
        assert forall|k: int| 0 <= k < all.len() implies !t.is_mark(#[trigger] all[k]) by {
            if k < before.len() {
                assert(all[k] == before[k]);
            } else {
                let x = k - before.len();
                assert(all[k] == last[x]);
                assert(last[x] == part_id(t.ids(), t.eos_id, parts[x]));
                assert(t.ids().contains_key(parts[x]));
            }
        }
    }
}

/// With a complete vocabulary, what a text is encoded to decodes to the text, and holds no mark;
/// the pieces of the text may be any that spell it.
pub proof fn complete_vocabularies_round_trip(
    t: Tokenizer,
    text: Seq<char>,
    pieces: Seq<Seq<char>>,
)
    requires
        complete_vocabulary(t),
        joined(pieces) == text,
    ensures
        reads_back(t, pieces_ids(t.ids(), t.ranks(), t.eos_id, pieces), text),
{
    assert forall|i: int| 0 <= i < pieces.len() implies covered(
        t,
        encode_utf8(#[trigger] pieces[i]),
    ) by {
        complete_vocabularies_cover(t, encode_utf8(pieces[i]));
    }
    decoding_undoes_encoding(t, text, pieces);
    encoding_gives_no_marks(t, pieces);
}

/// The tokens decode to the text, and none of them is a mark.
pub open spec fn reads_back(t: Tokenizer, ids: Seq<u32>, text: Seq<char>) -> bool {
    &&& valid_utf8(t.bytes_of_all(ids))
    &&& decode_utf8(t.bytes_of_all(ids)) == text
    &&& forall|k: int| 0 <= k < ids.len() ==> !t.is_mark(#[trigger] ids[k])
}

} // verus!
