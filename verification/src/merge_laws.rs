//! How merge rules and vocabulary decide what a piece of text is encoded to.
use vstd::prelude::*;

use crate::tokenizer::{
    id_map, is_next, join_all, join_at, pair_rank, piece_ids, pieces_ids, rank_map, rule,
    single_parts, unicode_of,
};

verus! {

/// The last place at which a list holds a text.
pub open spec fn last_at(list: Seq<Seq<char>>, s: Seq<char>, i: int) -> bool {
    &&& 0 <= i < list.len()
    &&& list[i] == s
    &&& forall|j: int| i < j < list.len() ==> #[trigger] list[j] != s
}

/// A rule for the neighbours `i` and `i + 1` stands in the list, for the last time at `p`: the two
/// parts with a space between them.
pub open spec fn ruled_at(rules: Seq<Seq<char>>, parts: Seq<Seq<char>>, i: int, p: int) -> bool {
    &&& 0 <= i < parts.len() - 1
    &&& last_at(rules, parts[i] + seq![' '] + parts[i + 1], p)
}

/// The parts with the neighbours `i` and `i + 1` as one.
pub open spec fn merged(parts: Seq<Seq<char>>, i: int) -> Seq<Seq<char>> {
    Seq::new(
        (parts.len() - 1) as nat,
        |k: int|
            if k < i {
                parts[k]
            } else if k == i {
                parts[i] + parts[i + 1]
            } else {
                parts[k + 1]
            },
    )
}

/// A text that is in the list has a last place there.
proof fn last_place(list: Seq<Seq<char>>, s: Seq<char>) -> (p: int)
    requires
        list.contains(s),
    ensures
        last_at(list, s, p),
    decreases list.len(),
{
    let rest = list.drop_last();
    if list.last() == s {
        list.len() - 1
    } else {
        let i = choose|i: int| 0 <= i < list.len() && list[i] == s;
        assert(rest[i] == s);
        let p = last_place(rest, s);
        assert forall|j: int| p < j < list.len() implies #[trigger] list[j] != s by {
            if j < rest.len() {
                assert(rest[j] == list[j]);
            }
        }
        p
    }
}

/// The rank of a rule is its last place.
proof fn ranks_are_places(rules: Seq<Seq<char>>, s: Seq<char>, p: int)
    requires
        rules.len() <= u32::MAX,
        s.contains(' '),
        last_at(rules, s, p),
    ensures
        rank_map(rules).contains_key(s),
        rank_map(rules)[s] == p,
    decreases rules.len(),
{
    let rest = rules.drop_last();
    if p < rules.len() - 1 {
        assert(rules[rules.len() - 1] != s);
        assert(rest[p] == s);
        assert forall|j: int| p < j < rest.len() implies #[trigger] rest[j] != s by {
            assert(rest[j] == rules[j]);
        }
        ranks_are_places(rest, s, p);
    }
}

proof fn ranked_rules_are_listed(rules: Seq<Seq<char>>, s: Seq<char>)
    requires
        rank_map(rules).contains_key(s),
    ensures
        rules.contains(s),
    decreases rules.len(),
{
    let rest = rules.drop_last();
    if rules.last() == s {
        assert(rules[rules.len() - 1] == s);
    } else {
        ranked_rules_are_listed(rest, s);
        let i = choose|i: int| 0 <= i < rest.len() && rest[i] == s;
        assert(rules[i] == s);
    }
}

/// What the ranks say of a pair is what the list says of it.
proof fn pairs_have_places(rules: Seq<Seq<char>>, parts: Seq<Seq<char>>, i: int)
    requires
        rules.len() <= u32::MAX,
        0 <= i < parts.len() - 1,
    ensures
        match pair_rank(rank_map(rules), parts, i) {
            Some(r) => ruled_at(rules, parts, i, r as int),
            None => forall|p: int| !ruled_at(rules, parts, i, p),
        },
{
    let s = parts[i] + seq![' '] + parts[i + 1];
    assert(s =~= rule(parts[i], parts[i + 1]));
    assert(s[parts[i].len() as int] == ' ');
    if rank_map(rules).contains_key(s) {
        ranked_rules_are_listed(rules, s);
        let p = last_place(rules, s);
        ranks_are_places(rules, s, p);
    } else {
        assert forall|p: int| !ruled_at(rules, parts, i, p) by {
            if ruled_at(rules, parts, i, p) {
                ranks_are_places(rules, s, p);
            }
        }
    }
}

/// The pair whose rule stands earliest in the list of rules is joined first, and of several pairs
/// with the same rule the leftmost.
pub proof fn the_earliest_rule_goes_first(
    rules: Seq<Seq<char>>,
    parts: Seq<Seq<char>>,
    i: int,
    p: int,
)
    requires
        rules.len() <= u32::MAX,
        ruled_at(rules, parts, i, p),
        forall|j: int, q: int| #[trigger]
            ruled_at(rules, parts, j, q) ==> p < q || (p == q && i <= j),
    ensures
        join_all(rank_map(rules), parts) == join_all(rank_map(rules), merged(parts, i)),
{
    let ranks = rank_map(rules);
    assert forall|j: int|
        0 <= j < parts.len() - 1 && (#[trigger] pair_rank(ranks, parts, j)) is Some implies {
        &&& p <= pair_rank(ranks, parts, j)->0
        &&& j < i ==> p < pair_rank(ranks, parts, j)->0
    } by {
        pairs_have_places(rules, parts, j);
        assert(ruled_at(rules, parts, j, pair_rank(ranks, parts, j)->0 as int));
    }
    pairs_have_places(rules, parts, i);
    let r = pair_rank(ranks, parts, i)->0 as int;
    assert(ruled_at(rules, parts, i, r));
    assert(r == p) by {
        assert(rules[p] == rules[r]);
    }
    assert(is_next(ranks, parts, i));
    let c = choose|c: int| is_next(ranks, parts, c);
    assert(c == i) by {
        assert(pair_rank(ranks, parts, c) is Some && pair_rank(ranks, parts, i) is Some);
    }
    assert(join_at(parts, i) =~= merged(parts, i));
}

/// Where no pair has a rule in the list, nothing is joined.
pub proof fn without_a_rule_nothing_is_joined(rules: Seq<Seq<char>>, parts: Seq<Seq<char>>)
    requires
        rules.len() <= u32::MAX,
        forall|i: int, p: int| !#[trigger] ruled_at(rules, parts, i, p),
    ensures
        join_all(rank_map(rules), parts) == parts,
{
    let ranks = rank_map(rules);
    assert forall|i: int| !is_next(ranks, parts, i) by {
        if is_next(ranks, parts, i) {
            pairs_have_places(rules, parts, i);
            assert(ruled_at(rules, parts, i, pair_rank(ranks, parts, i)->0 as int));
        }
    }
}

/// Of three parts whose neighbours both have rules, those are joined whose rule stands earlier in
/// the list, and the third stays, unless a rule joins it too.
pub proof fn of_three_parts_the_earlier_rule_wins(
    rules: Seq<Seq<char>>,
    x: Seq<char>,
    y: Seq<char>,
    z: Seq<char>,
    p: int,
    q: int,
)
    requires
        rules.len() <= u32::MAX,
        last_at(rules, x + seq![' '] + y, p),
        last_at(rules, y + seq![' '] + z, q),
    ensures
        p < q && !rules.contains(x + y + seq![' '] + z) ==> join_all(
            rank_map(rules),
            seq![x, y, z],
        ) == seq![x + y, z],
        q < p && !rules.contains(x + seq![' '] + (y + z)) ==> join_all(
            rank_map(rules),
            seq![x, y, z],
        ) == seq![x, y + z],
{
    let parts = seq![x, y, z];
    assert(ruled_at(rules, parts, 0, p));
    assert(ruled_at(rules, parts, 1, q));
    assert forall|j: int, r: int| #[trigger] ruled_at(rules, parts, j, r) implies r == (if j == 0 {
        p
    } else {
        q
    }) by {
        if j == 0 {
            assert(rules[p] == rules[r]);
        } else {
            assert(rules[q] == rules[r]);
        }
    }
    if p < q && !rules.contains(x + y + seq![' '] + z) {
        the_earliest_rule_goes_first(rules, parts, 0, p);
        let two = seq![x + y, z];
        assert(merged(parts, 0) =~= two);
        assert forall|i: int, r: int| !#[trigger] ruled_at(rules, two, i, r) by {
            if ruled_at(rules, two, i, r) {
                assert(rules[r] == x + y + seq![' '] + z);
            }
        }
        without_a_rule_nothing_is_joined(rules, two);
    }
    if q < p && !rules.contains(x + seq![' '] + (y + z)) {
        the_earliest_rule_goes_first(rules, parts, 1, q);
        let two = seq![x, y + z];
        assert(merged(parts, 1) =~= two);
        assert forall|i: int, r: int| !#[trigger] ruled_at(rules, two, i, r) by {
            if ruled_at(rules, two, i, r) {
                assert(rules[r] == x + seq![' '] + (y + z));
            }
        }
        without_a_rule_nothing_is_joined(rules, two);
    }
}

/// The number of an entry is its last place in the vocabulary.
proof fn numbers_are_places(vocab: Seq<Seq<char>>, s: Seq<char>)
    requires
        vocab.len() <= u32::MAX,
    ensures
        id_map(vocab).contains_key(s) <==> vocab.contains(s),
        id_map(vocab).contains_key(s) ==> last_at(vocab, s, id_map(vocab)[s] as int),
    decreases vocab.len(),
{
    if vocab.len() > 0 {
        let rest = vocab.drop_last();
        numbers_are_places(rest, s);
        if vocab.last() == s {
            assert(vocab[vocab.len() - 1] == s);
        } else {
            if vocab.contains(s) {
                let i = choose|i: int| 0 <= i < vocab.len() && vocab[i] == s;
                assert(rest[i] == s);
            }
            if rest.contains(s) {
                let p = id_map(rest)[s] as int;
                assert(vocab[p] == s);
                assert forall|j: int| p < j < vocab.len() implies #[trigger] vocab[j] != s by {
                    if j < rest.len() {
                        assert(rest[j] == vocab[j]);
                    }
                }
            }
        }
    }
}

/// The letters of a list of bytes, each a part of its own.
pub open spec fn letters(bytes: Seq<u8>) -> Seq<Seq<char>> {
    Seq::new(bytes.len(), |i: int| seq![unicode_of(bytes[i])])
}

/// A piece becomes one token for each part that is left after merging its letters: the last place
/// of the part in the vocabulary, or the mark of the end for a part that the vocabulary lacks. A
/// piece of a single byte that the vocabulary lacks becomes no token.
pub proof fn tokens_are_places_of_the_merged_parts(
    vocab: Seq<Seq<char>>,
    rules: Seq<Seq<char>>,
    eos: u32,
    bytes: Seq<u8>,
)
    requires
        vocab.len() <= u32::MAX,
    ensures
        ({
            let parts = join_all(rank_map(rules), letters(bytes));
            let out = piece_ids(id_map(vocab), rank_map(rules), eos, bytes);
            if bytes.len() == 1 && !vocab.contains(letters(bytes)[0]) {
                out.len() == 0
            } else {
                &&& out.len() == parts.len()
                &&& forall|i: int|
                    0 <= i < out.len() ==> if vocab.contains(#[trigger] parts[i]) {
                        last_at(vocab, parts[i], out[i] as int)
                    } else {
                        out[i] == eos
                    }
            }
        }),
{
    let parts = join_all(rank_map(rules), letters(bytes));
    assert(single_parts(bytes) =~= letters(bytes));
    if bytes.len() == 1 {
        numbers_are_places(vocab, letters(bytes)[0]);
    }
    assert forall|i: int| 0 <= i < parts.len() implies (vocab.contains(
        #[trigger] parts[i],
    ) <==> id_map(
        vocab,
    ).contains_key(parts[i])) && (vocab.contains(parts[i]) ==> last_at(
        vocab,
        parts[i],
        id_map(vocab)[parts[i]] as int,
    )) by {
        numbers_are_places(vocab, parts[i]);
    }
}

/// Three bytes whose neighbours both have rules, the left one's earlier in the list, become the
/// token of the first two together and the token of the third, unless a rule joins these.
pub proof fn three_bytes_become_two_tokens(
    vocab: Seq<Seq<char>>,
    rules: Seq<Seq<char>>,
    eos: u32,
    a: u8,
    b: u8,
    c: u8,
    p: int,
    q: int,
)
    requires
        vocab.len() <= u32::MAX,
        rules.len() <= u32::MAX,
        last_at(rules, seq![unicode_of(a), ' ', unicode_of(b)], p),
        last_at(rules, seq![unicode_of(b), ' ', unicode_of(c)], q),
        p < q,
        !rules.contains(seq![unicode_of(a), unicode_of(b), ' ', unicode_of(c)]),
        vocab.contains(seq![unicode_of(a), unicode_of(b)]),
        vocab.contains(seq![unicode_of(c)]),
    ensures
        ({
            let out = piece_ids(id_map(vocab), rank_map(rules), eos, seq![a, b, c]);
            &&& out.len() == 2
            &&& last_at(vocab, seq![unicode_of(a), unicode_of(b)], out[0] as int)
            &&& last_at(vocab, seq![unicode_of(c)], out[1] as int)
        }),
{
    let (x, y, z) = (seq![unicode_of(a)], seq![unicode_of(b)], seq![unicode_of(c)]);
    assert(x + seq![' '] + y =~= seq![unicode_of(a), ' ', unicode_of(b)]);
    assert(y + seq![' '] + z =~= seq![unicode_of(b), ' ', unicode_of(c)]);
    assert(x + y + seq![' '] + z =~= seq![unicode_of(a), unicode_of(b), ' ', unicode_of(c)]);
    assert(x + y =~= seq![unicode_of(a), unicode_of(b)]);
    of_three_parts_the_earlier_rule_wins(rules, x, y, z, p, q);
    assert(letters(seq![a, b, c]) =~= seq![x, y, z]);
    tokens_are_places_of_the_merged_parts(vocab, rules, eos, seq![a, b, c]);
    let parts = join_all(rank_map(rules), letters(seq![a, b, c]));
    assert(parts[0] == x + y && parts[1] == z);
}

/// Pieces are encoded one after the other, each by itself.
pub proof fn pieces_are_encoded_in_order(
    vocab: Seq<Seq<char>>,
    rules: Seq<Seq<char>>,
    eos: u32,
    before: Seq<Seq<char>>,
    piece: Seq<char>,
    after: Seq<Seq<char>>,
)
    ensures
        pieces_ids(id_map(vocab), rank_map(rules), eos, before.push(piece) + after) == pieces_ids(
            id_map(vocab),
            rank_map(rules),
            eos,
            before,
        ) + piece_ids(
            id_map(vocab),
            rank_map(rules),
            eos,
            vstd::utf8::encode_utf8(piece),
        ) + pieces_ids(id_map(vocab), rank_map(rules), eos, after),
    decreases after.len(),
{
    let ids = id_map(vocab);
    let ranks = rank_map(rules);
    let all = before.push(piece) + after;
    if after.len() == 0 {
        assert(all =~= before.push(piece));
        assert(all.drop_last() =~= before);
        let one = pieces_ids(ids, ranks, eos, before) + piece_ids(
            ids,
            ranks,
            eos,
            vstd::utf8::encode_utf8(piece),
        );
        assert(one + Seq::empty() =~= one);
    } else {
        let rest = after.drop_last();
        assert(all.drop_last() =~= before.push(piece) + rest);
        pieces_are_encoded_in_order(vocab, rules, eos, before, piece, rest);
        let one = pieces_ids(ids, ranks, eos, before) + piece_ids(
            ids,
            ranks,
            eos,
            vstd::utf8::encode_utf8(piece),
        );
        let last = piece_ids(ids, ranks, eos, vstd::utf8::encode_utf8(after.last()));
        assert(one + pieces_ids(ids, ranks, eos, rest) + last =~= one + (pieces_ids(
            ids,
            ranks,
            eos,
            rest,
        ) + last));
    }
}

/// A byte is printable in its own letter: the visible ones of ASCII and of Latin-1, but for the
/// soft hyphen.
pub open spec fn visible(b: int) -> bool {
    33 <= b <= 126 || (161 <= b <= 255 && b != 173)
}

/// How many of the bytes below `b` are not.
pub open spec fn invisible_below(b: nat) -> nat
    decreases b,
{
    if b == 0 {
        0
    } else {
        invisible_below((b - 1) as nat) + if visible(b - 1) {
            0nat
        } else {
            1nat
        }
    }
}

proof fn invisible_bytes_in_runs(b: nat)
    requires
        b <= 255,
    ensures
        invisible_below(b) == if b <= 33 {
            b as int
        } else if b <= 127 {
            33
        } else if b <= 161 {
            b - 94
        } else if b <= 173 {
            67
        } else {
            68
        },
    decreases b,
{
    if b > 0 {
        invisible_bytes_in_runs((b - 1) as nat);
    }
}

/// A visible byte is its own letter. The others take the letters from number 256 on, in order.
pub proof fn bytes_have_their_letters(b: u8)
    ensures
        unicode_of(b) as int == if visible(b as int) {
            b as int
        } else {
            256int + invisible_below(b as nat)
        },
{
    invisible_bytes_in_runs(b as nat);
}

} // verus!
