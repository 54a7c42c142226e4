//! Vocabulary loading, byte-pair encoding, and token-to-text decoding.
//!
//! Vocabulary entries are written in an alphabet of 256 characters, one for each byte:
//! printable bytes stand for themselves, the others are numbered from U+0100 on, so a
//! space is U+0120 and a newline is U+010A.
//!
//! Encoding splits the text into pieces with a regular expression, writes the UTF-8 bytes
//! of each piece in that alphabet, joins neighbours by the merge rules, lowest rank first,
//! and looks the results up in the vocabulary.
use vstd::hash_map::StringHashMap;
use vstd::prelude::*;
use vstd::string::StringExecFns;
use vstd::utf8::{decode_utf8, encode_scalar, encode_utf8, valid_utf8};

use crate::gguf::{
    i32_array, string_array, texts, u32_at, GgufFile, KV_ARRAY, KV_I32, KV_STRING, KV_U32,
};
use crate::text::{decimal, lossy_string, push_decimal, push_utf8, utf8_lossy};
use crate::tokenizer_laws::{
    complete_vocabularies_round_trip, complete_vocabulary, pieces_spell_the_text, reads_back,
};

verus! {

/// The pre-tokenization pattern: a word takes its leading space along, digits go in groups
/// of up to three.
pub const PRE_TOKEN_PATTERN: &'static str =
    r"(?i:'s|'t|'re|'ve|'m|'ll|'d)|[^\r\n\p{L}\p{N}]?\p{L}+|\p{N}{1,3}| ?[^\s\p{L}\p{N}]+[\r\n]*|\s+";

/// The token type of control tokens, whose vocabulary entries are plain text.
pub const CONTROL_TYPE: i32 = 3;

/// The type of a token for which the file gives none.
pub const NORMAL_TYPE: i32 = 1;

/// `char::from_u32` gives the character with that number; numbers that are no Unicode
/// scalar values give `None`.
pub assume_specification[ core::char::from_u32 ](i: u32) -> (r: Option<char>)
    ensures
        r is Some <==> (i <= 0xD7FF || 0xE000 <= i <= 0x10FFFF),
        r matches Some(c) ==> c as u32 == i,
;

/// The matches of a regular expression in a text, from left to right; `None` for a pattern
/// that is no regular expression.
pub uninterp spec fn regex_matches(pattern: Seq<char>, text: Seq<char>) -> Option<Seq<Seq<char>>>;

/// The piece stands in the text from `at` on.
pub open spec fn stands_at(text: Seq<char>, piece: Seq<char>, at: int) -> bool {
    &&& 0 <= at
    &&& at + piece.len() <= text.len()
    &&& text.subrange(at, at + piece.len()) == piece
}

/// The pieces stand in the text, one behind the other, without overlap.
pub open spec fn successive(text: Seq<char>, pieces: Seq<Seq<char>>) -> bool
    decreases pieces.len(),
{
    pieces.len() > 0 ==> exists|at: int| #[trigger]
        stands_at(text, pieces.last(), at) && successive(text.take(at), pieces.drop_last())
}

/// Parts written one after the other.
pub open spec fn joined(parts: Seq<Seq<char>>) -> Seq<char>
    decreases parts.len(),
{
    if parts.len() == 0 {
        Seq::empty()
    } else {
        joined(parts.drop_last()) + parts.last()
    }
}

/// `regex::Regex::new` and `Regex::find_iter`: the successive non-overlapping matches of the
/// pattern in the text, or `None` where the pattern does not compile. Which parts of the text
/// match is named, not described. Of the pre-tokenization pattern this much is claimed besides:
/// its matches leave no character out. Every character is white space, a letter, a number or none
/// of these, for each of which an alternative of the pattern matches it alone, and the search takes
/// the leftmost match.
#[verifier::external_body]
fn find_matches(pattern: &str, text: &str) -> (r: Option<Vec<String>>)
    ensures
        match r {
            Some(v) => {
                &&& regex_matches(pattern@, text@) == Some(texts(v@))
                &&& successive(text@, texts(v@))
                &&& pattern@ == PRE_TOKEN_PATTERN@ ==> joined(texts(v@)).len() == text@.len()
            },
            None => regex_matches(pattern@, text@) is None,
        },
{
    let re = regex::Regex::new(pattern).ok()?;
    Some(re.find_iter(text).map(|m| m.as_str().to_string()).collect())
}

/// The character that stands for a byte.
pub open spec fn unicode_of(b: u8) -> char {
    if 33 <= b <= 126 || 161 <= b <= 172 || 174 <= b {
        b as char
    } else if b <= 32 {
        (0x100 + b) as char
    } else if b <= 160 {
        (0x121 + b - 127) as char
    } else {
        '\u{0143}'
    }
}

/// Maps one byte to the character that stands for it.
pub fn byte_to_unicode(b: u8) -> (c: char)
    ensures
        c == unicode_of(b),
{
    if (b >= 33 && b <= 126) || (b >= 161 && b <= 172) || b >= 174 {
        b as char
    } else {
        let n: u32 = if b <= 32 {
            0x100 + b as u32
        } else if b <= 160 {
            0x121 + b as u32 - 127
        } else {
            0x143
        };
        match core::char::from_u32(n) {
            Some(c) => {
                proof {
                    vstd::utf8::char_u32_cast(c, n);
                }
                c
            },
            None => '\u{0143}',
        }
    }
}

/// Two bytes are never written with the same character.
pub proof fn alphabet_is_injective(a: u8, b: u8)
    requires
        unicode_of(a) == unicode_of(b),
    ensures
        a == b,
{
    assert(unicode_of(a) as u32 == unicode_of(b) as u32);
}

/// The bytes that a character of a vocabulary entry stands for: one byte for a character of
/// the alphabet, its UTF-8 encoding for any other.
pub open spec fn char_bytes(c: char) -> Seq<u8> {
    if exists|b: u8| #[trigger] unicode_of(b) == c {
        seq![choose|b: u8| #[trigger] unicode_of(b) == c]
    } else {
        encode_scalar(c as u32)
    }
}

/// The bytes that a vocabulary entry stands for.
pub open spec fn token_bytes(s: Seq<char>) -> Seq<u8>
    decreases s.len(),
{
    if s.len() == 0 {
        Seq::empty()
    } else {
        token_bytes(s.drop_last()) + char_bytes(s.last())
    }
}

/// The byte that a character of the alphabet stands for.
fn unicode_to_byte(c: char) -> (r: Option<u8>)
    ensures
        match r {
            Some(b) => unicode_of(b) == c,
            None => forall|b: u8| #[trigger] unicode_of(b) != c,
        },
{
    let cp: u32 = c as u32;
    let r: Option<u8> = if cp >= 33 && cp <= 126 {
        Some(cp as u8)
    } else if (cp >= 161 && cp <= 172) || (cp >= 174 && cp <= 255) {
        Some(cp as u8)
    } else if cp >= 0x100 && cp <= 0x120 {
        Some((cp - 0x100) as u8)
    } else if cp >= 0x121 && cp <= 0x142 {
        Some((cp - 0x121 + 127) as u8)
    } else if cp == 0x143 {
        Some(173)
    } else {
        None
    };
    proof {
        if let Some(b) = r {
            assert(unicode_of(b) as u32 == cp);
        } else {
            assert forall|b: u8| #[trigger] unicode_of(b) != c by {
                assert(unicode_of(b) as u32 != cp);
            }
        }
    }
    r
}

/// Decodes a vocabulary entry to the bytes that it stands for.
pub fn gpt2_token_to_bytes(s: &str) -> (r: Vec<u8>)
    ensures
        r@ == token_bytes(s@),
{
    let mut out: Vec<u8> = Vec::new();
    for c in it: s.chars()
        invariant
            it.seq() == s@,
            out@ == token_bytes(s@.take(it.index() as int)),
    {
        let ghost done = s@.take(it.index() as int + 1);
        assert(done.drop_last() =~= s@.take(it.index() as int));
        match unicode_to_byte(c) {
            Some(b) => {
                proof {
                    alphabet_is_injective(b, choose|x: u8| #[trigger] unicode_of(x) == c);
                }
                out.push(b);
                assert(out@ =~= token_bytes(done));
            },
            None => {
                push_utf8(&mut out, c);
            },
        }
    }
    assert(s@.take(s@.len() as int) =~= s@);
    out
}

/// Why no tokenizer could be made of a weight file.
#[derive(Debug, Clone, Copy, PartialEq, Eq, Structural)]
pub enum TokenizerError {
    MissingBosId,
    MissingEosId,
    EmptyVocabulary,
}

/// The number of each vocabulary entry: that of its last occurrence.
pub open spec fn id_map(vocab: Seq<Seq<char>>) -> Map<Seq<char>, u32>
    decreases vocab.len(),
{
    if vocab.len() == 0 {
        Map::empty()
    } else {
        id_map(vocab.drop_last()).insert(vocab.last(), (vocab.len() - 1) as u32)
    }
}

/// The rank of each merge rule: its last place in the list. A rule without a space is none.
pub open spec fn rank_map(rules: Seq<Seq<char>>) -> Map<Seq<char>, u32>
    decreases rules.len(),
{
    if rules.len() == 0 {
        Map::empty()
    } else {
        let before = rank_map(rules.drop_last());
        if rules.last().contains(' ') {
            before.insert(rules.last(), (rules.len() - 1) as u32)
        } else {
            before
        }
    }
}

/// The text of the rule that joins `left` and `right`.
pub open spec fn rule(left: Seq<char>, right: Seq<char>) -> Seq<char> {
    left.push(' ') + right
}

/// The rank of the rule for the neighbours `i` and `i + 1`, if there is one.
pub open spec fn pair_rank(
    ranks: Map<Seq<char>, u32>,
    parts: Seq<Seq<char>>,
    i: int,
) -> Option<u32> {
    if ranks.contains_key(rule(parts[i], parts[i + 1])) {
        Some(ranks[rule(parts[i], parts[i + 1])])
    } else {
        None
    }
}

/// The neighbours `i` and `i + 1` are joined next: no pair has a lower rank, and none to the
/// left has the same. The rank `u32::MAX` joins nothing.
pub open spec fn is_next(ranks: Map<Seq<char>, u32>, parts: Seq<Seq<char>>, i: int) -> bool {
    &&& 0 <= i < parts.len() - 1
    &&& pair_rank(ranks, parts, i) is Some
    &&& pair_rank(ranks, parts, i)->0 < u32::MAX
    &&& forall|j: int|
        0 <= j < parts.len() - 1 && (#[trigger] pair_rank(ranks, parts, j)) is Some ==> {
            &&& pair_rank(ranks, parts, i)->0 <= pair_rank(ranks, parts, j)->0
            &&& j < i ==> pair_rank(ranks, parts, i)->0 < pair_rank(ranks, parts, j)->0
        }
}

/// The parts with the neighbours `i` and `i + 1` joined.
pub open spec fn join_at(parts: Seq<Seq<char>>, i: int) -> Seq<Seq<char>> {
    parts.take(i).push(parts[i] + parts[i + 1]) + parts.skip(i + 2)
}

/// The parts with all joins made, one after the other.
pub open spec fn join_all(ranks: Map<Seq<char>, u32>, parts: Seq<Seq<char>>) -> Seq<Seq<char>>
    decreases parts.len(),
{
    if exists|i: int| is_next(ranks, parts, i) {
        join_all(ranks, join_at(parts, choose|i: int| is_next(ranks, parts, i)))
    } else {
        parts
    }
}

/// One part for each byte.
pub open spec fn single_parts(bytes: Seq<u8>) -> Seq<Seq<char>> {
    bytes.map_values(|b: u8| seq![unicode_of(b)])
}

/// The number of a part; `eos` for one that is not in the vocabulary.
pub open spec fn part_id(ids: Map<Seq<char>, u32>, eos: u32, part: Seq<char>) -> u32 {
    if ids.contains_key(part) {
        ids[part]
    } else {
        eos
    }
}

/// The tokens of one piece of text. A single byte that is not in the vocabulary is left out.
pub open spec fn piece_ids(
    ids: Map<Seq<char>, u32>,
    ranks: Map<Seq<char>, u32>,
    eos: u32,
    bytes: Seq<u8>,
) -> Seq<u32> {
    let parts = single_parts(bytes);
    if bytes.len() == 1 && !ids.contains_key(parts[0]) {
        Seq::empty()
    } else {
        join_all(ranks, parts).map_values(|p: Seq<char>| part_id(ids, eos, p))
    }
}

/// The tokens of a list of pieces.
pub open spec fn pieces_ids(
    ids: Map<Seq<char>, u32>,
    ranks: Map<Seq<char>, u32>,
    eos: u32,
    pieces: Seq<Seq<char>>,
) -> Seq<u32>
    decreases pieces.len(),
{
    if pieces.len() == 0 {
        Seq::empty()
    } else {
        pieces_ids(ids, ranks, eos, pieces.drop_last()) + piece_ids(
            ids,
            ranks,
            eos,
            encode_utf8(pieces.last()),
        )
    }
}

/// Vocabulary and merge rules.
pub struct Tokenizer {
    pub vocab: Vec<String>,
    pub token_types: Vec<i32>,
    pub bos_id: u32,
    pub eos_id: u32,
    /// Vocabulary entry to its number.
    pub vocab_map: StringHashMap<u32>,
    /// Merge rule, as `left right`, to its rank; a lower rank is applied first.
    pub merge_ranks: StringHashMap<u32>,
}

/// At most one pair is joined next.
proof fn next_is_unique(ranks: Map<Seq<char>, u32>, parts: Seq<Seq<char>>, i: int, j: int)
    requires
        is_next(ranks, parts, i),
        is_next(ranks, parts, j),
    ensures
        i == j,
{
    assert(pair_rank(ranks, parts, i) is Some && pair_rank(ranks, parts, j) is Some);
}

impl Tokenizer {
    /// The number of each vocabulary entry.
    pub open spec fn ids(&self) -> Map<Seq<char>, u32> {
        self.vocab_map@
    }

    /// The rank of each merge rule.
    pub open spec fn ranks(&self) -> Map<Seq<char>, u32> {
        self.merge_ranks@
    }

    /// Entries are looked up in the vocabulary.
    pub open spec fn wf(&self) -> bool {
        self.ids() == id_map(texts(self.vocab@))
    }

    /// Numbers the entries of a vocabulary.
    fn index_vocab(vocab: &Vec<String>) -> (m: StringHashMap<u32>)
        ensures
            m@ == id_map(texts(vocab@)),
    {
        let mut m: StringHashMap<u32> = StringHashMap::new();
        let mut i: usize = 0;
        let ghost all = texts(vocab@);
        while i < vocab.len()
            invariant
                i <= vocab.len(),
                all == texts(vocab@),
                m@ == id_map(all.take(i as int)),
            decreases vocab.len() - i,
        {
            assert(all.take(i + 1).drop_last() =~= all.take(i as int));
            m.insert(vocab[i].clone(), i as u32);
            i = i + 1;
        }
        assert(all.take(i as int) =~= all);
        m
    }

    /// Ranks the merge rules.
    fn index_rules(rules: &Vec<String>) -> (m: StringHashMap<u32>)
        ensures
            m@ == rank_map(texts(rules@)),
    {
        let mut m: StringHashMap<u32> = StringHashMap::new();
        let mut i: usize = 0;
        let ghost all = texts(rules@);
        while i < rules.len()
            invariant
                i <= rules.len(),
                all == texts(rules@),
                m@ == rank_map(all.take(i as int)),
            decreases rules.len() - i,
        {
            assert(all.take(i + 1).drop_last() =~= all.take(i as int));
            if has_space(rules[i].as_str()) {
                m.insert(rules[i].clone(), i as u32);
            }
            i = i + 1;
        }
        assert(all.take(i as int) =~= all);
        m
    }

    /// Makes a tokenizer of a vocabulary and a list of merge rules.
    pub fn new(
        vocab: Vec<String>,
        token_types: Vec<i32>,
        bos_id: u32,
        eos_id: u32,
        merges: &Vec<String>,
    ) -> (r: Self)
        ensures
            r.vocab == vocab,
            r.token_types == token_types,
            r.bos_id == bos_id,
            r.eos_id == eos_id,
            r.wf(),
            r.ranks() == rank_map(texts(merges@)),
    {
        let vocab_map: StringHashMap<u32> = Self::index_vocab(&vocab);
        let merge_ranks: StringHashMap<u32> = Self::index_rules(merges);
        Tokenizer { vocab, token_types, bos_id, eos_id, vocab_map, merge_ranks }
    }

    /// Encodes one piece of text, given as its UTF-8 bytes.
    pub fn bpe_encode_bytes(&self, bytes: &[u8]) -> (r: Vec<u32>)
        ensures
            r@ == piece_ids(self.ids(), self.ranks(), self.eos_id, bytes@),
    {
        let ghost ranks = self.ranks();
        let mut parts: Vec<String> = Vec::new();
        let mut i: usize = 0;
        while i < bytes.len()
            invariant
                i <= bytes.len(),
                parts@.len() == i,
                forall|j: int|
                    0 <= j < i ==> (#[trigger] parts@[j])@ == seq![unicode_of(bytes@[j])],
            decreases bytes.len() - i,
        {
            let mut s: String = String::new();
            s.push(byte_to_unicode(bytes[i]));
            assert(s@ =~= seq![unicode_of(bytes@[i as int])]);
            parts.push(s);
            i = i + 1;
        }
        let ghost start = single_parts(bytes@);
        assert(texts(parts@) =~= start);
        if parts.len() == 1 {
            assert(forall|i: int| !is_next(ranks, start, i));
            assert(start[0] == parts@[0]@);
            match self.vocab_map.get(parts[0].as_str()) {
                Some(id) => {
                    let mut out: Vec<u32> = Vec::new();
                    out.push(*id);
                    assert(out@ =~= start.map_values(
                        |p: Seq<char>| part_id(self.ids(), self.eos_id, p),
                    ));
                    return out;
                },
                None => {
                    return Vec::new();
                },
            }
        }
        loop
            invariant
                ranks == self.ranks(),
                join_all(ranks, start) == join_all(ranks, texts(parts@)),
            ensures
                texts(parts@) == join_all(ranks, start),
            decreases parts@.len(),
        {
            match self.next_join(&parts) {
                None => {
                    break;
                },
                Some(at) => {
                    let ghost before = texts(parts@);
                    proof {
                        next_is_unique(
                            ranks,
                            before,
                            at as int,
                            choose|i: int| is_next(ranks, before, i),
                        );
                    }
                    assert(at + 1 < parts.len());
                    let right: String = parts.remove(at + 1);
                    let mut left: String = parts.remove(at);
                    left.append(right.as_str());
                    parts.insert(at, left);
                    assert(texts(parts@) =~= join_at(before, at as int));
                },
            }
        }
        let mut out: Vec<u32> = Vec::new();
        let mut k: usize = 0;
        while k < parts.len()
            invariant
                k <= parts.len(),
                out@.len() == k,
                forall|j: int|
                    0 <= j < k ==> #[trigger] out@[j] == part_id(
                        self.ids(),
                        self.eos_id,
                        parts@[j]@,
                    ),
            decreases parts.len() - k,
        {
            let id: u32 = match self.vocab_map.get(parts[k].as_str()) {
                Some(id) => *id,
                None => self.eos_id,
            };
            out.push(id);
            k = k + 1;
        }
        assert(out@ =~= texts(parts@).map_values(
            |p: Seq<char>| part_id(self.ids(), self.eos_id, p),
        ));
        out
    }

    /// Which neighbours are joined next, if any.
    fn next_join(&self, parts: &Vec<String>) -> (r: Option<usize>)
        ensures
            match r {
                Some(i) => is_next(self.ranks(), texts(parts@), i as int),
                None => forall|i: int| !is_next(self.ranks(), texts(parts@), i),
            },
    {
        let ghost ps = texts(parts@);
        let ghost ranks = self.ranks();
        let mut best_rank: u32 = u32::MAX;
        let mut best: Option<usize> = None;
        let mut i: usize = 0;
        while i + 1 < parts.len()
            invariant
                i <= parts.len(),
                ps == texts(parts@),
                ranks == self.ranks(),
                parts.len() >= 1 ==> i < parts.len(),
                match best {
                    Some(b) => {
                        &&& b < i
                        &&& pair_rank(ranks, ps, b as int) == Some(best_rank)
                        &&& best_rank < u32::MAX
                        &&& forall|j: int|
                            0 <= j < i && (#[trigger] pair_rank(ranks, ps, j)) is Some ==> {
                                &&& best_rank <= pair_rank(ranks, ps, j)->0
                                &&& j < b ==> best_rank < pair_rank(ranks, ps, j)->0
                            }
                    },
                    None => best_rank == u32::MAX && forall|j: int|
                        0 <= j < i && (#[trigger] pair_rank(ranks, ps, j)) is Some ==> pair_rank(
                            ranks,
                            ps,
                            j,
                        )->0 == u32::MAX,
                },
            decreases parts.len() - i,
        {
            let mut key: String = parts[i].clone();
            key.push(' ');
            key.append(parts[i + 1].as_str());
            assert(key@ == rule(ps[i as int], ps[i + 1]));
            if let Some(rank) = self.merge_ranks.get(key.as_str()) {
                assert(pair_rank(ranks, ps, i as int) == Some(*rank));
                if *rank < best_rank {
                    best_rank = *rank;
                    best = Some(i);
                }
            } else {
                assert(pair_rank(ranks, ps, i as int) is None);
            }
            i = i + 1;
        }
        best
    }

    /// Encodes a list of pieces, one after the other.
    pub fn encode_pieces(&self, pieces: &Vec<String>) -> (r: Vec<u32>)
        ensures
            r@ == pieces_ids(self.ids(), self.ranks(), self.eos_id, texts(pieces@)),
    {
        let ghost all = texts(pieces@);
        let mut out: Vec<u32> = Vec::new();
        let mut i: usize = 0;
        while i < pieces.len()
            invariant
                i <= pieces.len(),
                all == texts(pieces@),
                out@ == pieces_ids(self.ids(), self.ranks(), self.eos_id, all.take(i as int)),
            decreases pieces.len() - i,
        {
            assert(all.take(i + 1).drop_last() =~= all.take(i as int));
            let mut ids: Vec<u32> = self.bpe_encode_bytes(pieces[i].as_str().as_bytes());
            out.append(&mut ids);
            i = i + 1;
        }
        assert(all.take(i as int) =~= all);
        out
    }

    /// Encodes `text` into token numbers. Puts no begin-of-sequence token in front. Where the
    /// vocabulary is complete, the tokens decode to the text.
    pub fn encode(&self, text: &str) -> (r: Vec<u32>)
        requires
            regex_matches(PRE_TOKEN_PATTERN@, text@) is Some,
        ensures
            r@ == pieces_ids(
                self.ids(),
                self.ranks(),
                self.eos_id,
                regex_matches(PRE_TOKEN_PATTERN@, text@)->0,
            ),
            complete_vocabulary(*self) ==> reads_back(*self, r@, text@),
    {
        match pre_tokenize(text) {
            Some(pieces) => {
                proof {
                    if complete_vocabulary(*self) {
                        complete_vocabularies_round_trip(*self, text@, texts(pieces@));
                    }
                }
                self.encode_pieces(&pieces)
            },
            None => Vec::new(),
        }
    }

    /// Encodes `text` where the pre-tokenization pattern is a regular expression; `None` where
    /// it is not. Asks for the pieces first, since `encode` takes only texts that have them.
    pub fn try_encode(&self, text: &str) -> (r: Option<Vec<u32>>)
        ensures
            match regex_matches(PRE_TOKEN_PATTERN@, text@) {
                Some(pieces) => r matches Some(v) && v@ == pieces_ids(
                    self.ids(),
                    self.ranks(),
                    self.eos_id,
                    pieces,
                ),
                None => r is None,
            },
            complete_vocabulary(*self) ==> (r matches Some(v) ==> reads_back(*self, v@, text@)),
    {
        match pre_tokenize(text) {
            Some(_) => Some(self.encode(text)),
            None => None,
        }
    }
}

/// The keys of a weight file's metadata that hold the tokenizer.
pub const KEY_BOS: &'static str = "tokenizer.ggml.bos_token_id";

pub const KEY_EOS: &'static str = "tokenizer.ggml.eos_token_id";

pub const KEY_TOKENS: &'static str = "tokenizer.ggml.tokens";

pub const KEY_TYPES: &'static str = "tokenizer.ggml.token_type";

pub const KEY_MERGES: &'static str = "tokenizer.ggml.merges";

/// The number under a key of a file's metadata.
pub open spec fn kv_number(f: GgufFile, key: Seq<char>) -> Option<u32> {
    match f.value_of(key, KV_U32) {
        Some(p) => Some(u32_at(f.data@, p)),
        None => None,
    }
}

/// The texts under a key of a file's metadata.
pub open spec fn kv_texts(f: GgufFile, key: Seq<char>) -> Seq<Seq<char>> {
    match f.value_of(key, KV_ARRAY) {
        Some(p) => string_array(f.data@, p),
        None => Seq::empty(),
    }
}

/// The signed numbers under a key of a file's metadata.
pub open spec fn kv_numbers(f: GgufFile, key: Seq<char>) -> Seq<i32> {
    match f.value_of(key, KV_ARRAY) {
        Some(p) => i32_array(f.data@, p),
        None => Seq::empty(),
    }
}

/// What is read of a file to make its tokenizer lies within the file. Nothing is read behind a
/// number that is missing or an empty vocabulary.
pub open spec fn tokenizer_readable(f: GgufFile) -> bool {
    &&& f.value_readable(KEY_BOS@, KV_U32)
    &&& kv_number(f, KEY_BOS@) is Some ==> {
        &&& f.value_readable(KEY_EOS@, KV_U32)
        &&& kv_number(f, KEY_EOS@) is Some ==> {
            &&& f.array_readable(KEY_TOKENS@, KV_STRING)
            &&& kv_texts(f, KEY_TOKENS@).len() > 0 ==> {
                &&& f.array_readable(KEY_TYPES@, KV_I32)
                &&& f.array_readable(KEY_MERGES@, KV_STRING)
            }
        }
    }
}

/// The text `<id>`, for a token that the vocabulary does not hold.
pub open spec fn placeholder(id: u32) -> Seq<char> {
    seq!['<'] + decimal(id as nat) + seq!['>']
}

/// Appends the text `<id>`.
fn push_placeholder(s: &mut String, id: u32)
    ensures
        final(s)@ == old(s)@ + placeholder(id),
{
    s.push('<');
    push_decimal(s, id as u64);
    s.push('>');
    assert(s@ =~= old(s)@ + placeholder(id));
}

impl Tokenizer {
    /// Whether what is read of a file to make its tokenizer lies within the file.
    pub fn can_read(gguf: &GgufFile) -> (r: bool)
        requires
            gguf.wf(),
        ensures
            r == tokenizer_readable(*gguf),
    {
        if !gguf.can_read_value(KEY_BOS, KV_U32) {
            return false;
        }
        if gguf.read_kv_u32(KEY_BOS).is_none() {
            return true;
        }
        if !gguf.can_read_value(KEY_EOS, KV_U32) {
            return false;
        }
        if gguf.read_kv_u32(KEY_EOS).is_none() {
            return true;
        }
        if !gguf.can_read_array(KEY_TOKENS, KV_STRING) {
            return false;
        }
        let vocab: Vec<String> = gguf.read_kv_string_array(KEY_TOKENS);
        assert(texts(vocab@).len() == vocab@.len());
        vocab.len() == 0 || (gguf.can_read_array(KEY_TYPES, KV_I32) && gguf.can_read_array(
            KEY_MERGES,
            KV_STRING,
        ))
    }

    /// Makes the tokenizer that a weight file describes.
    pub fn from_gguf(gguf: &GgufFile) -> (r: Result<Self, TokenizerError>)
        requires
            gguf.wf(),
            tokenizer_readable(*gguf),
        ensures
            match r {
                Ok(t) => {
                    &&& kv_number(*gguf, KEY_BOS@) == Some(t.bos_id)
                    &&& kv_number(*gguf, KEY_EOS@) == Some(t.eos_id)
                    &&& texts(t.vocab@) == kv_texts(*gguf, KEY_TOKENS@)
                    &&& t.vocab@.len() > 0
                    &&& t.token_types@ == kv_numbers(*gguf, KEY_TYPES@)
                    &&& t.wf()
                    &&& t.ranks() == rank_map(kv_texts(*gguf, KEY_MERGES@))
                },
                Err(TokenizerError::MissingBosId) => kv_number(*gguf, KEY_BOS@) is None,
                Err(TokenizerError::MissingEosId) => kv_number(*gguf, KEY_BOS@) is Some
                    && kv_number(*gguf, KEY_EOS@) is None,
                Err(TokenizerError::EmptyVocabulary) => kv_number(*gguf, KEY_BOS@) is Some
                    && kv_number(*gguf, KEY_EOS@) is Some && kv_texts(
                    *gguf,
                    KEY_TOKENS@,
                ).len() == 0,
            },
    {
        let bos_id: u32 = match gguf.read_kv_u32(KEY_BOS) {
            Some(id) => id,
            None => {
                return Err(TokenizerError::MissingBosId);
            },
        };
        let eos_id: u32 = match gguf.read_kv_u32(KEY_EOS) {
            Some(id) => id,
            None => {
                return Err(TokenizerError::MissingEosId);
            },
        };
        let vocab: Vec<String> = gguf.read_kv_string_array(KEY_TOKENS);
        assert(texts(vocab@).len() == vocab@.len());
        if vocab.len() == 0 {
            return Err(TokenizerError::EmptyVocabulary);
        }
        let token_types: Vec<i32> = gguf.read_kv_i32_array(KEY_TYPES);
        let merges: Vec<String> = gguf.read_kv_string_array(KEY_MERGES);
        Ok(Self::new(vocab, token_types, bos_id, eos_id, &merges))
    }

    /// The token marks the beginning or the end of a sequence.
    pub open spec fn is_mark(&self, id: u32) -> bool {
        id == self.bos_id || id == self.eos_id
    }

    /// The token's vocabulary entry is plain text.
    pub open spec fn is_control(&self, id: u32) -> bool {
        id < self.token_types@.len() && self.token_types@[id as int] == CONTROL_TYPE
    }

    /// The bytes that a token adds to a text.
    pub open spec fn bytes_of(&self, id: u32) -> Seq<u8> {
        if self.is_mark(id) {
            Seq::empty()
        } else if id >= self.vocab@.len() {
            encode_utf8(placeholder(id))
        } else if self.is_control(id) {
            encode_utf8(self.vocab@[id as int]@)
        } else {
            token_bytes(self.vocab@[id as int]@)
        }
    }

    /// The bytes that a list of tokens adds to a text.
    pub open spec fn bytes_of_all(&self, ids: Seq<u32>) -> Seq<u8>
        decreases ids.len(),
    {
        if ids.len() == 0 {
            Seq::empty()
        } else {
            self.bytes_of_all(ids.drop_last()) + self.bytes_of(ids.last())
        }
    }

    /// Whether the token's vocabulary entry is plain text.
    fn has_control_type(&self, id: u32) -> (r: bool)
        ensures
            r == self.is_control(id),
    {
        let ty: i32 = if (id as usize) < self.token_types.len() {
            self.token_types[id as usize]
        } else {
            NORMAL_TYPE
        };
        ty == CONTROL_TYPE
    }

    /// Decodes a single token to text. The marks of beginning and end give no text.
    pub fn decode_token(&self, id: u32) -> (r: String)
        ensures
            if self.is_mark(id) {
                r@ == Seq::<char>::empty()
            } else if id >= self.vocab@.len() {
                r@ == placeholder(id)
            } else if self.is_control(id) {
                r@ == self.vocab@[id as int]@
            } else {
                &&& r@ == utf8_lossy(token_bytes(self.vocab@[id as int]@))
                &&& valid_utf8(token_bytes(self.vocab@[id as int]@)) ==> r@ == decode_utf8(
                    token_bytes(self.vocab@[id as int]@),
                )
            },
    {
        if id == self.bos_id || id == self.eos_id {
            return String::new();
        }
        if id as usize >= self.vocab.len() {
            let mut s: String = String::new();
            push_placeholder(&mut s, id);
            assert(Seq::<char>::empty() + placeholder(id) =~= placeholder(id));
            return s;
        }
        if self.has_control_type(id) {
            return self.vocab[id as usize].clone();
        }
        let bytes: Vec<u8> = gpt2_token_to_bytes(self.vocab[id as usize].as_str());
        lossy_string(bytes.as_slice())
    }

    /// Decodes a list of tokens to text.
    pub fn decode(&self, ids: &[u32]) -> (r: String)
        ensures
            r@ == utf8_lossy(self.bytes_of_all(ids@)),
            valid_utf8(self.bytes_of_all(ids@)) ==> r@ == decode_utf8(self.bytes_of_all(ids@)),
    {
        let mut all: Vec<u8> = Vec::new();
        let mut i: usize = 0;
        while i < ids.len()
            invariant
                i <= ids.len(),
                all@ == self.bytes_of_all(ids@.take(i as int)),
            decreases ids.len() - i,
        {
            let id: u32 = ids[i];
            let ghost before = all@;
            assert(ids@.take(i + 1).drop_last() =~= ids@.take(i as int));
            if id == self.bos_id || id == self.eos_id {
                assert(before + self.bytes_of(id) =~= before);
            } else if id as usize >= self.vocab.len() {
                let mut s: String = String::new();
                push_placeholder(&mut s, id);
                assert(Seq::<char>::empty() + placeholder(id) =~= placeholder(id));
                all.extend_from_slice(s.as_str().as_bytes());
                assert(all@ =~= before + self.bytes_of(id));
            } else if self.has_control_type(id) {
                all.extend_from_slice(self.vocab[id as usize].as_str().as_bytes());
                assert(all@ =~= before + self.bytes_of(id));
            } else {
                let bytes: Vec<u8> = gpt2_token_to_bytes(self.vocab[id as usize].as_str());
                all.extend_from_slice(bytes.as_slice());
                assert(all@ =~= before + self.bytes_of(id));
            }
            i = i + 1;
        }
        assert(ids@.take(i as int) =~= ids@);
        lossy_string(all.as_slice())
    }
}

/// Splits a text into the pieces that are encoded separately, which spell the text; `None` where
/// the pattern is no regular expression.
pub fn pre_tokenize(text: &str) -> (r: Option<Vec<String>>)
    ensures
        match r {
            Some(v) => {
                &&& regex_matches(PRE_TOKEN_PATTERN@, text@) == Some(texts(v@))
                &&& joined(texts(v@)) == text@
            },
            None => regex_matches(PRE_TOKEN_PATTERN@, text@) is None,
        },
{
    let pieces: Option<Vec<String>> = find_matches(PRE_TOKEN_PATTERN, text);
    proof {
        if pieces is Some {
            pieces_spell_the_text(text@, texts(pieces->0@));
        }
    }
    pieces
}

/// Whether a text holds a space.
fn has_space(s: &str) -> (r: bool)
    ensures
        r == s@.contains(' '),
{
    let mut found: bool = false;
    for c in it: s.chars()
        invariant
            it.seq() == s@,
            found <==> exists|j: int| 0 <= j < it.index() && s@[j] == ' ',
    {
        if c == ' ' {
            found = true;
        }
    }
    found
}

} // verus!
