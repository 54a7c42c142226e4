//! What tokens stand for.
use vstd::prelude::*;
use vstd::utf8::{encode_scalar, encode_utf8};

use crate::engine_laws::{numbers_read_back, read_decimal};
use crate::text::decimal;
use crate::tokenizer::{
    char_bytes, placeholder, token_bytes, unicode_of, Tokenizer, KEY_BOS, KEY_EOS, KEY_MERGES,
    KEY_TOKENS, KEY_TYPES,
};

verus! {

/// A token that the vocabulary does not hold is written as its number between angle brackets.
pub proof fn unknown_tokens_show_their_number(id: u32)
    ensures
        ({
            let s = placeholder(id);
            &&& s.len() >= 3
            &&& s[0] == '<'
            &&& s.last() == '>'
            &&& read_decimal(s.subrange(1, s.len() - 1)) == id
            &&& forall|i: int| 0 < i < s.len() - 1 ==> '0' <= #[trigger] s[i] <= '9'
        }),
{
    let s = placeholder(id);
    let d = decimal(id as nat);
    numbers_read_back(id as nat);
    assert(s.subrange(1, s.len() - 1) =~= d);
    assert forall|i: int| 0 < i < s.len() - 1 implies '0' <= #[trigger] s[i] <= '9' by {
        assert(s[i] == d[i - 1]);
    }
}

/// The marks of beginning and end stand for nothing. An entry of type 3 stands for itself, and any
/// other entry for the bytes of its letters; behind the vocabulary there are no entries.
pub proof fn tokens_stand_for_their_entry(t: Tokenizer, id: u32)
    ensures
        id == t.bos_id || id == t.eos_id ==> t.bytes_of(id) == Seq::<u8>::empty(),
        id != t.bos_id && id != t.eos_id ==> {
            &&& id >= t.vocab@.len() ==> t.bytes_of(id) == encode_utf8(placeholder(id))
            &&& id < t.vocab@.len() && id < t.token_types@.len() && t.token_types@[id as int] == 3
                ==> t.bytes_of(id) == encode_utf8(t.vocab@[id as int]@)
            &&& id < t.vocab@.len() && (id >= t.token_types@.len() || t.token_types@[id as int]
                != 3) ==> t.bytes_of(id) == token_bytes(t.vocab@[id as int]@)
        },
{
}

/// A letter of the alphabet of bytes stands for its byte, and any other character for its own
/// encoding. The letters of two texts stand for their bytes in turn.
pub proof fn letters_stand_for_bytes(c: char, b: u8, s: Seq<char>, r: Seq<char>)
    ensures
        unicode_of(b) == c ==> char_bytes(c).len() == 1 && unicode_of(char_bytes(c)[0]) == c,
        (forall|b: u8| #[trigger] unicode_of(b) != c) ==> char_bytes(c) == encode_scalar(c as u32),
        token_bytes(seq![c]) == char_bytes(c),
        token_bytes(s + r) == token_bytes(s) + token_bytes(r),
    decreases r.len(),
{
    assert(seq![c].drop_last() =~= Seq::<char>::empty());
    assert(token_bytes(Seq::<char>::empty()) =~= Seq::<u8>::empty());
    assert(token_bytes(seq![c]) =~= char_bytes(c));
    if r.len() == 0 {
        assert(s + r =~= s);
        assert(token_bytes(s) + token_bytes(r) =~= token_bytes(s));
    } else {
        letters_stand_for_bytes(c, b, s, r.drop_last());
        assert((s + r).drop_last() =~= s + r.drop_last());
        assert(token_bytes(s + r) =~= token_bytes(s) + token_bytes(r));
    }
}

/// The tokenizer of a file stands under these keys.
pub proof fn tokenizers_stand_under_these_keys()
    ensures
        KEY_BOS@ == "tokenizer.ggml.bos_token_id"@,
        KEY_EOS@ == "tokenizer.ggml.eos_token_id"@,
        KEY_TOKENS@ == "tokenizer.ggml.tokens"@,
        KEY_TYPES@ == "tokenizer.ggml.token_type"@,
        KEY_MERGES@ == "tokenizer.ggml.merges"@,
{
}

} // verus!
