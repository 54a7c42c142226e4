//! Encoding and decoding of text.
use deepseek_engine::chat::{
    context_full, encode_turn, frame_turn, greedy, session_token, Action, Answer, TOK_ASST,
    TOK_ETHINK, TOK_THINK, TOK_USER,
};
use deepseek_engine::gguf::GgufFile;
use deepseek_engine::tokenizer::{
    byte_to_unicode, gpt2_token_to_bytes, pre_tokenize, Tokenizer, TokenizerError,
};

#[test]
fn byte_to_unicode_space() {
    assert_eq!(byte_to_unicode(32), '\u{0120}'); // Ġ
}
#[test]
fn byte_to_unicode_newline() {
    assert_eq!(byte_to_unicode(10), '\u{010A}'); // Ċ
}
#[test]
fn byte_to_unicode_ascii_letter() {
    assert_eq!(byte_to_unicode(b'A'), 'A');
}

#[test]
fn gpt2_decode_space() {
    assert_eq!(gpt2_token_to_bytes("Ġ"), vec![b' ']);
}
#[test]
fn gpt2_decode_newline() {
    assert_eq!(gpt2_token_to_bytes("Ċ"), vec![b'\n']);
}
#[test]
fn gpt2_decode_word_with_space() {
    assert_eq!(gpt2_token_to_bytes("Ġthe"), b" the");
}
#[test]
fn gpt2_decode_ascii_token() {
    assert_eq!(gpt2_token_to_bytes("import"), b"import");
}

#[test]
fn pre_tokenize_simple() {
    // "Hello, world!" should split into ["Hello", ",", " world", "!"]
    let pieces = pre_tokenize("Hello, world!").unwrap();
    assert_eq!(pieces, vec!["Hello", ",", " world", "!"]);
}

#[test]
fn pre_tokenize_leading_space() {
    // Leading space attaches to following word
    let pieces = pre_tokenize(" hello").unwrap();
    assert_eq!(pieces, vec![" hello"]);
}

#[test]
fn pre_tokenize_numbers() {
    // Numbers split into groups of up to 3 digits
    let pieces = pre_tokenize("12345").unwrap();
    assert_eq!(pieces, vec!["123", "45"]);
}

#[test]
fn pre_tokenize_contractions() {
    let pieces = pre_tokenize("don't").unwrap();
    assert_eq!(pieces, vec!["don", "'t"]);
}

#[test]
fn every_byte_has_a_letter_of_its_own() {
    let mut seen = Vec::new();
    for b in 0..=255u8 {
        let c = byte_to_unicode(b);
        assert!(!seen.contains(&c), "{b}");
        seen.push(c);
        let mut s = String::new();
        s.push(c);
        assert_eq!(gpt2_token_to_bytes(&s), vec![b]);
    }
}

#[test]
fn letters_outside_the_alphabet_pass_through() {
    assert_eq!(gpt2_token_to_bytes("你"), "你".as_bytes());
    assert_eq!(gpt2_token_to_bytes("｜"), "｜".as_bytes());
}

fn strings(words: &[&str]) -> Vec<String> {
    words.iter().map(|w| w.to_string()).collect()
}

/// A vocabulary of all single bytes and a few joined parts.
fn tokenizer() -> Tokenizer {
    let mut vocab: Vec<String> = vec!["<bos>".to_string(), "<eos>".to_string()];
    for b in 0..=255u8 {
        let mut s = String::new();
        s.push(byte_to_unicode(b));
        vocab.push(s);
    }
    vocab.extend(strings(&["he", "ll", "hell", "hello", "Ġw", "Ġwo"]));
    let merges = strings(&["h e", "l l", "he ll", "hell o", "Ġ w", "Ġw o"]);
    let mut types = vec![3, 3];
    types.resize(vocab.len(), 1);
    Tokenizer::new(vocab, types, 0, 1, &merges)
}

fn byte_id(b: u8) -> u32 {
    2 + b as u32
}

#[test]
fn merges_join_by_rank() {
    let tok = tokenizer();
    let joined: u32 = 2 + 256;
    assert_eq!(tok.bpe_encode_bytes(b"hello"), vec![joined + 3]);
    // The rule of the lowest rank goes first: "he" before "hell" can be built.
    assert_eq!(tok.bpe_encode_bytes(b"hel"), vec![joined, byte_id(b'l')]);
    assert_eq!(tok.bpe_encode_bytes(b" wo"), vec![joined + 5]);
    assert_eq!(tok.bpe_encode_bytes(b"xyz"), vec![byte_id(b'x'), byte_id(b'y'), byte_id(b'z')]);
    assert!(tok.bpe_encode_bytes(b"").is_empty());
}

#[test]
fn pieces_are_encoded_one_after_the_other() {
    let tok = tokenizer();
    let joined: u32 = 2 + 256;
    assert_eq!(tok.encode_pieces(&strings(&["hello", " wo"])), vec![joined + 3, joined + 5]);
    // No begin-of-sequence token is put in front.
    assert_eq!(tok.encode("hello wo"), vec![joined + 3, joined + 5]);
    assert_eq!(tok.try_encode("hello wo"), Some(vec![joined + 3, joined + 5]));
}

#[test]
fn parts_outside_the_vocabulary_become_the_end_mark() {
    let tok = Tokenizer::new(strings(&["<bos>", "<eos>", "a"]), vec![3, 3, 1], 0, 1, &vec![]);
    assert_eq!(tok.bpe_encode_bytes(b"ab"), vec![2, 1]);
}

#[test]
fn encoding_then_decoding_gives_the_text_back() {
    let tok = tokenizer();
    for text in ["Hello, world!", "import os\nprint('hi')", "Write a haiku", "你好世界", "a  b\t1234"] {
        let ids = tok.encode(text);
        assert!(!ids.contains(&tok.bos_id));
        assert!(!ids.contains(&tok.eos_id));
        assert_eq!(tok.decode(&ids), text);
    }
}

#[test]
fn marks_decode_to_nothing() {
    let tok = tokenizer();
    assert_eq!(tok.decode_token(0), "");
    assert_eq!(tok.decode_token(1), "");
    assert_eq!(tok.decode(&[0, byte_id(b'a'), 1, byte_id(b'b')]), "ab");
}

#[test]
fn numbers_past_the_vocabulary_are_shown_as_such() {
    let tok = Tokenizer::new(strings(&["<bos>", "<eos>", "a"]), vec![3, 3, 1], 0, 1, &vec![]);
    assert_eq!(tok.decode_token(2), "a");
    let shown = tok.decode_token(17);
    assert!(shown.contains("17"), "{shown}");
}

#[test]
fn bytes_that_are_not_utf8_decode_to_the_replacement_letter() {
    let tok = tokenizer();
    assert_eq!(tok.decode(&[byte_id(0xC3)]), "\u{FFFD}");
    // The two halves of a letter decode together.
    assert_eq!(tok.decode(&[byte_id(0xC3), byte_id(0xBC)]), "ü");
}

fn file_with(entries: &[(&str, Vec<u8>)]) -> Vec<u8> {
    let mut out = Vec::new();
    out.extend_from_slice(&0x46554747u32.to_le_bytes());
    out.extend_from_slice(&3u32.to_le_bytes());
    out.extend_from_slice(&0u64.to_le_bytes());
    out.extend_from_slice(&(entries.len() as u64).to_le_bytes());
    for (key, value) in entries {
        out.extend_from_slice(&(key.len() as u64).to_le_bytes());
        out.extend_from_slice(key.as_bytes());
        out.extend_from_slice(value);
    }
    out
}

fn number(v: u32) -> Vec<u8> {
    let mut out = 4u32.to_le_bytes().to_vec();
    out.extend_from_slice(&v.to_le_bytes());
    out
}

fn texts(words: &[&str]) -> Vec<u8> {
    let mut out = 9u32.to_le_bytes().to_vec();
    out.extend_from_slice(&8u32.to_le_bytes());
    out.extend_from_slice(&(words.len() as u64).to_le_bytes());
    for w in words {
        out.extend_from_slice(&(w.len() as u64).to_le_bytes());
        out.extend_from_slice(w.as_bytes());
    }
    out
}

fn numbers(vs: &[i32]) -> Vec<u8> {
    let mut out = 9u32.to_le_bytes().to_vec();
    out.extend_from_slice(&5u32.to_le_bytes());
    out.extend_from_slice(&(vs.len() as u64).to_le_bytes());
    for v in vs {
        out.extend_from_slice(&v.to_le_bytes());
    }
    out
}

#[test]
fn tokenizers_are_read_from_files() {
    let bytes = file_with(&[
        ("tokenizer.ggml.bos_token_id", number(0)),
        ("tokenizer.ggml.eos_token_id", number(1)),
        ("tokenizer.ggml.tokens", texts(&["<b>", "<e>", "a", "b", "ab"])),
        ("tokenizer.ggml.token_type", numbers(&[3, 3, 1, 1, 1])),
        ("tokenizer.ggml.merges", texts(&["a b"])),
    ]);
    let gguf = GgufFile::parse(&bytes).unwrap();
    let tok = Tokenizer::from_gguf(&gguf).unwrap();
    assert_eq!(tok.bos_id, 0);
    assert_eq!(tok.eos_id, 1);
    assert_eq!(tok.vocab.len(), 5);
    assert_eq!(tok.encode("ab"), vec![4]);
    assert_eq!(tok.decode(&[0, 4]), "ab");
}

#[test]
fn incomplete_tokenizers_are_refused() {
    let bytes = file_with(&[("tokenizer.ggml.eos_token_id", number(1))]);
    let r = Tokenizer::from_gguf(&GgufFile::parse(&bytes).unwrap());
    assert!(matches!(r, Err(TokenizerError::MissingBosId)));
    let bytes = file_with(&[("tokenizer.ggml.bos_token_id", number(1))]);
    let r = Tokenizer::from_gguf(&GgufFile::parse(&bytes).unwrap());
    assert!(matches!(r, Err(TokenizerError::MissingEosId)));
    let bytes = file_with(&[
        ("tokenizer.ggml.bos_token_id", number(0)),
        ("tokenizer.ggml.eos_token_id", number(1)),
    ]);
    let r = Tokenizer::from_gguf(&GgufFile::parse(&bytes).unwrap());
    assert!(matches!(r, Err(TokenizerError::EmptyVocabulary)));
}

#[test]
fn turns_stand_between_marks() {
    let tok = tokenizer();
    let joined: i32 = 2 + 256;
    assert_eq!(encode_turn(&tok, "hello"), Some(vec![TOK_USER, joined + 3, TOK_ASST]));
    assert_eq!(frame_turn(&vec![]), vec![TOK_USER, TOK_ASST]);
    assert_eq!(session_token(7), 7);
    assert_eq!(session_token(u32::MAX), -1);
}

fn bits(vs: &[f32]) -> Vec<u32> {
    vs.iter().map(|v| v.to_bits()).collect()
}

#[test]
fn greedy_takes_the_last_of_the_highest() {
    assert_eq!(greedy(&bits(&[1.0, 5.0, -3.0, 5.0, 2.0])), 3);
    assert_eq!(greedy(&bits(&[-1.0, -5.0, -3.0])), 0);
    assert_eq!(greedy(&bits(&[0.0, -0.0])), 1);
    assert_eq!(greedy(&bits(&[f32::NEG_INFINITY, f32::INFINITY, 1.0e38])), 1);
    assert_eq!(greedy(&[]), 0);
}

#[test]
fn answers_end_at_the_end_mark_or_when_long_enough() {
    let mut a = Answer::new(2);
    assert_eq!(a.step(5, 9), Action::Show { line_break: false, dim: false });
    assert_eq!(a.step(9, 9), Action::Stop);
    assert_eq!(a.count, 1);
    assert_eq!(a.step(6, 9), Action::Show { line_break: false, dim: false });
    assert_eq!(a.step(7, 9), Action::Stop);
    assert_eq!(a.count, 2);
}

#[test]
fn thinking_is_dimmed() {
    let mut a = Answer::new(100);
    assert_eq!(a.step(1, 9), Action::Show { line_break: false, dim: false });
    assert_eq!(a.step(TOK_THINK, 9), Action::Show { line_break: false, dim: true });
    assert_eq!(a.step(2, 9), Action::Show { line_break: false, dim: true });
    assert_eq!(a.step(TOK_ETHINK, 9), Action::Show { line_break: true, dim: false });
    assert_eq!(a.step(3, 9), Action::Show { line_break: false, dim: false });
}

#[test]
fn contexts_are_full_one_token_early() {
    assert!(!context_full(6, 8));
    assert!(context_full(7, 8));
    assert!(context_full(8, 8));
}

#[test]
fn pieces_of_a_text_spell_it() {
    for text in ["Hello, world!", "import os\nprint('hi')", "don't  stop\t2024年", " ", ""] {
        let pieces = pre_tokenize(text).unwrap();
        assert_eq!(pieces.concat(), text);
    }
}
