use std::collections::HashSet;

use pulsar::bytemap::{gpt2_byte_to_char, gpt2_char_to_byte};
use pulsar::chat::ChatMarkers;
use pulsar::gguf::{Gguf, MetaValue};
use pulsar::glm4::pretokenize_glm4;
use pulsar::kimi::pretokenize_kimi_k2;
use pulsar::pretokenize::pretokenize;
use pulsar::tokenizer::{Error, Tokenizer};

#[test]
fn kimi_k2_han_runs_and_inline_contractions() {
    let toks = pretokenize_kimi_k2("Hello\u{4f60}\u{597d}world don't 123".as_bytes());
    let strs: Vec<&str> = toks.iter().map(|t| std::str::from_utf8(t).unwrap()).collect();
    // Han run splits alone; contraction stays attached to its word
    assert_eq!(strs, vec!["Hello", "\u{4f60}\u{597d}", "world", " don't", " ", "123"]);
}

#[test]
fn byte_char_map_is_a_bijection() {
    let mut seen = HashSet::new();
    for b in 0..=255u8 {
        assert!(seen.insert(gpt2_byte_to_char(b)));
    }
    // spot checks against the canonical GPT-2 table
    assert_eq!(gpt2_byte_to_char(b' '), '\u{120}');
    assert_eq!(gpt2_byte_to_char(b'\n'), '\u{10a}');
    assert_eq!(gpt2_byte_to_char(b'!'), '!');
}

#[test]
fn pretokenize_splits_leading_space_runs() {
    let pieces: Vec<&[u8]> = pretokenize(b"    int x");
    assert_eq!(pieces, vec![&b"   "[..], &b" int"[..], &b" x"[..]]);
}

#[test]
fn pretokenize_groups_digits_by_three() {
    let pieces: Vec<&[u8]> = pretokenize(b"12345");
    assert_eq!(pieces, vec![&b"123"[..], &b"45"[..]]);
}

#[test]
fn pretokenize_keeps_newlines_with_punct() {
    let pieces: Vec<&[u8]> = pretokenize(b"x;\ny");
    assert_eq!(pieces, vec![&b"x"[..], &b";\n"[..], &b"y"[..]]);
}

#[test]
fn glm4_splits_contractions() {
    let pieces: Vec<&[u8]> = pretokenize_glm4(b"I'll don't");
    assert_eq!(pieces, vec![&b"I"[..], &b"'ll"[..], &b" don"[..], &b"'t"[..]]);
}

#[test]
fn glm4_groups_digits_by_three() {
    let pieces: Vec<&[u8]> = pretokenize_glm4(b"12345");
    assert_eq!(pieces, vec![&b"123"[..], &b"45"[..]]);
}

#[test]
fn glm4_leading_space_joins_word_and_punct_keeps_newline() {
    let pieces: Vec<&[u8]> = pretokenize_glm4(b"a b;\nc");
    assert_eq!(pieces, vec![&b"a"[..], &b" b"[..], &b";\n"[..], &b"c"[..]]);
}

#[test]
fn glm4_whitespace_run_leaves_last_for_next_word() {
    let pieces: Vec<&[u8]> = pretokenize_glm4(b"a    b");
    assert_eq!(pieces, vec![&b"a"[..], &b"   "[..], &b" b"[..]]);
}

#[test]
fn every_cut_rejoins_to_the_text() {
    let samples: [&[u8]; 6] = [
        b"",
        b"  \n\n  x",
        "caf\u{e9} na\u{ef}ve \u{4f60}\u{597d} \u{3042}\u{30a2}!".as_bytes(),
        b"\xff\xfe broken \xe4\xbd",
        b"we've 1234567 tests;\r\n\tdone.",
        "\u{00a0}\u{2003} spaced \u{0661}\u{0662}\u{0663}\u{0664}".as_bytes(),
    ];
    for s in samples {
        for pieces in [pretokenize(s), pretokenize_glm4(s), pretokenize_kimi_k2(s)] {
            assert!(pieces.iter().all(|p| !p.is_empty()));
            assert_eq!(pieces.concat(), s);
        }
    }
}

#[test]
fn bytes_come_back_from_their_characters() {
    for b in 0..=255u8 {
        assert_eq!(gpt2_char_to_byte(gpt2_byte_to_char(b)), Some(b));
    }
    assert_eq!(gpt2_char_to_byte('\u{4f60}'), None);
    assert_eq!(gpt2_char_to_byte('\u{144}'), None);
    assert_eq!(gpt2_byte_to_char(173), '\u{143}');
}

fn text(s: &str) -> MetaValue {
    MetaValue { unsigned: None, real: None, text: Some(s.to_string()), flag: None, items: None }
}

fn number(n: u64) -> MetaValue {
    MetaValue { unsigned: Some(n), real: None, text: None, flag: None, items: None }
}

fn list(items: Vec<MetaValue>) -> MetaValue {
    MetaValue { unsigned: None, real: None, text: None, flag: None, items: Some(items) }
}

fn header(extra: &[&str], merges: &[&str], pre: Option<&str>) -> Gguf {
    let mut tokens: Vec<MetaValue> =
        (0..=255u8).map(|b| text(&gpt2_byte_to_char(b).to_string())).collect();
    tokens.extend(extra.iter().map(|t| text(t)));
    let mut g = Gguf::new(Some("hy-v3".to_string()), 0);
    g.set("tokenizer.ggml.tokens".to_string(), list(tokens));
    g.set("tokenizer.ggml.merges".to_string(), list(merges.iter().map(|m| text(m)).collect()));
    g.set("tokenizer.ggml.bos_token_id".to_string(), number(256));
    g.set("tokenizer.ggml.eos_token_id".to_string(), number(257));
    if let Some(p) = pre {
        g.set("tokenizer.ggml.pre".to_string(), text(p));
    }
    g
}

const HY3: [&str; 6] = [
    "<s>",
    "</s>",
    "<\u{ff5c}hy_User:opensource\u{ff5c}>",
    "<\u{ff5c}hy_Assistant:opensource\u{ff5c}>",
    "<think:opensource>",
    "</think:opensource>",
];

#[test]
fn merges_go_lowest_rank_first() {
    // ranks: "l l" before "h e" before "he ll" before "hell o"
    let g = header(
        &["<s>", "</s>", "he", "ll", "hell", "hello", "el"],
        &["l l", "h e", "he ll", "hell o", "e l"],
        None,
    );
    let t = Tokenizer::from_gguf(&g).ok().unwrap();
    assert_eq!(t.n_vocab(), 263);
    assert_eq!(t.encode("hello"), vec![261]);
    assert_eq!(t.encode("hell"), vec![260]);
    assert_eq!(t.encode("hel"), vec![258, b'l' as u32]);
    assert_eq!(t.encode(""), Vec::<u32>::new());
    assert_eq!(t.token_str(261), Some("hello"));
    assert_eq!(t.token_str(263), None);
    assert_eq!(t.find_token("hell"), Some(260));
    assert_eq!(t.find_token("nope"), None);
}

#[test]
fn a_merged_symbol_that_is_no_token_falls_back_to_its_characters() {
    let g = header(&["<s>", "</s>"], &["a b"], None);
    let t = Tokenizer::from_gguf(&g).ok().unwrap();
    assert_eq!(t.encode("ab"), vec![b'a' as u32, b'b' as u32]);
}

#[test]
fn the_last_of_equal_tokens_counts() {
    let g = header(&["<s>", "</s>", "ab", "ab"], &["a b"], None);
    let t = Tokenizer::from_gguf(&g).ok().unwrap();
    assert_eq!(t.encode("ab"), vec![259]);
}

#[test]
fn text_survives_encoding_and_decoding() {
    for pre in [None, Some("glm4"), Some("kimi-k2"), Some("hunyuan-dense")] {
        let g = header(&["<s>", "</s>", "he", "ll"], &["h e", "l l"], pre);
        let t = Tokenizer::from_gguf(&g).ok().unwrap();
        for s in ["hello, world", "caf\u{e9} \u{4f60}\u{597d}\n\n 42", "\u{1f600}!\t"] {
            assert_eq!(t.decode(&t.encode(s)), s.as_bytes());
        }
    }
}

#[test]
fn decoding_passes_other_characters_through_and_skips_unknown_ids() {
    let g = header(&["<s>", "</s>", "\u{4f60}x"], &[], None);
    let t = Tokenizer::from_gguf(&g).ok().unwrap();
    assert_eq!(t.decode(&[258, 9999, b'!' as u32]), "\u{4f60}x!".as_bytes());
    assert_eq!(t.decode(&[32]), b" ");
}

#[test]
fn a_header_without_vocabulary_is_refused() {
    let g = Gguf::new(None, 0);
    match Tokenizer::from_gguf(&g) {
        Err(e) => assert_eq!(e.message(), "gguf metadata is missing tokenizer.ggml.tokens"),
        Ok(_) => panic!("no vocabulary"),
    }
    let mut g = Gguf::new(None, 0);
    g.set("tokenizer.ggml.tokens".to_string(), list(vec![text("a"), number(3)]));
    match Tokenizer::from_gguf(&g) {
        Err(Error::BadKey(k)) => assert_eq!(k, "tokenizer.ggml.tokens"),
        _ => panic!("a token that is no text"),
    }
    let mut g = Gguf::new(None, 0);
    g.set("tokenizer.ggml.tokens".to_string(), list(vec![text("a")]));
    match Tokenizer::from_gguf(&g) {
        Err(e) => assert_eq!(e.message(), "gguf metadata is missing tokenizer.ggml.merges"),
        Ok(_) => panic!("no merges"),
    }
    assert_eq!(
        Error::BadKey("k").message(),
        "gguf metadata key k has the wrong shape"
    );
}

#[test]
fn hy3_turns_are_laid_out_by_marker() {
    let g = header(&HY3, &[], None);
    let t = Tokenizer::from_gguf(&g).ok().unwrap();
    let m = ChatMarkers::resolve(&t).ok().unwrap();
    assert_eq!((m.bos, m.eos, m.eot), (256, 257, None));
    assert_eq!(m.prologue(), vec![256]);
    assert_eq!(m.render_system(&t, "ab"), vec![97, 98]);
    assert_eq!(m.render_user(&t, "a"), vec![258, 97]);
    assert_eq!(m.open_assistant(&t), vec![259, 260, 261]);
    assert_eq!(m.render_user_turn(&t, "a"), vec![258, 97, 259, 260, 261]);
    assert_eq!(m.render_assistant_history(&t, "b"), vec![259, 260, 261, 98, 257]);
    assert!(m.is_stop(257));
    assert!(!m.is_stop(256));
}

#[test]
fn hy3_turns_end_the_sequence() {
    let mut g = header(&HY3, &[], None);
    g.set(
        "tokenizer.ggml.eot_token_id".to_string(),
        MetaValue { unsigned: Some(258), real: None, text: None, flag: None, items: None },
    );
    let t = Tokenizer::from_gguf(&g).ok().unwrap();
    let m = ChatMarkers::resolve(&t).ok().unwrap();
    assert_eq!((m.eos, m.eot), (257, Some(258)));
    assert_eq!(m.render_assistant_history(&t, "b").last(), Some(&257));
    assert!(m.is_stop(257) && m.is_stop(258));
}

#[test]
fn a_chat_has_the_ids_of_its_history() {
    let g = header(&HY3, &[], None);
    let t = Tokenizer::from_gguf(&g).ok().unwrap();
    let m = ChatMarkers::resolve(&t).ok().unwrap();
    assert_eq!(m.begin_chat(&t, None, "a"), vec![256, 258, 97, 259, 260, 261]);
    let mut ids = m.begin_chat(&t, Some("s"), "a");
    assert_eq!(ids, vec![256, 115, 258, 97, 259, 260, 261]);
    ids.extend(t.encode("b"));
    assert_eq!(m.continue_chat(&t, true, "c"), vec![258, 99, 259, 260, 261]);
    ids.extend(m.continue_chat(&t, false, "c"));
    let mut want = m.prologue();
    want.extend(m.render_system(&t, "s"));
    want.extend(m.render_user(&t, "a"));
    want.extend(m.render_assistant_history(&t, "b"));
    want.extend(m.render_user_turn(&t, "c"));
    assert_eq!(ids, want);
}

#[test]
fn kimi_turns_are_laid_out_by_marker() {
    let g = header(
        &["<s>", "</s>", "<|im_middle|>", "<|im_end|>", "<|im_user|>", "<|im_assistant|>", "<|im_system|>"],
        &[],
        Some("kimi-k2"),
    );
    let t = Tokenizer::from_gguf(&g).ok().unwrap();
    let m = ChatMarkers::resolve(&t).ok().unwrap();
    assert_eq!(m.eot, Some(259));
    let mut want = vec![260];
    want.extend(t.encode("user"));
    want.push(258);
    want.extend(t.encode("hi"));
    want.push(259);
    assert_eq!(m.render_user(&t, "hi"), want);
    let sys = m.render_system(&t, "x");
    assert_eq!((sys[0], sys[7], sys[8], sys[9]), (262, 258, b'x' as u32, 259));
    let open = m.open_assistant(&t);
    assert_eq!((open[0], open[10]), (261, 258));
    assert_eq!(&t.decode(&open[11..]), b"<think></think>");
    assert_eq!(m.render_assistant_history(&t, "y").last(), Some(&259));
    assert!(m.is_stop(259) && m.is_stop(257) && !m.is_stop(260));
}

#[test]
fn the_first_missing_marker_is_named() {
    let g = header(&HY3[..4], &[], None);
    let t = Tokenizer::from_gguf(&g).ok().unwrap();
    match ChatMarkers::resolve(&t) {
        Err(Error::MissingKey(k)) => assert_eq!(k, "<think:opensource>"),
        _ => panic!("a marker is missing"),
    }
}
