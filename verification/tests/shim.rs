use std::sync::Arc;

use tiktoken_shim::cache::EncodingCache;
use tiktoken_shim::calls::{
    count_found, count_with_encoding, count_with_model, decode_found, decode_with_encoding,
    decode_with_model, encode_found, encode_with_encoding, encode_with_model, encoding_name_for_model,
    lookup_encoding,
};
use tiktoken_shim::encoding::{count_tokens, decode_tokens, encode_allowing, encode_tokens, Vocabularies};
use tiktoken_shim::number::{parse_u32, IntErrorKind};
use tiktoken_shim::output::{into_token_buffer, replace_nul, version_string, SHIM_VERSION};
use tiktoken_shim::registry::{
    encoding_spec, resolve_encoding_name_for_model, VocabFile, EXACT_MODEL_ENCODINGS,
    PREFIX_MODEL_ENCODINGS,
};
use tiktoken_shim::special::{
    disallowed_special_token_error, first_disallowed_special, parse_c_string,
    parse_special_token_list, RawText, SpecialMode,
};
use tiktoken_shim::special_tokens::{
    sorted_token_names, special_tokens_cl100k_base, special_tokens_o200k_harmony,
    special_tokens_p50k_edit, special_tokens_r50k_base, SpecialTokenSet,
};
use tiktoken_shim::vocab::load_tiktoken_bpe;

// "a" -> 0, "b" -> 1, "ab" -> 2
const SMALL_VOCAB: &[u8] = b"YQ== 0\nYg== 1\nYWI= 2\n";

fn small_vocabs() -> Vocabularies<'static> {
    Vocabularies {
        r50k_base: SMALL_VOCAB,
        p50k_base: SMALL_VOCAB,
        cl100k_base: SMALL_VOCAB,
        o200k_base: SMALL_VOCAB,
    }
}

fn err<T: std::fmt::Debug>(r: Result<T, String>) -> String {
    r.unwrap_err()
}

#[test]
fn resolves_exact_model_names() {
    assert_eq!(resolve_encoding_name_for_model("gpt-4o").unwrap(), "o200k_base");
    assert_eq!(resolve_encoding_name_for_model("gpt-4").unwrap(), "cl100k_base");
    assert_eq!(resolve_encoding_name_for_model("text-davinci-003").unwrap(), "p50k_base");
    assert_eq!(resolve_encoding_name_for_model("davinci").unwrap(), "r50k_base");
    assert_eq!(resolve_encoding_name_for_model("code-davinci-edit-001").unwrap(), "p50k_edit");
    assert_eq!(resolve_encoding_name_for_model("gpt-2").unwrap(), "gpt2");
}

#[test]
fn resolves_model_prefixes_after_exact_names() {
    assert_eq!(resolve_encoding_name_for_model("gpt-4o-mini").unwrap(), "o200k_base");
    assert_eq!(resolve_encoding_name_for_model("gpt-4-turbo").unwrap(), "cl100k_base");
    assert_eq!(resolve_encoding_name_for_model("gpt-oss-20b").unwrap(), "o200k_harmony");
    assert_eq!(resolve_encoding_name_for_model("ft:gpt-4o:org::id").unwrap(), "o200k_base");
    assert_eq!(resolve_encoding_name_for_model("ft:gpt-4:org").unwrap(), "cl100k_base");
    assert_eq!(resolve_encoding_name_for_model("o1-preview").unwrap(), "o200k_base");
    // "gpt-4.1" is exact, "gpt-4.1-mini" is a prefix match.
    assert_eq!(resolve_encoding_name_for_model("gpt-4.1-mini").unwrap(), "o200k_base");
}

#[test]
fn unknown_model_is_an_error() {
    assert_eq!(
        err(resolve_encoding_name_for_model("llama")),
        "could not automatically map llama to a tokeniser. Please use get_encoding explicitly."
    );
    assert!(resolve_encoding_name_for_model("").is_err());
    assert!(resolve_encoding_name_for_model("gpt-4o ").is_err());
}

#[test]
fn encoding_specs() {
    let s = encoding_spec("gpt2").unwrap();
    assert_eq!(s.name, "gpt2");
    assert_eq!(s.bpe_name, "r50k_base.tiktoken");
    assert_eq!(s.tokenizer, "r50k_base");
    assert_eq!(s.vocab, VocabFile::R50kBase);
    assert_eq!(s.special_tokens, SpecialTokenSet::R50kBase);
    let e = encoding_spec("p50k_edit").unwrap();
    assert_eq!(e.bpe_name, "p50k_base.tiktoken");
    assert_eq!(e.tokenizer, "p50k_base");
    assert_eq!(e.special_tokens, SpecialTokenSet::P50kEdit);
    let h = encoding_spec("o200k_harmony").unwrap();
    assert_eq!(h.vocab, VocabFile::O200kBase);
    assert_eq!(h.tokenizer, "o200k_base");
    let r = encoding_spec("r50k_base").unwrap();
    assert_eq!((r.bpe_name, r.tokenizer, r.vocab, r.special_tokens), (s.bpe_name, s.tokenizer, s.vocab, s.special_tokens));
    assert_eq!(err(encoding_spec("cl200k")), "unknown encoding: cl200k");
}

#[test]
fn special_modes() {
    assert_eq!(SpecialMode::try_from(0u32).unwrap(), SpecialMode::Disallow);
    assert_eq!(SpecialMode::try_from(1u32).unwrap(), SpecialMode::EncodeAsText);
    assert_eq!(SpecialMode::try_from(2u32).unwrap(), SpecialMode::AllowAll);
    assert_eq!(SpecialMode::try_from(3u32).unwrap(), SpecialMode::AllowList);
    assert_eq!(err(SpecialMode::try_from(4u32)), "unknown special token mode: 4");
    assert_eq!(err(SpecialMode::try_from(4294967295u32)), "unknown special token mode: 4294967295");
}

fn table_lookup(t: &[(String, u32)], k: &str) -> Option<u32> {
    t.iter().find(|(n, _)| n == k).map(|(_, r)| *r)
}

#[test]
fn special_token_tables() {
    let r = special_tokens_r50k_base();
    assert_eq!(r.len(), 1);
    assert_eq!(table_lookup(&r, "<|endoftext|>"), Some(50256));
    let e = special_tokens_p50k_edit();
    assert_eq!(e.len(), 4);
    assert_eq!(table_lookup(&e, "<|fim_suffix|>"), Some(50283));
    let c = special_tokens_cl100k_base();
    assert_eq!(c.len(), 5);
    assert_eq!(table_lookup(&c, "<|endofprompt|>"), Some(100276));
}

#[test]
fn harmony_table_has_named_and_reserved_tokens() {
    let h = special_tokens_o200k_harmony();
    assert_eq!(h.len(), 1091);
    assert_eq!(table_lookup(&h, "<|startoftext|>"), Some(199998));
    assert_eq!(table_lookup(&h, "<|endoftext|>"), Some(199999));
    assert_eq!(table_lookup(&h, "<|endofprompt|>"), Some(200018));
    assert_eq!(table_lookup(&h, "<|reserved_200018|>"), Some(200018));
    assert_eq!(table_lookup(&h, "<|reserved_200013|>"), Some(200013));
    assert_eq!(table_lookup(&h, "<|reserved_201087|>"), Some(201087));
    assert_eq!(table_lookup(&h, "<|reserved_201088|>"), None);
    assert_eq!(table_lookup(&h, "<|call|>"), Some(200012));
}

#[test]
fn special_tokens_sort_longest_first_then_bytewise() {
    let c = special_tokens_cl100k_base();
    let names = sorted_token_names(&c);
    assert_eq!(
        names,
        vec![
            "<|endofprompt|>".to_string(),
            "<|fim_middle|>".to_string(),
            "<|fim_prefix|>".to_string(),
            "<|fim_suffix|>".to_string(),
            "<|endoftext|>".to_string(),
        ]
    );
    let h = sorted_token_names(&special_tokens_o200k_harmony());
    assert_eq!(h.len(), 1091);
    assert_eq!(h[0], "<|reserved_200000|>");
    assert_eq!(h[h.len() - 1], "<|end|>");
}

#[test]
fn first_disallowed_special_in_order() {
    let names = sorted_token_names(&special_tokens_cl100k_base());
    assert_eq!(first_disallowed_special("plain", &names, None), None);
    assert_eq!(
        first_disallowed_special("x<|endoftext|>y<|fim_prefix|>", &names, None),
        Some("<|fim_prefix|>")
    );
    let allowed = vec!["<|fim_prefix|>".to_string()];
    assert_eq!(
        first_disallowed_special("x<|endoftext|>y<|fim_prefix|>", &names, Some(&allowed)),
        Some("<|endoftext|>")
    );
    let both = vec!["<|fim_prefix|>".to_string(), "<|endoftext|>".to_string()];
    assert_eq!(first_disallowed_special("x<|endoftext|>y<|fim_prefix|>", &names, Some(&both)), None);
}

#[test]
fn disallowed_message_quotes_token() {
    assert_eq!(
        disallowed_special_token_error("<|endoftext|>"),
        "Encountered text corresponding to disallowed special token \"<|endoftext|>\".\nIf you want this text to be encoded as a special token, allow it explicitly.\nIf you want this text to be encoded as normal text, use special mode EncodeAsText.\n"
    );
}

#[test]
fn special_token_lists() {
    assert_eq!(
        parse_special_token_list(RawText::Text("<|a|>\n\n<|b|>\n")).unwrap(),
        vec!["<|a|>".to_string(), "<|b|>".to_string()]
    );
    assert_eq!(parse_special_token_list(RawText::Null).unwrap(), Vec::<String>::new());
    assert_eq!(parse_special_token_list(RawText::Text("")).unwrap(), Vec::<String>::new());
    assert_eq!(err(parse_special_token_list(RawText::NotUtf8)), "special token list must be valid UTF-8");
}

#[test]
fn c_string_fields() {
    assert_eq!(err(parse_c_string(RawText::Null, "model_name")), "model_name cannot be null");
    assert_eq!(err(parse_c_string(RawText::NotUtf8, "input")), "input must be valid UTF-8");
    assert_eq!(parse_c_string(RawText::Text("héllo"), "input").unwrap(), "héllo");
}

#[test]
fn parses_u32_like_std() {
    assert_eq!(parse_u32(b"0"), Ok(0));
    assert_eq!(parse_u32(b"100257"), Ok(100257));
    assert_eq!(parse_u32(b"+7"), Ok(7));
    assert_eq!(parse_u32(b"4294967295"), Ok(4294967295));
    assert_eq!(parse_u32(b"4294967296"), Err(IntErrorKind::PosOverflow));
    assert_eq!(parse_u32(b"99999999999x"), Err(IntErrorKind::PosOverflow));
    assert_eq!(parse_u32(b"12x"), Err(IntErrorKind::InvalidDigit));
    assert_eq!(parse_u32(b"-1"), Err(IntErrorKind::InvalidDigit));
    assert_eq!(parse_u32(b"+"), Err(IntErrorKind::InvalidDigit));
    assert_eq!(parse_u32(b""), Err(IntErrorKind::Empty));
    for s in ["0", "17", "+9", "-1", "", "+", "4294967296", "1 2", "0042"] {
        let ours = parse_u32(s.as_bytes()).ok();
        assert_eq!(ours, s.parse::<u32>().ok(), "{s:?}");
    }
    assert_eq!(IntErrorKind::Empty.message(), "cannot parse integer from empty string");
    assert_eq!(IntErrorKind::InvalidDigit.message(), "invalid digit found in string");
    assert_eq!(IntErrorKind::PosOverflow.message(), "number too large to fit in target type");
}

#[test]
fn loads_vocabulary_lines() {
    let m = load_tiktoken_bpe(b"YQ== 0\n\nYg== 1\nYQ== 5", "t.tiktoken").unwrap();
    let entries = m.entries();
    assert_eq!(entries.len(), 2);
    assert_eq!(entries[0], (b"a".to_vec(), 5));
    assert_eq!(entries[1], (b"b".to_vec(), 1));
    let empty = load_tiktoken_bpe(b"", "t").unwrap();
    assert_eq!(empty.entries().len(), 0);
}

#[test]
fn vocabulary_errors_name_the_file() {
    assert_eq!(
        err(load_tiktoken_bpe(b"YQ==\n", "t.tiktoken").map(|_| ())),
        "invalid tiktoken BPE line in t.tiktoken"
    );
    assert_eq!(
        err(load_tiktoken_bpe(b"!!!! 1\n", "t").map(|_| ())),
        "invalid base64 token in t: Invalid symbol 33, offset 0."
    );
    assert_eq!(
        err(load_tiktoken_bpe(b"YQ== 1x\n", "t").map(|_| ())),
        "invalid rank in t: invalid digit found in string"
    );
    assert_eq!(
        err(load_tiktoken_bpe(b"YQ== \n", "t").map(|_| ())),
        "invalid rank in t: cannot parse integer from empty string"
    );
    assert_eq!(
        err(load_tiktoken_bpe(b"YQ== 4294967296\n", "t").map(|_| ())),
        "invalid rank in t: number too large to fit in target type"
    );
    assert_eq!(
        err(load_tiktoken_bpe(b"YQ== \xff\n", "t").map(|_| ())),
        "invalid UTF-8 rank in t: invalid utf-8 sequence of 1 bytes from index 0"
    );
    // The first bad line wins.
    assert_eq!(
        err(load_tiktoken_bpe(b"YQ== 0\nYQ==\n!!!! 1\n", "t").map(|_| ())),
        "invalid tiktoken BPE line in t"
    );
}

#[test]
fn cache_loads_once_and_shares() {
    let mut cache = EncodingCache::new(small_vocabs());
    let a = cache.get_encoding("cl100k_base").unwrap();
    let b = cache.get_encoding("cl100k_base").unwrap();
    assert!(Arc::ptr_eq(&a, &b));
    assert_eq!(err(cache.get_encoding("nope").map(|_| ())), "unknown encoding: nope");
    let c = cache.get_encoding_for_model("gpt-4").unwrap();
    assert!(Arc::ptr_eq(&a, &c));
    assert_eq!(
        err(cache.get_encoding_for_model("bert").map(|_| ())),
        "could not automatically map bert to a tokeniser. Please use get_encoding explicitly."
    );
}

#[test]
fn cache_reports_vocabulary_errors() {
    let bad = Vocabularies {
        r50k_base: b"YQ==\n",
        p50k_base: SMALL_VOCAB,
        cl100k_base: SMALL_VOCAB,
        o200k_base: SMALL_VOCAB,
    };
    let mut cache = EncodingCache::new(bad);
    assert_eq!(
        err(cache.get_encoding("gpt2").map(|_| ())),
        "invalid tiktoken BPE line in r50k_base.tiktoken"
    );
    assert!(cache.get_encoding("p50k_base").is_ok());
}

#[test]
fn decodes_known_tokens() {
    let mut cache = EncodingCache::new(small_vocabs());
    let enc = cache.get_encoding("cl100k_base").unwrap();
    assert_eq!(decode_tokens(&enc, &[0, 1, 2]).unwrap(), "abab");
    assert_eq!(decode_tokens(&enc, &[]).unwrap(), "");
    assert_eq!(decode_tokens(&enc, &[100257]).unwrap(), "<|endoftext|>");
    assert_eq!(err(decode_tokens(&enc, &[0, 7, 9])), "unknown token: 7");
    assert_eq!(err(decode_tokens(&enc, &[100256])), "unknown token: 100256");
}

#[test]
fn decodes_invalid_utf8_lossily() {
    // 0xff -> 0, "a" -> 1
    let v: &'static [u8] = b"/w== 0\nYQ== 1\n";
    let mut cache = EncodingCache::new(Vocabularies {
        r50k_base: v,
        p50k_base: v,
        cl100k_base: v,
        o200k_base: v,
    });
    let enc = cache.get_encoding("r50k_base").unwrap();
    assert_eq!(decode_tokens(&enc, &[1, 0, 1]).unwrap(), "a\u{fffd}a");
}

#[test]
fn encodes_with_the_crate_tokenizer() {
    let mut cache = EncodingCache::new(small_vocabs());
    let enc = cache.get_encoding("cl100k_base").unwrap();
    assert_eq!(encode_tokens(&enc, "hello world", 0, RawText::Null).unwrap(), vec![15339, 1917]);
    assert_eq!(count_tokens(&enc, "hello world", 0, RawText::Null).unwrap(), 2);
    let o = cache.get_encoding_for_model("gpt-4o").unwrap();
    assert_eq!(count_tokens(&o, "hello world", 1, RawText::Null).unwrap(), 2);
}

#[test]
fn default_mode_refuses_special_text() {
    let mut cache = EncodingCache::new(small_vocabs());
    let enc = cache.get_encoding("cl100k_base").unwrap();
    assert_eq!(
        err(encode_tokens(&enc, "a<|endoftext|>", 0, RawText::Null)),
        disallowed_special_token_error("<|endoftext|>")
    );
    let as_text = encode_tokens(&enc, "a<|endoftext|>", 1, RawText::Null).unwrap();
    assert!(!as_text.contains(&100257));
    let all = encode_tokens(&enc, "a<|endoftext|>", 2, RawText::Null).unwrap();
    assert!(all.contains(&100257));
    assert_eq!(err(encode_tokens(&enc, "x", 7, RawText::Null)), "unknown special token mode: 7");
}

#[test]
fn allow_list_mode() {
    let mut cache = EncodingCache::new(small_vocabs());
    let enc = cache.get_encoding("cl100k_base").unwrap();
    let ok = encode_tokens(&enc, "a<|endoftext|>", 3, RawText::Text("<|endoftext|>")).unwrap();
    assert!(ok.contains(&100257));
    assert_eq!(
        err(encode_tokens(&enc, "a<|endoftext|><|fim_prefix|>", 3, RawText::Text("<|endoftext|>"))),
        disallowed_special_token_error("<|fim_prefix|>")
    );
    assert_eq!(
        err(encode_tokens(&enc, "a", 3, RawText::Text("<|endoftext|>\n<|bogus|>"))),
        "unknown special token for encoding: <|bogus|>"
    );
    assert_eq!(
        err(encode_tokens(&enc, "a", 3, RawText::NotUtf8)),
        "special token list must be valid UTF-8"
    );
    // The list is only read in allow-list mode.
    assert!(encode_tokens(&enc, "a", 2, RawText::NotUtf8).is_ok());
}

#[test]
fn empty_allow_list_matches_default_mode() {
    let mut cache = EncodingCache::new(small_vocabs());
    let enc = cache.get_encoding("cl100k_base").unwrap();
    for text in ["hello world", "a<|endoftext|>b", ""] {
        assert_eq!(
            encode_tokens(&enc, text, 3, RawText::Null),
            encode_tokens(&enc, text, 0, RawText::Null)
        );
    }
}

#[test]
fn allowing_every_special_matches_allow_all() {
    let mut cache = EncodingCache::new(small_vocabs());
    let enc = cache.get_encoding("cl100k_base").unwrap();
    let all: Vec<String> = enc.special_tokens().clone();
    for text in ["hello <|endoftext|> world<|fim_middle|>", "plain"] {
        assert_eq!(
            encode_allowing(&enc, text, &all),
            encode_tokens(&enc, text, 2, RawText::Null)
        );
    }
}

#[test]
fn decoding_is_compositional() {
    let mut cache = EncodingCache::new(small_vocabs());
    let enc = cache.get_encoding("o200k_base").unwrap();
    let a = [0u32, 2];
    let b = [1u32, 199999];
    let joined: Vec<u32> = a.iter().chain(b.iter()).copied().collect();
    let whole = decode_tokens(&enc, &joined).unwrap();
    let parts = decode_tokens(&enc, &a).unwrap() + &decode_tokens(&enc, &b).unwrap();
    assert_eq!(whole, parts);
    assert!(decode_tokens(&enc, &[0, 5]).is_err());
}

#[test]
fn output_values() {
    let b = into_token_buffer(vec![1, 2, 3]);
    assert_eq!(b.len, 3);
    assert_eq!(b.data, vec![1, 2, 3]);
    let e = into_token_buffer(Vec::new());
    assert_eq!(e.len, 0);
    assert_eq!(replace_nul("a\0b\0"), "a b ");
    assert_eq!(version_string("0.1.0"), "tiktoken_shim/0.1.0 (openai/tiktoken 0.12.0)");
}

#[test]
fn every_resolved_encoding_exists() {
    for (model, encoding) in EXACT_MODEL_ENCODINGS.iter().chain(PREFIX_MODEL_ENCODINGS.iter()) {
        let resolved = resolve_encoding_name_for_model(model).unwrap();
        assert!(encoding_spec(resolved).is_ok(), "{model}");
        if EXACT_MODEL_ENCODINGS.iter().any(|(m, _)| m == model) {
            assert_eq!(resolved, encoding.name());
        }
    }
}

#[test]
fn decoder_gives_back_each_unique_rank() {
    let mut cache = EncodingCache::new(small_vocabs());
    let enc = cache.get_encoding("p50k_edit").unwrap();
    for (token, rank) in [("a", 0u32), ("b", 1), ("ab", 2), ("<|fim_middle|>", 50282)] {
        assert_eq!(decode_tokens(&enc, &[rank]).unwrap(), token);
    }
}

#[test]
fn vocabulary_reads_in_parts() {
    let whole = load_tiktoken_bpe(b"YQ== 0\nYg== 1\nYQ== 7", "t").unwrap();
    let first = load_tiktoken_bpe(b"YQ== 0\nYg== 1", "t").unwrap();
    let second = load_tiktoken_bpe(b"YQ== 7", "t").unwrap();
    assert_eq!(first.entries()[0], (b"a".to_vec(), 0));
    assert_eq!(second.entries()[0], (b"a".to_vec(), 7));
    assert_eq!(whole.entries(), &vec![(b"a".to_vec(), 7), (b"b".to_vec(), 1)]);
    assert_eq!(
        load_tiktoken_bpe(b"!!!! 0\nYQ== 1", "t").map(|_| ()),
        load_tiktoken_bpe(b"!!!! 0", "t").map(|_| ())
    );
}

fn ordinary(enc: &tiktoken_shim::encoding::LoadedEncoding, text: &str) -> Vec<u32> {
    encode_tokens(enc, text, 1, RawText::Null).unwrap()
}

#[test]
fn admitted_special_tokens_split_the_text() {
    let mut cache = EncodingCache::new(small_vocabs());
    let enc = cache.get_encoding("cl100k_base").unwrap();
    let mut expected = ordinary(&enc, "hello");
    expected.push(100257);
    expected.extend(ordinary(&enc, " world"));
    assert_eq!(encode_tokens(&enc, "hello<|endoftext|> world", 2, RawText::Null).unwrap(), expected);
    assert_eq!(
        encode_tokens(&enc, "hello<|endoftext|> world", 3, RawText::Text("<|endoftext|>")).unwrap(),
        expected
    );
    assert_eq!(
        encode_tokens(&enc, "<|fim_prefix|><|fim_suffix|>", 2, RawText::Null).unwrap(),
        vec![100258, 100260]
    );
    // Text that only looks like a special token stays ordinary text.
    assert_eq!(
        encode_tokens(&enc, "<|endoftext|", 2, RawText::Null).unwrap(),
        ordinary(&enc, "<|endoftext|")
    );
}

#[test]
fn harmony_allows_its_own_special_tokens() {
    let mut cache = EncodingCache::new(small_vocabs());
    let enc = cache.get_encoding("o200k_harmony").unwrap();
    assert_eq!(encode_tokens(&enc, "<|endofprompt|>", 2, RawText::Null).unwrap(), vec![200018]);
    assert_eq!(
        encode_tokens(&enc, "<|endofprompt|>", 3, RawText::Text("<|endofprompt|>")).unwrap(),
        vec![200018]
    );
    assert_eq!(encode_tokens(&enc, "<|reserved_200500|>", 2, RawText::Null).unwrap(), vec![200500]);
    let mut expected = ordinary(&enc, "hi ");
    expected.push(200006);
    expected.extend(ordinary(&enc, "user"));
    expected.push(200008);
    assert_eq!(encode_tokens(&enc, "hi <|start|>user<|message|>", 2, RawText::Null).unwrap(), expected);
}

#[test]
fn empty_text_has_no_tokens() {
    let mut cache = EncodingCache::new(small_vocabs());
    let enc = cache.get_encoding("o200k_base").unwrap();
    for mode in 0..3u32 {
        assert_eq!(encode_tokens(&enc, "", mode, RawText::Null).unwrap(), Vec::<u32>::new());
    }
    assert_eq!(count_tokens(&enc, "", 3, RawText::Text("<|endoftext|>")).unwrap(), 0);
}

#[test]
fn allowing_every_special_in_any_order_matches_allow_all() {
    let mut cache = EncodingCache::new(small_vocabs());
    let enc = cache.get_encoding("cl100k_base").unwrap();
    let list = "<|fim_suffix|>\n<|endoftext|>\n<|endofprompt|>\n\n<|fim_middle|>\n<|fim_prefix|>\n<|endoftext|>";
    for text in ["a<|endoftext|>b<|fim_suffix|>", "", "<|endofprompt|>"] {
        assert_eq!(
            encode_tokens(&enc, text, 3, RawText::Text(list)),
            encode_tokens(&enc, text, 2, RawText::Null)
        );
    }
    for text in ["a<|endoftext|>b", "plain"] {
        assert_eq!(
            encode_tokens(&enc, text, 3, RawText::Text("\n\n")),
            encode_tokens(&enc, text, 0, RawText::Null)
        );
    }
}

#[test]
fn loaded_encoding_is_kept_across_lookups() {
    let mut cache = EncodingCache::new(small_vocabs());
    let first = cache.get_encoding("o200k_base").unwrap();
    assert!(cache.get_encoding("gpt2").is_ok());
    assert!(cache.get_encoding("missing").is_err());
    assert!(cache.get_encoding_for_model("gpt-4").is_ok());
    let again = cache.get_encoding_for_model("gpt-4o").unwrap();
    assert!(Arc::ptr_eq(&first, &again));
    let named = cache.get_encoding("o200k_base").unwrap();
    assert!(Arc::ptr_eq(&first, &named));
}

#[test]
fn calls_report_the_first_error() {
    let mut cache = EncodingCache::new(small_vocabs());
    assert_eq!(
        err(count_with_encoding(&mut cache, RawText::Null, RawText::Null, 9, RawText::NotUtf8)),
        "encoding_name cannot be null"
    );
    assert_eq!(
        err(count_with_encoding(&mut cache, RawText::Text("nope"), RawText::Null, 9, RawText::Null)),
        "unknown encoding: nope"
    );
    assert_eq!(
        err(count_with_encoding(&mut cache, RawText::Text("gpt2"), RawText::NotUtf8, 9, RawText::Null)),
        "input must be valid UTF-8"
    );
    assert_eq!(
        err(count_with_encoding(&mut cache, RawText::Text("gpt2"), RawText::Text("x"), 9, RawText::Null)),
        "unknown special token mode: 9"
    );
    assert_eq!(
        err(encode_with_model(&mut cache, RawText::NotUtf8, RawText::Null, 0, RawText::Null)),
        "model_name must be valid UTF-8"
    );
    assert_eq!(
        err(encode_with_model(&mut cache, RawText::Text("bert"), RawText::Null, 0, RawText::Null)),
        "could not automatically map bert to a tokeniser. Please use get_encoding explicitly."
    );
    assert_eq!(
        err(encode_with_model(&mut cache, RawText::Text("gpt-4"), RawText::Null, 0, RawText::Null)),
        "input cannot be null"
    );
    assert_eq!(
        err(decode_with_encoding(&mut cache, RawText::Null, &[0])),
        "encoding_name cannot be null"
    );
    assert_eq!(err(decode_with_model(&mut cache, RawText::Text("gpt-4"), &[5])), "unknown token: 5");
}

#[test]
fn calls_encode_count_and_decode() {
    let mut cache = EncodingCache::new(small_vocabs());
    let enc = cache.get_encoding("cl100k_base").unwrap();
    let tokens = encode_with_encoding(&mut cache, RawText::Text("cl100k_base"), RawText::Text("hello world"), 0, RawText::Null)
        .unwrap();
    assert_eq!(tokens, encode_tokens(&enc, "hello world", 0, RawText::Null).unwrap());
    assert_eq!(
        count_with_model(&mut cache, RawText::Text("gpt-4"), RawText::Text("hello world"), 1, RawText::Null).unwrap(),
        tokens.len() as u64
    );
    assert_eq!(decode_with_model(&mut cache, RawText::Text("gpt-3.5-turbo"), &[0, 2, 100257]).unwrap(), "aab<|endoftext|>");
    assert_eq!(decode_with_encoding(&mut cache, RawText::Text("cl100k_base"), &[]).unwrap(), "");
    assert_eq!(encoding_name_for_model(RawText::Text("gpt-oss-120b")).unwrap(), "o200k_harmony");
    assert_eq!(encoding_name_for_model(RawText::Null).unwrap_err(), "model_name cannot be null");
    assert_eq!(
        encoding_name_for_model(RawText::Text("x")).unwrap_err(),
        "could not automatically map x to a tokeniser. Please use get_encoding explicitly."
    );
}

#[test]
fn nothing_admitted_is_whole_text_ordinary() {
    let mut cache = EncodingCache::new(small_vocabs());
    let enc = cache.get_encoding("cl100k_base").unwrap();
    let crate_bpe = tiktoken::get_encoding("cl100k_base").unwrap();
    for text in ["a<|endoftext|>b", "hello world", "x"] {
        assert_eq!(encode_tokens(&enc, text, 1, RawText::Null).unwrap(), crate_bpe.encode(text));
    }
}

#[test]
fn encodings_on_one_tokenizer_encode_ordinary_text_alike() {
    let mut cache = EncodingCache::new(small_vocabs());
    for (a, b) in [("gpt2", "r50k_base"), ("p50k_edit", "p50k_base"), ("o200k_harmony", "o200k_base")] {
        let ea = cache.get_encoding(a).unwrap();
        let eb = cache.get_encoding(b).unwrap();
        for text in ["hello world", "a<|endoftext|>b<|fim_prefix|>", ""] {
            assert_eq!(ordinary(&ea, text), ordinary(&eb, text), "{a} {b}");
        }
    }
    let g = cache.get_encoding("gpt2").unwrap();
    let r = cache.get_encoding("r50k_base").unwrap();
    for mode in 0..3u32 {
        assert_eq!(
            encode_tokens(&g, "x<|endoftext|>y", mode, RawText::Null),
            encode_tokens(&r, "x<|endoftext|>y", mode, RawText::Null)
        );
    }
    // p50k_edit knows the fill-in-middle tokens, p50k_base does not.
    let edit = cache.get_encoding("p50k_edit").unwrap();
    assert_eq!(encode_tokens(&edit, "<|fim_middle|>", 2, RawText::Null).unwrap(), vec![50282]);
}

#[test]
fn model_calls_match_name_calls() {
    let mut cache = EncodingCache::new(small_vocabs());
    let by_model = encode_with_model(&mut cache, RawText::Text("gpt-4o"), RawText::Text("hi <|endoftext|>"), 2, RawText::Null);
    let by_name = encode_with_encoding(&mut cache, RawText::Text("o200k_base"), RawText::Text("hi <|endoftext|>"), 2, RawText::Null);
    assert_eq!(by_model, by_name);
    let mut fresh = EncodingCache::new(small_vocabs());
    let n1 = count_with_encoding(&mut fresh, RawText::Text("cl100k_base"), RawText::Text("hello world"), 0, RawText::Null);
    let n2 = count_with_model(&mut fresh, RawText::Text("gpt-4"), RawText::Text("hello world"), 0, RawText::Null);
    assert_eq!(n1, n2);
    assert_eq!(
        decode_with_model(&mut fresh, RawText::Text("gpt-4"), &[0, 1]),
        decode_with_encoding(&mut fresh, RawText::Text("cl100k_base"), &[0, 1])
    );
}

#[test]
fn lookup_then_use() {
    let mut cache = EncodingCache::new(small_vocabs());
    let found = lookup_encoding(&mut cache, RawText::Text("gpt-4"), true);
    assert!(found.is_ok());
    assert_eq!(count_found(found.clone(), RawText::Text("hello world"), 0, RawText::Null).unwrap(), 2);
    assert_eq!(encode_found(found.clone(), RawText::Text("hello world"), 0, RawText::Null).unwrap(), vec![15339, 1917]);
    assert_eq!(decode_found(found.clone(), &[2]).unwrap(), "ab");
    assert_eq!(err(encode_found(found, RawText::Null, 0, RawText::Null)), "input cannot be null");
    let missing = lookup_encoding(&mut cache, RawText::Text("nope"), false);
    assert_eq!(err(count_found(missing, RawText::Null, 9, RawText::Null)), "unknown encoding: nope");
    assert_eq!(err(lookup_encoding(&mut cache, RawText::Null, true).map(|_| ())), "model_name cannot be null");
    assert_eq!(version_string(SHIM_VERSION), "tiktoken_shim/0.1.0 (openai/tiktoken 0.12.0)");
}
