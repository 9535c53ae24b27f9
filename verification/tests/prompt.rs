use audio8_runtime::grid::{BatchTensor, CodeGrid};
use audio8_runtime::manifest::{ManifestCheck, ManifestError};
use audio8_runtime::charmap::{check_charmap, decode_base64};
use audio8_runtime::normalizer::expression_takes_text;
use audio8_runtime::prompt::{assemble, join_ids, prompt_texts, PromptBuilder, PromptError};
use audio8_runtime::tokenizer::{TextTokenizer, TokenizerError};

fn word_level(vocab: &str, unk: &str, truncation: &str) -> String {
    format!(
        "{{\"version\":\"1.0\",\"truncation\":{},\"padding\":null,\"added_tokens\":[],\
         \"normalizer\":null,\"pre_tokenizer\":null,\"post_processor\":null,\"decoder\":null,\
         \"model\":{{\"type\":\"WordLevel\",\"vocab\":{},\"unk_token\":\"{}\"}}}}",
        truncation, vocab, unk
    )
}

const VOCAB: &str = "{\"<|im_start|>system\\n\":1,\
    \"convert the provided text to speech reference to the following:\\n\\nText:\\n\":2,\
    \"<|speaker:0|>Hi there\":3,\"\\n\\nSpeech:\\n\":4,\"<|im_end|>\\n\":5,\
    \"<|im_start|>user\\n\":6,\"Say this.\":7,\"<|im_start|>assistant\\n<|voice|>\":4000000000}";

fn rows(t: &BatchTensor) -> Vec<Vec<i64>> {
    (0..t.dim().1).map(|r| t.row(r)).collect()
}

#[test]
fn encodes_text() {
    let b = PromptBuilder::new(&word_level(VOCAB, "none", "null"), 100, 2).unwrap();
    assert!(!b.is_random());
    assert_eq!(b.encode_text("Say this.").unwrap(), vec![7]);
    assert_eq!(b.encode_text("").unwrap(), Vec::<i64>::new());
    assert_eq!(
        b.encode_text("<|im_start|>assistant\n<|voice|>").unwrap(),
        vec![4_000_000_000]
    );
    assert!(matches!(b.encode_text("unknown"), Err(PromptError::Tokenizer(TokenizerError::Encode(_)))));
    let texts = vec!["Say this.".to_string(), "<|im_end|>\n".to_string()];
    assert_eq!(b.encode_texts(&texts).unwrap(), vec![7, 5]);
    assert!(matches!(
        b.encode_texts(&vec!["Say this.".to_string(), "x".to_string()]),
        Err(PromptError::Tokenizer(TokenizerError::Encode(_)))
    ));
}

#[test]
fn builds_a_prompt() {
    let b = PromptBuilder::new(&word_level(VOCAB, "none", "null"), 100, 2).unwrap();
    let codes = CodeGrid::from_cells(2, 3, vec![10, 11, 12, 20, 21, 22]).unwrap();
    let p = b.build("  Say \n this. ", "Hi\tthere", &codes).unwrap();
    assert_eq!(p.dim(), (1, 3, 12));
    assert_eq!(
        rows(&p),
        vec![
            vec![1, 2, 3, 4, 110, 111, 112, 5, 6, 7, 5, 4_000_000_000],
            vec![0, 0, 0, 0, 10, 11, 12, 0, 0, 0, 0, 0],
            vec![0, 0, 0, 0, 20, 21, 22, 0, 0, 0, 0, 0],
        ]
    );
    assert_eq!(p.at(0, 4), 110);
    assert_eq!(p.cells().len(), 36);
    assert_eq!(p.cells()[12 + 4], 10);
}

#[test]
fn reference_codes_must_have_a_row_for_each_codebook() {
    let b = PromptBuilder::new(&word_level(VOCAB, "none", "null"), 100, 2).unwrap();
    let codes = CodeGrid::from_cells(3, 1, vec![1, 2, 3]).unwrap();
    assert!(matches!(
        b.build("unknown", "unknown", &codes),
        Err(PromptError::CodeShape { codebooks: 2, rows: 3, cols: 1 })
    ));
    let empty = CodeGrid::from_cells(2, 0, vec![]).unwrap();
    assert!(matches!(
        b.build("Say this.", "Hi there", &empty),
        Err(PromptError::CodeShape { codebooks: 2, rows: 2, cols: 0 })
    ));
}

#[test]
fn texts_that_cannot_be_encoded_are_refused() {
    let b = PromptBuilder::new(&word_level(VOCAB, "none", "null"), 100, 1).unwrap();
    let codes = CodeGrid::from_cells(1, 1, vec![1]).unwrap();
    assert!(matches!(b.build("other", "Hi there", &codes), Err(PromptError::Tokenizer(TokenizerError::Encode(_)))));
    assert!(matches!(b.build("Say this.", "other", &codes), Err(PromptError::Tokenizer(TokenizerError::Encode(_)))));
    assert!(b.build("Say this.", "Hi there", &codes).is_ok());
}

#[test]
fn broken_tokenizers_are_refused() {
    assert!(matches!(PromptBuilder::new("{", 0, 1), Err(PromptError::Tokenizer(TokenizerError::Load(_)))));
    let cut = "{\"direction\":\"Right\",\"max_length\":1,\"strategy\":\"LongestFirst\",\"stride\":0}";
    let b = PromptBuilder::new(&word_level(VOCAB, "none", cut), 0, 1).unwrap();
    assert_eq!(b.encode_text("Say this.").unwrap(), vec![7]);
}

#[test]
fn overlapping_truncation_takes_only_short_texts() {
    // Two words per text; the cut parts would overlap by their whole length.
    let json = "{\"version\":\"1.0\",\"truncation\":{\"direction\":\"Right\",\"max_length\":2,\
        \"strategy\":\"LongestFirst\",\"stride\":2},\"padding\":null,\"added_tokens\":[],\
        \"normalizer\":null,\"pre_tokenizer\":{\"type\":\"WhitespaceSplit\"},\"post_processor\":null,\
        \"decoder\":null,\"model\":{\"type\":\"WordLevel\",\"vocab\":{\"a\":1,\"b\":2},\
        \"unk_token\":\"a\"}}";
    let b = PromptBuilder::new(json, 0, 1).unwrap();
    assert_eq!(b.encode_text("a b").unwrap(), vec![1, 2]);
    assert_eq!(b.encode_text("b").unwrap(), vec![2]);
    // Words behind the limit are not looked at where the limit is met exactly.
    assert_eq!(b.encode_text("b a b").unwrap(), vec![2, 1]);
    let usable = json.replace("\"stride\":2", "\"stride\":1");
    let b = PromptBuilder::new(&usable, 0, 1).unwrap();
    assert_eq!(b.encode_text("b a b").unwrap(), vec![2, 1]);
    // One piece of several tokens can exceed the limit.
    let pairs = "{\"version\":\"1.0\",\"truncation\":{\"direction\":\"Right\",\"max_length\":2,\
        \"strategy\":\"LongestFirst\",\"stride\":2},\"padding\":null,\"added_tokens\":[],\
        \"normalizer\":null,\"pre_tokenizer\":null,\"post_processor\":null,\"decoder\":null,\
        \"model\":{\"type\":\"BPE\",\"vocab\":{\"a\":0,\"b\":1},\"merges\":[]}}";
    let b = PromptBuilder::new(pairs, 0, 1).unwrap();
    assert_eq!(b.encode_text("ab").unwrap(), vec![0, 1]);
    assert!(matches!(
        b.encode_text("aba"),
        Err(PromptError::Tokenizer(TokenizerError::Truncation))
    ));
    let b = PromptBuilder::new(&pairs.replace("\"stride\":2", "\"stride\":0"), 0, 1).unwrap();
    assert_eq!(b.encode_text("aba").unwrap(), vec![0, 1]);
}

fn with_part(key: &str, part: &str) -> String {
    word_level(VOCAB, "none", "null").replace(&format!("\"{}\":null", key), &format!("\"{}\":{}", key, part))
}

#[test]
fn parts_that_no_text_can_be_encoded_with() {
    let unusable = |json: &str| matches!(TextTokenizer::load(json), Err(TokenizerError::Unusable));
    assert!(unusable(&with_part("pre_tokenizer", "{\"type\":\"FixedLength\",\"length\":0}")));
    assert!(unusable(&with_part(
        "pre_tokenizer",
        "{\"type\":\"Sequence\",\"pretokenizers\":[{\"type\":\"WhitespaceSplit\"},\
         {\"type\":\"FixedLength\",\"length\":0}]}"
    )));
    let five = with_part("pre_tokenizer", "{\"type\":\"FixedLength\",\"length\":500}");
    assert_eq!(TextTokenizer::load(&five).unwrap().encode("Say this.").unwrap(), vec![7]);

    let template = |single: &str| {
        format!(
            "{{\"type\":\"TemplateProcessing\",\"single\":[{}],\"pair\":[\
             {{\"Sequence\":{{\"id\":\"A\",\"type_id\":0}}}},{{\"Sequence\":{{\"id\":\"B\",\"type_id\":1}}}}],\
             \"special_tokens\":{{}}}}",
            single
        )
    };
    let a = "{\"Sequence\":{\"id\":\"A\",\"type_id\":0}}";
    let b = "{\"Sequence\":{\"id\":\"B\",\"type_id\":0}}";
    assert!(unusable(&with_part("post_processor", &template(b))));
    let good = with_part("post_processor", &template(a));
    assert_eq!(TextTokenizer::load(&good).unwrap().encode("Say this.").unwrap(), vec![7]);
    let twice = with_part("post_processor", &template(&format!("{},{}", a, a)));
    assert_eq!(TextTokenizer::load(&twice).unwrap().encode("Say this.").unwrap(), vec![7, 7]);
    // Behind a template that gives two sequences, the one for two is used.
    let double = format!("{{\"type\":\"Sequence\",\"processors\":[{},{}]}}", template(&format!("{},{}", a, a)), template(a));
    let doubled = with_part("post_processor", &double);
    assert_eq!(TextTokenizer::load(&doubled).unwrap().encode("Say this.").unwrap(), vec![7, 7]);
    let nothing = format!("{{\"type\":\"Sequence\",\"processors\":[{},{}]}}", template(""), template(a));
    assert!(unusable(&with_part("post_processor", &nothing)));
    let thrice = template(&format!("{},{},{}", a, a, a));
    let chain = format!("{{\"type\":\"Sequence\",\"processors\":[{},{}]}}", thrice, template(a));
    assert!(unusable(&with_part("post_processor", &chain)));
    let short = format!(
        "{{\"type\":\"Sequence\",\"processors\":[{{\"type\":\"ByteLevel\",\"add_prefix_space\":true,\
         \"trim_offsets\":false,\"use_regex\":true}},{}]}}",
        template(a)
    );
    let chained = with_part("post_processor", &short);
    assert_eq!(TextTokenizer::load(&chained).unwrap().encode("Say this.").unwrap(), vec![7]);
}

#[test]
fn descriptions_that_cannot_be_read() {
    let unreadable = |json: &str| matches!(TextTokenizer::load(json), Err(TokenizerError::Unreadable));
    assert!(unreadable(&with_part("normalizer", "{\"type\":\"Precompiled\",\"precompiled_charsmap\":\"AA\"}")));
    let bpe = |extra: &str, vocab: &str, merges: &str| {
        format!(
            "{{\"version\":\"1.0\",\"truncation\":null,\"padding\":null,\"added_tokens\":[],\
             \"normalizer\":null,\"pre_tokenizer\":null,\"post_processor\":null,\"decoder\":null,\
             \"model\":{{\"type\":\"BPE\",{}\"vocab\":{},\"merges\":{}}}}}",
            extra, vocab, merges
        )
    };
    assert!(unreadable(&bpe("", "{\"a\":0,\"b\":1}", "[[\"a\",\"b\"]]")));
    assert!(unreadable(&bpe("", "{\"a\":0,\"b\":1}", "[\"a b\"]")));
    assert!(unreadable(&bpe(
        "\"continuing_subword_prefix\":\"##\",",
        "{\"a\":0,\"b\":1,\"ab\":2}",
        "[[\"a\",\"b\"]]"
    )));
    // The prefix would end within a character of two bytes.
    assert!(unreadable(&bpe(
        "\"continuing_subword_prefix\":\"#\",",
        "{\"a\":0,\"é\":1,\"aéa\":2}",
        "[[\"a\",\"é\"]]"
    )));
    let ok = bpe("", "{\"a\":0,\"b\":1,\"ab\":2}", "[\"#version: 0.2 and more\",\"a b\"]");
    assert_eq!(TextTokenizer::load(&ok).unwrap().encode("ab").unwrap(), vec![2]);
    // A merge of unknown tokens is an ordinary error.
    let unknown = bpe("", "{\"a\":0,\"b\":1,\"ab\":2}", "[[\"b\",\"a\"]]");
    assert!(matches!(TextTokenizer::load(&unknown), Err(TokenizerError::Load(_))));
    for broken in ["", "[]", "{\"decoder\": {\"type\": ", "{\"version\":\"2.0\"}"] {
        assert!(matches!(TextTokenizer::load(broken), Err(TokenizerError::Load(_))), "{}", broken);
    }
}

fn replace(pattern: &str) -> String {
    format!("{{\"type\":\"Replace\",\"pattern\":{},\"content\":\" \"}}", pattern)
}

fn chain(first: &str, second: &str) -> String {
    with_part("normalizer", &format!("{{\"type\":\"Sequence\",\"normalizers\":[{},{}]}}", first, second))
}

#[test]
fn normalizers_that_write_in_front_of_a_text() {
    let unreadable = |json: &str| matches!(TextTokenizer::load(json), Err(TokenizerError::Unreadable));
    let nfc = "{\"type\":\"NFC\"}";
    for pattern in [
        "{\"Regex\":\"^\"}",
        "{\"Regex\":\"\"}",
        "{\"Regex\":\" *\"}",
        "{\"Regex\":\"a{0,2}\"}",
        "{\"Regex\":\"a|\"}",
        "{\"Regex\":\"\\\\b\"}",
        "{\"String\":\"\"}",
    ] {
        assert!(unreadable(&chain(&replace(pattern), nfc)), "{}", pattern);
        // Nothing goes through the characters behind it.
        assert!(TextTokenizer::load(&chain(nfc, &replace(pattern))).is_ok(), "{}", pattern);
        let bytes = with_part("normalizer", &replace(pattern)).replace(
            "\"pre_tokenizer\":null",
            "\"pre_tokenizer\":{\"type\":\"ByteLevel\",\"add_prefix_space\":false,\"trim_offsets\":true,\"use_regex\":true}",
        );
        assert!(matches!(TextTokenizer::load(&bytes), Err(TokenizerError::Unusable)), "{}", pattern);
    }
    let empty = "{\"type\":\"Prepend\",\"prepend\":\"\"}";
    assert!(unreadable(&chain(empty, nfc)));
    let t = TextTokenizer::load(&with_part("normalizer", empty)).unwrap();
    assert_eq!(t.encode("Say this.").unwrap(), vec![7]);
    for pattern in [
        "{\"Regex\":\"\\\\s+\"}",
        "{\"Regex\":\" {2,}\"}",
        "{\"Regex\":\"( ) \"}",
        "{\"Regex\":\"[ ] |\\\\t\"}",
        "{\"String\":\"  \"}",
    ] {
        let t = TextTokenizer::load(&chain(&replace(pattern), nfc)).unwrap();
        assert_eq!(t.encode("Say  this.").unwrap(), vec![7], "{}", pattern);
    }
    assert!(unreadable(&with_part("normalizer", &replace("{\"Regex\":\"a\\\\K\"}"))));
}

#[test]
fn normalizers_in_another_form() {
    let unreadable = |part: &str| {
        matches!(TextTokenizer::load(&with_part("normalizer", part)), Err(TokenizerError::Unreadable))
    };
    assert!(unreadable("{\"type\":{\"Precompiled\":null}}"));
    assert!(unreadable("{\"type\":\"Precompiled\"}"));
    assert!(unreadable("[[[\"\"],{\"type\":\"Lowercase\"}]]"));
    assert!(unreadable("{\"type\":\"Sequence\",\"normalizers\":[[\"\"]]}"));
    assert!(unreadable("{\"prepend\":\"\"}"));
    let strip = TextTokenizer::load(&with_part("normalizer", "{\"strip_left\":true,\"strip_right\":true}"));
    assert_eq!(strip.unwrap().encode("  Say this. ").unwrap(), vec![7]);
}

fn base64(bytes: &[u8]) -> String {
    let digits: Vec<char> =
        "ABCDEFGHIJKLMNOPQRSTUVWXYZabcdefghijklmnopqrstuvwxyz0123456789+/".chars().collect();
    let mut out = String::new();
    for part in bytes.chunks(3) {
        let mut n = 0u32;
        for i in 0..3 {
            n = n * 256 + *part.get(i).unwrap_or(&0) as u32;
        }
        for i in 0..4 {
            let digit = digits[(n >> (18 - 6 * i)) as usize % 64];
            out.push(if i <= part.len() { digit } else { '=' });
        }
    }
    out
}

/// A map that replaces `x` by a text.
fn map(value: u32, offset: u32, texts: &[u8]) -> Vec<u8> {
    let mut units = vec![0u32; 256];
    units[0] = 1 << 10;
    units[0x79] = offset << 10 | 256 | 'x' as u32;
    units[2] = 0x8000_0000 | value;
    let mut bytes = 1024u32.to_le_bytes().to_vec();
    for u in units {
        bytes.extend_from_slice(&u.to_le_bytes());
    }
    bytes.extend_from_slice(texts);
    bytes
}

#[test]
fn character_maps() {
    let load = |bytes: &[u8]| {
        TextTokenizer::load(&with_part(
            "normalizer",
            &format!("{{\"type\":\"Precompiled\",\"precompiled_charsmap\":\"{}\"}}", base64(bytes)),
        ))
    };
    let good = map(0, 0x7b, b"Say this.\0");
    let t = load(&good).unwrap();
    assert_eq!(t.encode("x").unwrap(), vec![7]);
    assert_eq!(t.encode("Say this.").unwrap(), vec![7]);
    assert!(load(&map(10, 0x7b, b"Say this.\0")).is_ok());
    let unreadable = |bytes: &[u8]| matches!(load(bytes), Err(TokenizerError::Unreadable));
    // A value behind the texts, one within a character, and a child behind the trie.
    assert!(unreadable(&map(11, 0x7b, b"Say this.\0")));
    assert!(unreadable(&map(1, 0x7b, "é".as_bytes())));
    assert!(unreadable(&map(0, 0x17b, b"Say this.\0")));
    assert!(unreadable(&map(0, 0x7b, &[0xff])));
    assert!(unreadable(&good[..1000]));
    assert!(unreadable(&[0, 0, 0, 0]));
    assert!(unreadable(&[0, 0]));
    let mut short = good.clone();
    short[0] = 0xfc;
    short[1] = 3;
    assert!(unreadable(&short));
    assert!(!check_charmap("AAAA===="));
}

#[test]
fn base64_texts() {
    for n in 0..9usize {
        let bytes: Vec<u8> = (0..n).map(|i| (i * 83 + 7 * n) as u8).collect();
        assert_eq!(decode_base64(&base64(&bytes)).unwrap(), bytes);
    }
    assert_eq!(decode_base64("+/9z").unwrap(), vec![0xfb, 0xff, 0x73]);
    for text in ["A", "AA", "AAA", "AB==", "AAB=", "AA==AAAA", "A===", "====", "AA=A", "AA A", "AAé="] {
        assert!(decode_base64(text).is_none(), "{}", text);
    }
}

#[test]
fn expressions_that_take_text() {
    for e in ["a", "\\s+", " {2,}", "(a)", "[ab]|c", "((a|b)c|d)", "a^", "."] {
        assert!(expression_takes_text(e), "{}", e);
    }
    for e in ["", "a?", "a*", "(|a)", "a|", "^a", "$", "(?:a)", "a{0,2}", "a{,2}", "\\b", "()", "\\"] {
        assert!(!expression_takes_text(e), "{}", e);
    }
}

#[test]
fn ids_are_joined() {
    assert_eq!(join_ids(&vec![vec![1, 2], vec![], vec![3]]), vec![1, 2, 3]);
    assert!(join_ids(&vec![]).is_empty());
}

#[test]
fn splits_that_move_their_start() {
    for pattern in ["(?=ab\\\\K)a", "(?=a\\\\K)"] {
        let json = with_part(
            "pre_tokenizer",
            &format!(
                "{{\"type\":\"Split\",\"pattern\":{{\"Regex\":\"{}\"}},\"behavior\":\"Isolated\",\"invert\":false}}",
                pattern
            ),
        );
        assert!(matches!(TextTokenizer::load(&json), Err(TokenizerError::Unusable)));
    }
}

#[test]
fn keys_are_written_once() {
    let json = word_level(VOCAB, "none", "null");
    assert!(TextTokenizer::load(&json).is_ok());
    let twice = json.replace("\"decoder\":null", "\"decoder\":null,\"decoder\":null");
    assert!(matches!(TextTokenizer::load(&twice), Err(TokenizerError::Unreadable)));
    let inner = json.replace("\"Say this.\":7", "\"Say this.\":6,\"Say this.\":7");
    assert!(matches!(TextTokenizer::load(&inner), Err(TokenizerError::Unreadable)));
    let unknown = json.replace("\"decoder\":null", "\"decoder\":null,\"more\":null");
    assert!(matches!(TextTokenizer::load(&unknown), Err(TokenizerError::Load(_))));
    let colons = json.replace("\"Say this.\":7", "\"a:\\\"b:c\\\\\":8,\"Say this.\":7");
    assert_eq!(TextTokenizer::load(&colons).unwrap().encode("a:\"b:c\\").unwrap(), vec![8]);
}

#[test]
fn added_tokens_and_white_space() {
    let token = |id: u32, content: &str, left: bool, right: bool| {
        format!(
            "{{\"id\":{},\"content\":\"{}\",\"single_word\":false,\"lstrip\":{},\"rstrip\":{},\
             \"normalized\":false,\"special\":true}}",
            id, content, left, right
        )
    };
    let with_tokens = |tokens: &str| {
        word_level(VOCAB, "none", "null").replace("\"added_tokens\":[]", &format!("\"added_tokens\":[{}]", tokens))
    };
    let clash = with_tokens(&format!("{},{}", token(20, "<a>", false, true), token(21, " ", true, false)));
    let t = TextTokenizer::load(&clash).unwrap();
    assert!(matches!(t.encode("<a>  x"), Err(TokenizerError::Clash)));
    assert!(matches!(t.encode("Say this. <a>\t"), Err(TokenizerError::Clash)));
    assert_eq!(t.encode("<a>").unwrap().len(), 1);
    let apart = with_tokens(&format!("{},{}", token(20, "<a>", false, true), token(21, "<b>", true, false)));
    let t = TextTokenizer::load(&apart).unwrap();
    let ids = t.encode("<a>  <b>Say this.").unwrap();
    assert_eq!(ids.len(), 3);
    assert_eq!(ids[2], 7);
    assert_ne!(ids[0], ids[1]);
    // A token of white space that is stripped away is found by no text.
    let strip = with_tokens(&token(20, " ", false, false).replace("\"normalized\":false", "\"normalized\":true"))
        .replace("\"normalizer\":null", "\"normalizer\":{\"type\":\"Strip\",\"strip_left\":true,\"strip_right\":true}");
    assert!(matches!(TextTokenizer::load(&strip), Err(TokenizerError::Unusable)));
}

#[test]
fn texts_are_filled_up() {
    let padded = |fixed: &str, multiple: &str| {
        with_part(
            "padding",
            &format!(
                "{{\"strategy\":{},\"direction\":\"Right\",\"pad_to_multiple_of\":{},\"pad_id\":9,\
                 \"pad_type_id\":0,\"pad_token\":\"p\"}}",
                fixed, multiple
            ),
        )
    };
    let t = TextTokenizer::load(&padded("{\"Fixed\":3}", "null")).unwrap();
    assert_eq!(t.encode("Say this.").unwrap(), vec![7, 9, 9]);
    let t = TextTokenizer::load(&padded("\"BatchLongest\"", "2")).unwrap();
    assert_eq!(t.encode("Say this.").unwrap(), vec![7, 9]);
    for json in [
        padded("{\"Fixed\":18446744073709551615}", "null"),
        padded("\"BatchLongest\"", "18446744073709551615"),
    ] {
        assert!(matches!(TextTokenizer::load(&json), Err(TokenizerError::Unusable)));
    }
}

#[test]
fn scores_choose_between_tokens() {
    let unigram = |score: &str| {
        format!(
            "{{\"version\":\"1.0\",\"truncation\":null,\"padding\":null,\"added_tokens\":[],\
             \"normalizer\":null,\"pre_tokenizer\":null,\"post_processor\":null,\"decoder\":null,\
             \"model\":{{\"type\":\"Unigram\",\"unk_id\":0,\"vocab\":[[\"u\",0.0],[\"a\",-1.5],\
             [\"b\",-1.5],[\"ab\",{}]]}}}}",
            score
        )
    };
    assert_eq!(TextTokenizer::load(&unigram("-0.5")).unwrap().encode("ab").unwrap(), vec![3]);
    assert_eq!(TextTokenizer::load(&unigram("-9.5")).unwrap().encode("ab").unwrap(), vec![1, 2]);
}

#[test]
fn texts_of_a_request() {
    let (before, behind) = prompt_texts(" Hello\u{feff} ", "a  b");
    assert_eq!(
        before,
        vec![
            "<|im_start|>system\n",
            "convert the provided text to speech reference to the following:\n\nText:\n",
            "<|speaker:0|>a b",
            "\n\nSpeech:\n",
        ]
    );
    assert_eq!(
        behind,
        vec![
            "<|im_end|>\n",
            "<|im_start|>user\n",
            "Hello",
            "<|im_end|>\n",
            "<|im_start|>assistant\n<|voice|>",
        ]
    );
}

#[test]
fn dropout_draws_random_numbers() {
    let json = "{\"version\":\"1.0\",\"truncation\":null,\"padding\":null,\"added_tokens\":[],\
        \"normalizer\":null,\"pre_tokenizer\":null,\"post_processor\":null,\"decoder\":null,\
        \"model\":{\"type\":\"BPE\",\"dropout\":0.5,\"unk_token\":null,\
        \"continuing_subword_prefix\":null,\"end_of_word_suffix\":null,\"fuse_unk\":false,\
        \"byte_fallback\":false,\"vocab\":{\"a\":0,\"b\":1,\"ab\":2},\"merges\":[\"a b\"]}}";
    let b = PromptBuilder::new(json, 0, 1).unwrap();
    assert!(b.is_random());
    let sober = PromptBuilder::new(&json.replace("0.5", "null"), 0, 1).unwrap();
    assert!(!sober.is_random());
    assert_eq!(sober.encode_text("ab").unwrap(), vec![2]);
}

#[test]
fn assembles_ids_that_are_there() {
    let codes = CodeGrid::from_cells(1, 2, vec![5, -5]).unwrap();
    let p = assemble(&vec![9], &vec![], &codes, 1000);
    assert_eq!(rows(&p), vec![vec![9, 1005, 995], vec![0, 5, -5]]);
}

#[test]
fn grids_have_the_shape_of_their_cells() {
    assert!(CodeGrid::from_cells(2, 2, vec![1, 2, 3]).is_none());
    assert!(CodeGrid::from_cells(0, usize::MAX, vec![]).is_none());
    let g = CodeGrid::from_rows(&vec![vec![1, 2], vec![3, 4]], 2);
    assert_eq!(g.dim(), (2, 2));
    assert_eq!(g.row(1), vec![3, 4]);
    assert_eq!(g.at(0, 1), 2);
    let t = BatchTensor::from_rows(&vec![vec![1], vec![2], vec![3]], 1);
    assert_eq!(t.dim(), (1, 3, 1));
    assert_eq!(t.cells(), vec![1, 2, 3]);
}

fn manifest(num_layers: &str) -> String {
    format!(
        "{{\"num_layers\": {}, \"num_fast_layers\": 4, \"num_codebooks\": 10, \"n_local_heads\": 2, \
         \"head_dim\": 64, \"codebook_size\": 4096, \"slow_logits_size\": 4097, \
         \"vocab_size\": 155776, \"other\": \"x\"}}",
        num_layers
    )
}

#[test]
fn manifests_are_checked() {
    assert!(ManifestCheck::verify(&manifest("24")).is_ok());
    for (text, expected) in [("23", 23), ("\"24\"", -1), ("24.0", -1), ("null", -1)] {
        match ManifestCheck::verify(&manifest(text)) {
            Err(ManifestError::Mismatch { key, got, expect }) => {
                assert_eq!((key.as_str(), got, expect), ("num_layers", expected, 24));
            }
            other => panic!("{:?}", other),
        }
    }
    match ManifestCheck::verify(&manifest("24").replace("\"vocab_size\"", "\"vocab\"")) {
        Err(ManifestError::Mismatch { key, got, expect }) => {
            assert_eq!((key.as_str(), got, expect), ("vocab_size", -1, 155776));
        }
        other => panic!("{:?}", other),
    }
    for text in ["", "[1]", "null", "{"] {
        assert!(matches!(ManifestCheck::verify(text), Err(ManifestError::Parse(_))), "{}", text);
    }
}

#[test]
fn the_first_mismatch_counts() {
    let good: Vec<i64> = vec![24, 4, 10, 2, 64, 4096, 4097, 155776];
    assert!(ManifestCheck::check_values(&good).is_ok());
    let keys = ["num_layers", "num_fast_layers", "num_codebooks", "n_local_heads", "head_dim",
        "codebook_size", "slow_logits_size", "vocab_size"];
    for i in 0..keys.len() {
        let mut values = good.clone();
        for v in values.iter_mut().skip(i) {
            *v += 1;
        }
        match ManifestCheck::check_values(&values) {
            Err(ManifestError::Mismatch { key, got, expect }) => {
                assert_eq!((key.as_str(), got, expect), (keys[i], good[i] + 1, good[i]));
            }
            other => panic!("{:?}", other),
        }
    }
}
