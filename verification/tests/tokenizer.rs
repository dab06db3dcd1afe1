use vector::json::parse_json;
use vector::text::{
    byte_unicode, char_byte, check_tokenizer, decode, encode, encode_word, is_other, load_bpe, split_words, BpeError,
    TokError,
};

const TOKENIZER: &str = r#"{
  "added_tokens": [{"id": 13, "content": "<eos>", "special": true}],
  "pre_tokenizer": {"type": "ByteLevel", "add_prefix_space": false},
  "model": {
    "type": "BPE",
    "vocab": {"h": 0, "e": 1, "l": 2, "o": 3, "he": 4, "ll": 5, "hell": 6, "hello": 7,
              "\u0120": 8, "\u0120w": 9, "w": 10, "r": 11, "d": 12},
    "merges": ["h e", "l l", "he ll", "hell o", ["\u0120", "w"]]
  }
}"#;

fn words(text: &str) -> Vec<String> {
    split_words(text)
}

#[test]
fn words_follow_the_pretokenizer_pattern() {
    assert_eq!(words("Hello world's 42!"), vec!["Hello", " world", "'s", " 42", "!"]);
    assert_eq!(words("a  b"), vec!["a", " ", " b"]);
    assert_eq!(words("we'll go"), vec!["we", "'ll", " go"]);
    assert_eq!(words("x  "), vec!["x", "  "]);
    assert!(words("").is_empty());
}

#[test]
fn words_cover_the_text() {
    let text = "Tensors: 3.5x faster!  Isn't it?\n\tyes";
    assert_eq!(words(text).concat(), text);
}

#[test]
fn byte_alphabet() {
    let t = byte_unicode();
    assert_eq!(t.len(), 256);
    assert_eq!(t[b'A' as usize], 'A');
    assert_eq!(t[0], '\u{100}');
    assert_eq!(t[b' ' as usize], '\u{120}');
    assert_eq!(t[0x7F], '\u{121}');
    assert_eq!(t[0xAD], '\u{143}');
    for b in 0..256usize {
        assert_eq!(char_byte(t[b]), Some(b as u8));
    }
    assert_eq!(char_byte('\u{144}'), None);
    assert_eq!(char_byte(' '), None);
}

#[test]
fn other_characters() {
    assert!(is_other('!'));
    assert!(!is_other('a'));
    assert!(!is_other('7'));
    assert!(!is_other(' '));
}

#[test]
fn encode_merges_by_rank() {
    let bpe = check_tokenizer(TOKENIZER.as_bytes()).unwrap();
    assert_eq!(encode_word(&bpe, "hello").unwrap(), vec![7]);
    assert_eq!(encode(&bpe, "hello world").unwrap(), vec![7, 9, 3, 11, 2, 12]);
    assert_eq!(encode(&bpe, "").unwrap(), Vec::<u32>::new());
    assert_eq!(encode(&bpe, "hex"), Err(BpeError::NoToken("x".to_string())));
}

#[test]
fn decode_gives_text_back() {
    let bpe = check_tokenizer(TOKENIZER.as_bytes()).unwrap();
    assert_eq!(decode(&bpe, &[7, 9, 3, 11, 2, 12]).unwrap(), "hello world");
    let ids = encode(&bpe, "hello world").unwrap();
    assert_eq!(decode(&bpe, &ids).unwrap(), "hello world");
    assert_eq!(decode(&bpe, &[13]).unwrap(), "<eos>");
    assert_eq!(decode(&bpe, &[99]), Err(BpeError::UnknownId(99)));
}

#[test]
fn prefix_space_is_added() {
    let text = TOKENIZER.replace("\"add_prefix_space\": false", "\"add_prefix_space\": true");
    let bpe = check_tokenizer(text.as_bytes()).unwrap();
    assert!(bpe.add_prefix_space);
    assert_eq!(encode(&bpe, "world").unwrap(), vec![9, 3, 11, 2, 12]);
    assert_eq!(encode(&bpe, " world").unwrap(), vec![9, 3, 11, 2, 12]);
}

#[test]
fn tokenizer_is_loaded_from_json() {
    let root = parse_json(TOKENIZER.as_bytes()).unwrap();
    let bpe = load_bpe(&root).unwrap();
    assert_eq!(bpe.ranks.len(), 5);
    assert_eq!(bpe.ranks[4], ("\u{120}".to_string(), "w".to_string()));
    assert!(bpe.token_to_id.contains(&("<eos>".to_string(), 13)));
    assert!(bpe.id_to_token.contains(&(7, "hello".to_string())));
}

#[test]
fn tokenizer_errors() {
    let err = |t: &str| check_tokenizer(t.as_bytes()).err().unwrap();
    assert_eq!(err("[1]"), TokError::NotObject);
    assert_eq!(err("{}"), TokError::NoModel);
    assert_eq!(err(r#"{"model": {"type": "WordPiece"}}"#), TokError::NotBpe("WordPiece".to_string()));
    assert_eq!(err(r#"{"model": {"type": "BPE"}}"#), TokError::NoPreTokenizer);
    assert_eq!(
        err(r#"{"model": {}, "pre_tokenizer": {"type": "Whitespace"}}"#),
        TokError::UnsupportedPreTokenizer("Whitespace".to_string())
    );
    assert_eq!(err(r#"{"model": {}, "pre_tokenizer": {"type": "ByteLevel"}}"#), TokError::NoVocab);
    assert_eq!(
        err(r#"{"model": {"vocab": {"a": "x"}}, "pre_tokenizer": {"type": "ByteLevel"}}"#),
        TokError::MalformedVocab
    );
    assert_eq!(err(r#"{"model": {"vocab": {"a": 0}}, "pre_tokenizer": {"type": "ByteLevel"}}"#), TokError::NoMerges);
    assert_eq!(
        err(r#"{"model": {"vocab": {"a": 0}, "merges": ["ab"]}, "pre_tokenizer": {"type": "ByteLevel"}}"#),
        TokError::MalformedMerge("ab".to_string())
    );
    assert!(matches!(err("{"), TokError::Json(_)));
}
