use qcm_backend::tokenizer::{FtsTokenizer, Token};

#[test]
fn test_tokenizer() {
    let tokenizer = FtsTokenizer::new();

    // Test alphabetic (lowercase)
    assert_eq!(
        tokenizer.tokenize("Hello"),
        vec![Token::Alphabetic("hello".to_string(), 0)]
    );

    // Test numeric
    assert_eq!(
        tokenizer.tokenize("12345"),
        vec![Token::Numeric("12345".to_string(), 0)]
    );

    // Test mixed with separators
    assert_eq!(
        tokenizer.tokenize("Hello-World"),
        vec![
            Token::Alphabetic("hello".to_string(), 0),
            Token::Alphabetic("world".to_string(), 6)
        ]
    );

    // Test Chinese characters (ngram)
    assert_eq!(
        tokenizer.tokenize("中国"),
        vec![Token::NGram("中国".to_string(), 0)]
    );
    assert_eq!(
        tokenizer.tokenize("中国人"),
        vec![
            Token::NGram("中国".to_string(), 0),
            Token::NGram("国人".to_string(), 1)
        ]
    );

    // Test mixed content
    assert_eq!(
        tokenizer.tokenize("Hello世界123"),
        vec![
            Token::Alphabetic("hello".to_string(), 0),
            Token::NGram("世界".to_string(), 5),
            Token::Numeric("123".to_string(), 7)
        ]
    );

    // Test mixed without separators
    assert_eq!(
        tokenizer.tokenize("abc123世界def"),
        vec![
            Token::Alphabetic("abc".to_string(), 0),
            Token::Numeric("123".to_string(), 3),
            Token::NGram("世界".to_string(), 6),
            Token::Alphabetic("def".to_string(), 8)
        ]
    );

    // Test mixed with Chinese
    assert_eq!(
        tokenizer.tokenize("我abc123"),
        vec![
            Token::NGram("我".to_string(), 0),
            Token::Alphabetic("abc".to_string(), 1),
            Token::Numeric("123".to_string(), 4)
        ]
    );

    // Test mixed numbers and letters
    assert_eq!(
        tokenizer.tokenize("abc123def456"),
        vec![
            Token::Alphabetic("abc".to_string(), 0),
            Token::Numeric("123".to_string(), 3),
            Token::Alphabetic("def".to_string(), 6),
            Token::Numeric("456".to_string(), 9)
        ]
    );
}

#[test]
fn tokenize_empty_and_separators_only() {
    let t = FtsTokenizer::new();
    assert_eq!(t.tokenize(""), vec![]);
    assert_eq!(t.tokenize(" - ,./"), vec![]);
}

#[test]
fn tokenize_normalizes_full_width_letters_and_digits() {
    // NFKC turns full-width forms into ASCII, which then tokenize as ASCII.
    let t = FtsTokenizer::new();
    assert_eq!(
        t.tokenize("ＡＢＣ１２"),
        vec![
            Token::Alphabetic("abc".to_string(), 0),
            Token::Numeric("12".to_string(), 3)
        ]
    );
}

#[test]
fn tokenize_normalized_counts_positions_in_characters() {
    let t = FtsTokenizer::new();
    assert_eq!(
        t.tokenize_normalized("日本語 AB"),
        vec![
            Token::NGram("日本".to_string(), 0),
            Token::NGram("本語".to_string(), 1),
            Token::Alphabetic("ab".to_string(), 4)
        ]
    );
}

#[test]
fn tokens_are_found_at_their_positions() {
    let t = FtsTokenizer::new();
    let text = "Rock'n'Roll 1984 東京タワー";
    let chars: Vec<char> = text.chars().collect();
    for tok in t.tokenize_normalized(text) {
        let (w, p, lower) = match tok {
            Token::Alphabetic(w, p) => (w, p, true),
            Token::Numeric(w, p) => (w, p, false),
            Token::NGram(w, p) => (w, p, false),
        };
        let n = w.chars().count();
        assert!(n > 0);
        let found: String = chars[p..p + n].iter().collect();
        if lower {
            assert_eq!(found.to_ascii_lowercase(), w);
        } else {
            assert_eq!(found, w);
        }
    }
}
