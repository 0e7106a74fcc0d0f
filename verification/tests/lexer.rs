use keystone::lexer::{classify, tokenize, Tok};

fn kinds_and_texts(toks: &[(Tok, String)]) -> (Vec<Tok>, Vec<String>) {
    let mut kinds = Vec::new();
    let mut texts = Vec::new();
    for (k, t) in toks {
        kinds.push(*k);
        texts.push(t.clone());
    }
    (kinds, texts)
}

fn concat_texts(toks: &[(Tok, String)]) -> String {
    let mut s = String::new();
    for (_, t) in toks {
        s.push_str(t);
    }
    s
}

#[test]
fn classify_literals() {
    assert_eq!(classify(&"var".to_string()), Tok::Keyword);
    assert_eq!(classify(&"println".to_string()), Tok::Function);
    assert_eq!(classify(&"int".to_string()), Tok::Type);
    assert_eq!(classify(&"+".to_string()), Tok::ArithOp);
    assert_eq!(classify(&"(".to_string()), Tok::Separator);
    assert_eq!(classify(&":".to_string()), Tok::Punctuation);
    assert_eq!(classify(&"42".to_string()), Tok::Number);
    assert_eq!(classify(&"3.14".to_string()), Tok::Number);
    assert_eq!(classify(&"foo".to_string()), Tok::Identifier);
    assert_eq!(classify(&" ".to_string()), Tok::Whitespace);
}

#[test]
fn classify_remaining_fixed_sets() {
    assert_eq!(classify(&"-".to_string()), Tok::ArithOp);
    assert_eq!(classify(&"*".to_string()), Tok::ArithOp);
    assert_eq!(classify(&"/".to_string()), Tok::ArithOp);
    for s in [")", "{", "}", "[", "]"] {
        assert_eq!(classify(&s.to_string()), Tok::Separator);
    }
    assert_eq!(classify(&"float".to_string()), Tok::Type);
    assert_eq!(classify(&"str".to_string()), Tok::Type);
    assert_eq!(classify(&"bool".to_string()), Tok::Type);
}

#[test]
fn classify_is_pure() {
    let a = String::from("println");
    let b = format!("print{}", "ln");
    assert_eq!(a, b);
    assert_eq!(classify(&a), classify(&b));
    assert_eq!(classify(&a), classify(&a));
}

#[test]
fn classify_numeric_literals() {
    for s in ["0", "007", "-7", "+12", "1e5", "1E5", "2.5e-10", "3.e2", ".5", "7.", "+.25", "inf",
        "Infinity", "NaN", "nan", "-inf"] {
        assert_eq!(classify(&s.to_string()), Tok::Number, "expected Number for {s:?}");
    }
}

#[test]
fn classify_non_numbers_fall_back_to_identifier() {
    for s in ["", ".", "..", "1.2.3", "1e", "e5", "--1", "+-1", "1_000", "0x10", "abc123", "in",
        "infin", "  "] {
        assert_eq!(classify(&s.to_string()), Tok::Identifier, "expected Identifier for {s:?}");
    }
}

#[test]
fn classify_quote_delimited_text() {
    assert_eq!(classify(&"\"".to_string()), Tok::StringLit);
    assert_eq!(classify(&"\"abc\"".to_string()), Tok::StringLit);
    assert_eq!(classify(&"\"open".to_string()), Tok::Identifier);
}

#[test]
fn tokenize_mixed_run() {
    let toks = tokenize("12ab");
    let (kinds, texts) = kinds_and_texts(&toks);
    assert_eq!(kinds, vec![Tok::Number, Tok::Identifier]);
    assert_eq!(texts, vec!["12".to_string(), "ab".to_string()]);
}

#[test]
fn tokenize_single_character_rule() {
    let toks = tokenize("a+b");
    let (kinds, texts) = kinds_and_texts(&toks);
    assert_eq!(kinds, vec![Tok::Identifier, Tok::ArithOp, Tok::Identifier]);
    assert_eq!(texts, vec!["a".to_string(), "+".to_string(), "b".to_string()]);
}

#[test]
fn tokenize_empty_line() {
    assert!(tokenize("").is_empty());
}

#[test]
fn tokenize_declaration_line() {
    let toks = tokenize("var x: int");
    let (kinds, texts) = kinds_and_texts(&toks);
    assert_eq!(
        texts,
        vec!["var", " ", "x", ":", " ", "int"].iter().map(|s| s.to_string()).collect::<Vec<_>>()
    );
    assert_eq!(
        kinds,
        vec![
            Tok::Keyword,
            Tok::Whitespace,
            Tok::Identifier,
            Tok::Punctuation,
            Tok::Whitespace,
            Tok::Type,
        ]
    );
}

#[test]
fn tokenize_letters_then_digits_stay_one_token() {
    let toks = tokenize("ab12");
    let (kinds, texts) = kinds_and_texts(&toks);
    assert_eq!(kinds, vec![Tok::Identifier]);
    assert_eq!(texts, vec!["ab12".to_string()]);
}

#[test]
fn tokenize_concatenation_reconstructs_line() {
    for line in ["", "var x: int", "println(x)", "12ab", "a+b", "  spaced\tout  ", "quotes \"q\"",
        "_mix_42 ok", "3.14 * r"] {
        assert_eq!(concat_texts(&tokenize(line)), line);
    }
}
