use markforge::token::{lex_text, LexTok, Tokenizer};

fn token_text(tok: &LexTok) -> String {
    match tok {
        LexTok::Text(t) | LexTok::Number(t) => t.clone(),
        LexTok::Hash => "#".into(),
        LexTok::Star => "*".into(),
        LexTok::Underscore => "_".into(),
        LexTok::Tilde => "~".into(),
        LexTok::Backtick => "`".into(),
        LexTok::Dash => "-".into(),
        LexTok::Plus => "+".into(),
        LexTok::LBracket => "[".into(),
        LexTok::RBracket => "]".into(),
        LexTok::LParen => "(".into(),
        LexTok::RParen => ")".into(),
        LexTok::GreaterThan => ">".into(),
        LexTok::Pipe => "|".into(),
        LexTok::Newline => "\n".into(),
        LexTok::EOF => String::new(),
    }
}

#[test]
fn lexing_loses_nothing() {
    let source = "# Head_1\n- a-b *c* ~~d~~ `e` [f](g) ![i](j) > h | 42 + 7!\n";
    let tokens = lex_text(&source.to_string());
    let joined: String = tokens.iter().map(token_text).collect();
    assert_eq!(joined, source);
}

#[test]
fn tokens_end_with_one_end_marker() {
    let tokens = lex_text(&"a\nb".to_string());
    assert_eq!(tokens.last(), Some(&LexTok::EOF));
    assert_eq!(tokens.iter().filter(|t| **t == LexTok::EOF).count(), 1);
    assert_eq!(lex_text(&String::new()), vec![LexTok::EOF]);
}

#[test]
fn symbols_numbers_and_text() {
    let tokens = lex_text(&"12ab-c+d".to_string());
    assert_eq!(
        tokens,
        vec![
            LexTok::Number("12".to_string()),
            LexTok::Text("ab-c".to_string()),
            LexTok::Plus,
            LexTok::Text("d".to_string()),
            LexTok::EOF,
        ]
    );
}

#[test]
fn non_ascii_digits_are_numbers() {
    let tokens = lex_text(&"٣٤x".to_string());
    assert_eq!(tokens, vec![LexTok::Number("٣٤".to_string()), LexTok::Text("x".to_string()), LexTok::EOF]);
}

#[test]
fn tokenizer_reads_every_character() {
    let mut tokenizer = Tokenizer::new("-|>");
    assert_eq!(
        tokenizer.tokenize(),
        vec![LexTok::Dash, LexTok::Pipe, LexTok::GreaterThan, LexTok::EOF]
    );
    assert_eq!(tokenizer.tokenize(), vec![LexTok::EOF]);
}

#[test]
fn each_token_lexes_back_to_itself() {
    let tokens = lex_text(&"# a-1 *b* 42x [c](d) ![e] | f\n".to_string());
    for tok in tokens.iter().filter(|t| **t != LexTok::EOF) {
        assert_eq!(lex_text(&token_text(tok)), vec![tok.clone(), LexTok::EOF]);
    }
}

#[test]
fn text_and_number_tokens_have_their_shape() {
    let tokens = lex_text(&"7 a-b9 c!|".to_string());
    assert_eq!(
        tokens,
        vec![
            LexTok::Number("7".to_string()),
            LexTok::Text(" a-b9 c!".to_string()),
            LexTok::Pipe,
            LexTok::EOF,
        ]
    );
    assert_eq!(lex_text(&"a!b".to_string()), vec![LexTok::Text("a!b".to_string()), LexTok::EOF]);
}

#[test]
fn lexing_splits_at_a_character_that_ends_text() {
    let whole = lex_text(&"ab 12#c-1".to_string());
    let mut parts = lex_text(&"ab 12".to_string());
    parts.pop();
    parts.extend(lex_text(&"#c-1".to_string()));
    assert_eq!(whole, parts);
}

#[test]
fn symbols_give_their_own_tokens() {
    let tokens = lex_text(&"#*_~`-+[]()>|\n".to_string());
    assert_eq!(
        tokens,
        vec![
            LexTok::Hash,
            LexTok::Star,
            LexTok::Underscore,
            LexTok::Tilde,
            LexTok::Backtick,
            LexTok::Dash,
            LexTok::Plus,
            LexTok::LBracket,
            LexTok::RBracket,
            LexTok::LParen,
            LexTok::RParen,
            LexTok::GreaterThan,
            LexTok::Pipe,
            LexTok::Newline,
            LexTok::EOF,
        ]
    );
}
