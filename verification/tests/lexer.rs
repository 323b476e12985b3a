use moonwalk::ast::{Register, Token};
use moonwalk::lex::{
    accept, lex, lex_located, Handler, LexFailure, PatternError, TokenMatcher, Tokenizer,
};

fn text(s: &str) -> Option<String> {
    Some(s.to_string())
}

#[test]
fn lex_four_line_program() {
    let tokens = lex("forwards\nio $65 if forwards\nbackwards\nhalt\n".to_string()).unwrap();
    assert_eq!(
        tokens,
        vec![
            Token::Forwards,
            Token::Newlines(1),
            Token::Io,
            Token::Literal,
            Token::Num(65),
            Token::If,
            Token::Forwards,
            Token::Newlines(1),
            Token::Backwards,
            Token::Newlines(1),
            Token::Halt,
            Token::Newlines(1),
        ]
    );
}

#[test]
fn lex_empty_input_has_no_tokens() {
    assert_eq!(lex(String::new()), Some(vec![]));
}

#[test]
fn lex_hex_before_decimal() {
    assert_eq!(lex("0x1F".to_string()), Some(vec![Token::Num(31)]));
    assert_eq!(lex("0xff 10".to_string()), Some(vec![Token::Num(255), Token::Num(10)]));
    assert_eq!(lex("007".to_string()), Some(vec![Token::Num(7)]));
}

#[test]
fn lex_hex_without_digits_is_zero_and_identifier() {
    assert_eq!(
        lex("0xg".to_string()),
        Some(vec![Token::Num(0), Token::Identifier("xg".to_string())])
    );
}

#[test]
fn lex_punctuation_and_operators() {
    assert_eq!(
        lex("$ : ( ) * <= >= > = <".to_string()),
        Some(vec![
            Token::Literal,
            Token::Label,
            Token::Open,
            Token::Close,
            Token::Deref,
            Token::Lte,
            Token::Gte,
            Token::Gt,
            Token::Eq,
            Token::Lt,
        ])
    );
}

#[test]
fn lex_keywords() {
    assert_eq!(
        lex("jump from inc halt io backwards forwards reverse if and or".to_string()),
        Some(vec![
            Token::Jump,
            Token::From,
            Token::Inc,
            Token::Halt,
            Token::Io,
            Token::Backwards,
            Token::Forwards,
            Token::Reverse,
            Token::If,
            Token::And,
            Token::Or,
        ])
    );
}

#[test]
fn lex_first_match_not_longest_match() {
    assert_eq!(
        lex("inch".to_string()),
        Some(vec![Token::Inc, Token::Identifier("h".to_string())])
    );
    assert_eq!(
        lex("1abc".to_string()),
        Some(vec![Token::Num(1), Token::Identifier("abc".to_string())])
    );
}

#[test]
fn lex_register_names() {
    assert_eq!(lex("A".to_string()), Some(vec![Token::Reg(Register::A)]));
    assert_eq!(lex("b".to_string()), Some(vec![Token::Reg(Register::B)]));
    assert_eq!(
        lex("C D".to_string()),
        Some(vec![Token::Reg(Register::C), Token::Reg(Register::D)])
    );
}

#[test]
fn lex_register_keeps_what_follows() {
    assert_eq!(
        lex("A\n".to_string()),
        Some(vec![Token::Reg(Register::A), Token::Newlines(1)])
    );
    assert_eq!(
        lex("(A)".to_string()),
        Some(vec![Token::Open, Token::Reg(Register::A), Token::Close])
    );
    assert_eq!(
        lex("a=1".to_string()),
        Some(vec![Token::Reg(Register::A), Token::Eq, Token::Num(1)])
    );
}

#[test]
fn lex_register_letter_inside_identifier() {
    assert_eq!(lex("AB".to_string()), Some(vec![Token::Identifier("AB".to_string())]));
    assert_eq!(lex("a-1".to_string()), Some(vec![Token::Identifier("a-1".to_string())]));
    assert_eq!(lex("d2".to_string()), Some(vec![Token::Identifier("d2".to_string())]));
    assert_eq!(lex("E".to_string()), Some(vec![Token::Identifier("E".to_string())]));
}

#[test]
fn lex_label_line() {
    assert_eq!(
        lex("loop: halt".to_string()),
        Some(vec![Token::Identifier("loop".to_string()), Token::Label, Token::Halt])
    );
}

#[test]
fn lex_comment_is_discarded() {
    assert_eq!(
        lex("halt ; stop here\nhalt".to_string()),
        Some(vec![Token::Halt, Token::Nop, Token::Newlines(1), Token::Halt])
    );
}

#[test]
fn lex_newline_runs_are_counted() {
    assert_eq!(
        lex("halt\n\n\nhalt".to_string()),
        Some(vec![Token::Halt, Token::Newlines(3), Token::Halt])
    );
}

#[test]
fn lex_tab_is_blank() {
    assert_eq!(lex("halt\thalt".to_string()), Some(vec![Token::Halt, Token::Nop, Token::Halt]));
}

#[test]
fn lex_unknown_character_fails() {
    assert_eq!(lex("@".to_string()), None);
    assert_eq!(lex("halt\n#".to_string()), None);
}

#[test]
fn lex_trailing_spaces_fail() {
    assert_eq!(lex("halt  ".to_string()), None);
    assert_eq!(lex("halt  \n".to_string()), Some(vec![Token::Halt, Token::Newlines(1)]));
}

#[test]
fn lex_number_too_large_is_no_number() {
    assert_eq!(
        lex("99999999999999999999999999".to_string()),
        Some(vec![Token::Identifier("99999999999999999999999999".to_string())])
    );
}

#[test]
fn handle_hex() {
    assert_eq!(Handler::Hex.handle("0x10", ""), Some(Token::Num(16)));
    assert_eq!(Handler::Hex.handle("0xAb", ""), Some(Token::Num(171)));
    assert_eq!(Handler::Hex.handle("0x", ""), None);
    assert_eq!(Handler::Hex.handle("10", ""), None);
    assert_eq!(Handler::Hex.handle("0xg", ""), None);
    assert_eq!(Handler::Hex.handle("0x100000000000000000000000000000000", ""), None);
}

#[test]
fn handle_decimal() {
    assert_eq!(Handler::Decimal.handle("65", ""), Some(Token::Num(65)));
    assert_eq!(Handler::Decimal.handle("0", ""), Some(Token::Num(0)));
    assert_eq!(Handler::Decimal.handle("", ""), None);
    assert_eq!(Handler::Decimal.handle("6a", ""), None);
    assert_eq!(
        Handler::Decimal.handle(&usize::MAX.to_string(), ""),
        Some(Token::Num(usize::MAX))
    );
    assert_eq!(Handler::Decimal.handle("340282366920938463463374607431768211456", ""), None);
}

#[test]
fn handle_keyword() {
    assert_eq!(Handler::Keyword.handle("jump", ""), Some(Token::Jump));
    assert_eq!(Handler::Keyword.handle("<=", ""), Some(Token::Lte));
    assert_eq!(Handler::Keyword.handle("$", ""), Some(Token::Literal));
    assert_eq!(Handler::Keyword.handle("nothing", ""), Some(Token::Nop));
}

#[test]
fn handle_register_looks_ahead() {
    assert_eq!(Handler::Register.handle("A", ""), Some(Token::Reg(Register::A)));
    assert_eq!(Handler::Register.handle("d", " $1"), Some(Token::Reg(Register::D)));
    assert_eq!(Handler::Register.handle("A", "b"), None);
    assert_eq!(Handler::Register.handle("A", "-"), None);
    assert_eq!(Handler::Register.handle("A", "9"), None);
    assert_eq!(Handler::Register.handle("E", ""), None);
    assert_eq!(Handler::Register.handle("AB", ""), None);
}

#[test]
fn handle_identifier_comment_newlines_blank() {
    assert_eq!(
        Handler::Identifier.handle("loop", ""),
        Some(Token::Identifier("loop".to_string()))
    );
    assert_eq!(Handler::Comment.handle("; text", ""), Some(Token::Nop));
    assert_eq!(Handler::Newlines.handle("\n\n", ""), Some(Token::Newlines(2)));
    assert_eq!(Handler::Blank.handle("\t", ""), Some(Token::Nop));
}

#[test]
fn accept_takes_token_and_rest() {
    let mut tokens = vec![Token::Halt];
    let rest = accept(&Handler::Decimal, Some((text("12"), text(" rest"))), 7, &mut tokens);
    assert_eq!(rest, Some(" rest".to_string()));
    assert_eq!(tokens, vec![Token::Halt, Token::Num(12)]);
}

#[test]
fn accept_refuses_empty_text() {
    let mut tokens = vec![];
    assert_eq!(accept(&Handler::Blank, Some((text(""), text("x"))), 5, &mut tokens), None);
    assert_eq!(tokens, vec![]);
}

#[test]
fn accept_refuses_rest_that_is_not_shorter() {
    let mut tokens = vec![];
    assert_eq!(accept(&Handler::Identifier, Some((text("ab"), text("abcd"))), 4, &mut tokens), None);
    assert_eq!(accept(&Handler::Identifier, Some((text("ab"), text("abc"))), 4, &mut tokens),
        Some("abc".to_string()));
    assert_eq!(tokens, vec![Token::Identifier("ab".to_string())]);
}

#[test]
fn accept_refuses_missing_group_and_no_match() {
    let mut tokens = vec![];
    assert_eq!(accept(&Handler::Identifier, None, 4, &mut tokens), None);
    assert_eq!(accept(&Handler::Identifier, Some((None, text(""))), 4, &mut tokens), None);
    assert_eq!(accept(&Handler::Identifier, Some((text("ab"), None)), 4, &mut tokens), None);
    assert_eq!(tokens, vec![]);
}

#[test]
fn accept_refuses_text_that_is_no_token() {
    let mut tokens = vec![];
    assert_eq!(accept(&Handler::Decimal, Some((text("x1"), text(""))), 2, &mut tokens), None);
    assert_eq!(tokens, vec![]);
}

#[test]
fn try_match_splits_at_the_front() {
    let matcher = TokenMatcher {
        pattern: "^[ ]*([0-9]+)(?s)(.*)$".to_string(),
        on_match: Handler::Decimal,
    };
    let mut tokens = vec![];
    let rest = matcher.try_match(&"  42 and\nmore".to_string(), &mut tokens);
    assert_eq!(rest, Some(" and\nmore".to_string()));
    assert_eq!(tokens, vec![Token::Num(42)]);
    assert_eq!(matcher.try_match(&"x42".to_string(), &mut tokens), None);
    assert_eq!(tokens, vec![Token::Num(42)]);
}

#[test]
fn try_match_with_pattern_that_does_not_compile() {
    let matcher = TokenMatcher { pattern: "(".to_string(), on_match: Handler::Identifier };
    let mut tokens = vec![];
    assert_eq!(matcher.try_match(&"(".to_string(), &mut tokens), None);
    assert_eq!(tokens, vec![]);
}

#[test]
fn def_match_refuses_bad_pattern() {
    let mut tokenizer = Tokenizer::new();
    assert_eq!(tokenizer.def_match("(", Handler::Identifier), Err(PatternError));
    assert_eq!(tokenizer.matchers.len(), 0);
    assert_eq!(tokenizer.def_match("[a-z]+", Handler::Identifier), Ok(()));
    assert_eq!(tokenizer.matchers.len(), 1);
    assert_eq!(tokenizer.matchers[0].pattern, "^[ ]*([a-z]+)(?s)(.*)$");
}

#[test]
fn tokenizer_tries_recognizers_in_order() {
    let mut tokenizer = Tokenizer::new();
    tokenizer.def_match("[a-z]+", Handler::Identifier).unwrap();
    tokenizer.def_match("[a-z0-9]+", Handler::Comment).unwrap();
    assert_eq!(
        tokenizer.tokenize("ab 1c".to_string()),
        Some(vec![Token::Identifier("ab".to_string()), Token::Nop])
    );
    assert_eq!(tokenizer.tokenize("ab !".to_string()), None);
}

#[test]
fn tokenizer_without_recognizers() {
    let tokenizer = Tokenizer::new();
    assert_eq!(tokenizer.tokenize(String::new()), Some(vec![]));
    assert_eq!(tokenizer.tokenize("x".to_string()), None);
}

#[test]
fn lex_located_agrees_with_lex() {
    let source = "loop: inc A $1 if backwards ; note\n\njump loop\n";
    assert_eq!(lex_located(source.to_string()).ok(), lex(source.to_string()));
    assert_eq!(lex(source.to_string()).unwrap().len(), 13);
    assert_eq!(lex_located(String::new()), Ok(vec![]));
}

#[test]
fn lex_located_finds_the_line() {
    assert_eq!(lex_located("@".to_string()), Err(LexFailure { offset: 0, line: 1 }));
    assert_eq!(lex_located("halt\n#".to_string()), Err(LexFailure { offset: 5, line: 2 }));
    assert_eq!(
        lex_located("halt\n\n\ninc A ?1\n".to_string()),
        Err(LexFailure { offset: 12, line: 4 })
    );
    assert_eq!(lex_located("halt  ".to_string()), Err(LexFailure { offset: 4, line: 1 }));
}

#[test]
fn lex_located_counts_characters_not_bytes() {
    assert_eq!(
        lex_located("; \u{e9}t\u{e9}\n\u{e9}".to_string()),
        Err(LexFailure { offset: 6, line: 2 })
    );
}

#[test]
fn split_hands_back_what_is_left() {
    let mut tokenizer = Tokenizer::new();
    tokenizer.def_match("[a-z]+", Handler::Identifier).unwrap();
    let (tokens, left) = tokenizer.split("ab cd 12 ef".to_string());
    assert_eq!(
        tokens,
        vec![Token::Identifier("ab".to_string()), Token::Identifier("cd".to_string())]
    );
    assert_eq!(left, " 12 ef");
    let (tokens, left) = tokenizer.split("ab".to_string());
    assert_eq!(tokens, vec![Token::Identifier("ab".to_string())]);
    assert_eq!(left, "");
}
