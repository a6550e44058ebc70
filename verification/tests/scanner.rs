use let_lang::let_lang_scanner::{identifier_debug_string, tokenize, Token};

#[test]
fn subtraction_and_multi_digit_integers() {
    assert_eq!(
        tokenize("-(24, +31)").unwrap(),
        vec![
            Token::Minus,
            Token::Lparen,
            Token::Integer(24),
            Token::Comma,
            Token::Integer(31),
            Token::Rparen
        ]
    );
}

#[test]
fn if_expression_and_boolean() {
    assert_eq!(
        tokenize("if true then 1 else -1").unwrap(),
        vec![
            Token::If,
            Token::Boolean(true),
            Token::Then,
            Token::Integer(1),
            Token::Else,
            Token::Integer(-1)
        ]
    );
}

#[test]
fn let_expression_and_assignment() {
    assert_eq!(
        tokenize("let temp = 3 in -(temp, 103)").unwrap(),
        vec![
            Token::Let,
            Token::Identifier("temp".to_string()),
            Token::Assign,
            Token::Integer(3),
            Token::In,
            Token::Minus,
            Token::Lparen,
            Token::Identifier("temp".to_string()),
            Token::Comma,
            Token::Integer(103),
            Token::Rparen
        ]
    );
}

#[test]
fn iszero_let_expression_and_assignment() {
    assert_eq!(
        tokenize("if iszero(TextId) then let x = -571 in false").unwrap(),
        vec![
            Token::If,
            Token::IsZero,
            Token::Lparen,
            Token::Identifier("TextId".to_string()),
            Token::Rparen,
            Token::Then,
            Token::Let,
            Token::Identifier("x".to_string()),
            Token::Assign,
            Token::Integer(-571),
            Token::In,
            Token::Boolean(false)
        ]
    );
}

#[test]
fn minus_word_is_the_minus_token() {
    assert_eq!(
        tokenize("minus(3, 1)").unwrap(),
        vec![
            Token::Minus,
            Token::Lparen,
            Token::Integer(3),
            Token::Comma,
            Token::Integer(1),
            Token::Rparen
        ]
    );
}

#[test]
fn every_keyword_has_its_token() {
    assert_eq!(
        tokenize("iszero minus if then else let in true false").unwrap(),
        vec![
            Token::IsZero,
            Token::Minus,
            Token::If,
            Token::Then,
            Token::Else,
            Token::Let,
            Token::In,
            Token::Boolean(true),
            Token::Boolean(false)
        ]
    );
}

#[test]
fn a_word_that_only_starts_like_a_keyword_is_an_identifier() {
    assert_eq!(
        tokenize("iff lets inn True").unwrap(),
        vec![
            Token::Identifier("iff".to_string()),
            Token::Identifier("lets".to_string()),
            Token::Identifier("inn".to_string()),
            Token::Identifier("True".to_string())
        ]
    );
}

#[test]
fn empty_and_blank_texts_have_no_tokens() {
    assert_eq!(tokenize("").unwrap(), vec![]);
    assert_eq!(tokenize(" \t\r\n\u{a0}\u{3000} ").unwrap(), vec![]);
}

#[test]
fn punctuation_needs_no_separator() {
    assert_eq!(
        tokenize("(),=-").unwrap(),
        vec![Token::Lparen, Token::Rparen, Token::Comma, Token::Assign, Token::Minus]
    );
}

#[test]
fn a_word_or_number_may_end_at_a_parenthesis_or_comma() {
    assert_eq!(
        tokenize("iszero(x)").unwrap(),
        vec![
            Token::IsZero,
            Token::Lparen,
            Token::Identifier("x".to_string()),
            Token::Rparen
        ]
    );
    assert_eq!(
        tokenize("7,8)").unwrap(),
        vec![Token::Integer(7), Token::Comma, Token::Integer(8), Token::Rparen]
    );
}

#[test]
fn signs_and_leading_zeros() {
    assert_eq!(tokenize("007").unwrap(), vec![Token::Integer(7)]);
    assert_eq!(tokenize("+0").unwrap(), vec![Token::Integer(0)]);
    assert_eq!(tokenize("-0").unwrap(), vec![Token::Integer(0)]);
    assert_eq!(tokenize("- 5").unwrap(), vec![Token::Minus, Token::Integer(5)]);
    assert_eq!(
        tokenize("--5").unwrap(),
        vec![Token::Minus, Token::Integer(-5)]
    );
}

#[test]
fn the_largest_and_smallest_literals() {
    assert_eq!(tokenize("2147483647").unwrap(), vec![Token::Integer(2147483647)]);
    assert_eq!(tokenize("+2147483647").unwrap(), vec![Token::Integer(2147483647)]);
    assert_eq!(tokenize("-2147483647").unwrap(), vec![Token::Integer(-2147483647)]);
    assert_eq!(
        tokenize("0000000000000002147483647").unwrap(),
        vec![Token::Integer(2147483647)]
    );
}

#[test]
fn a_number_that_does_not_fit_is_an_error() {
    let e = tokenize("2147483648 ").unwrap_err();
    assert_eq!(e.message().as_str(), "Not a number:  ");
    assert_eq!(e.line(), 1);
    assert_eq!(e.column(), 11);

    let e = tokenize("-2147483648)").unwrap_err();
    assert_eq!(e.message().as_str(), "Not a number: )");
    assert_eq!(e.line(), 1);
    assert_eq!(e.column(), 12);

    let e = tokenize("x 99999999999999999999999x").unwrap_err();
    assert_eq!(e.message().as_str(), "Not a number: x");
    assert_eq!(e.column(), 26);
}

#[test]
fn a_number_that_does_not_fit_at_the_end_of_the_text_is_an_error() {
    let e = tokenize("99999999999").unwrap_err();
    assert_eq!(e.message().as_str(), "Not a number: ");
    assert_eq!(e.line(), 1);
    assert_eq!(e.column(), 12);
}

#[test]
fn isolated_plus_is_an_error() {
    let e = tokenize("+ 1").unwrap_err();
    assert_eq!(e.message().as_str(), "Isolated plus: +");
    assert_eq!(e.line(), 1);
    assert_eq!(e.column(), 1);

    let e = tokenize("1 +").unwrap_err();
    assert_eq!(e.message().as_str(), "Isolated plus: +");
    assert_eq!(e.column(), 3);
}

#[test]
fn unexpected_character_is_an_error() {
    let e = tokenize("1 #").unwrap_err();
    assert_eq!(e.message().as_str(), "Unexpected character: #");
    assert_eq!(e.line(), 1);
    assert_eq!(e.column(), 3);

    let e = tokenize("_x").unwrap_err();
    assert_eq!(e.message().as_str(), "Unexpected character: _");
    assert_eq!(e.column(), 1);
}

#[test]
fn glued_tokens_are_an_error() {
    let e = tokenize("12abc").unwrap_err();
    assert_eq!(e.message().as_str(), "Unexpected char, expected whitespace: a");
    assert_eq!(e.line(), 1);
    assert_eq!(e.column(), 3);

    let e = tokenize("abc12").unwrap_err();
    assert_eq!(e.message().as_str(), "Unexpected char, expected whitespace: 1");
    assert_eq!(e.column(), 4);

    let e = tokenize("let x=1 in x").unwrap_err();
    assert_eq!(e.message().as_str(), "Unexpected char, expected whitespace: =");
    assert_eq!(e.column(), 6);

    let e = tokenize("1-2").unwrap_err();
    assert_eq!(e.message().as_str(), "Unexpected char, expected whitespace: -");
    assert_eq!(e.column(), 2);
}

#[test]
fn line_and_column_follow_line_feeds() {
    let e = tokenize("let x = 1\nin\n  x ?").unwrap_err();
    assert_eq!(e.message().as_str(), "Unexpected character: ?");
    assert_eq!(e.line(), 3);
    assert_eq!(e.column(), 5);

    let e = tokenize("\n\n#").unwrap_err();
    assert_eq!(e.line(), 3);
    assert_eq!(e.column(), 1);

    let e = tokenize("a\r\n#").unwrap_err();
    assert_eq!(e.line(), 2);
    assert_eq!(e.column(), 1);
}

#[test]
fn the_first_fault_ends_the_scan() {
    let e = tokenize("# 12abc +").unwrap_err();
    assert_eq!(e.message().as_str(), "Unexpected character: #");
    assert_eq!(e.column(), 1);
}

#[test]
fn a_scanner_error_as_text() {
    let e = tokenize("1 #").unwrap_err();
    assert_eq!(
        e.to_string(),
        "LexError: Unexpected character: # (line: 1, column: 3)"
    );
    let e = tokenize("0123456789\n 99999999999 ").unwrap_err();
    assert_eq!(e.to_string(), "LexError: Not a number:   (line: 2, column: 13)");
}

#[test]
fn tokens_as_diagnostics_show_them() {
    let tokens = vec![
        Token::Lparen,
        Token::Rparen,
        Token::Comma,
        Token::Minus,
        Token::Assign,
        Token::IsZero,
        Token::If,
        Token::Then,
        Token::Else,
        Token::Let,
        Token::In,
        Token::Identifier("temp".to_string()),
        Token::Identifier("".to_string()),
        Token::Identifier("a\"b\\c\nd\te\u{7f}\u{e9}\u{301}".to_string()),
        Token::Integer(0),
        Token::Integer(24),
        Token::Integer(-571),
        Token::Integer(i32::MIN),
        Token::Integer(i32::MAX),
        Token::Boolean(true),
        Token::Boolean(false),
    ];
    for t in tokens.iter() {
        assert_eq!(t.debug_string(), format!("{:?}", t));
    }
    assert_eq!(Token::Lparen.debug_string(), "Lparen");
    assert_eq!(
        Token::Identifier("temp".to_string()).debug_string(),
        "Identifier(\"temp\")"
    );
    assert_eq!(
        Token::Identifier("a\"b".to_string()).debug_string(),
        "Identifier(\"a\\\"b\")"
    );
    assert_eq!(Token::Integer(-571).debug_string(), "Integer(-571)");
    assert_eq!(Token::Boolean(true).debug_string(), "Boolean(true)");
}

#[test]
fn tokens_are_equal_when_they_stand_for_the_same() {
    assert!(Token::Identifier("x".to_string()) == Token::Identifier("x".to_string()));
    assert!(Token::Identifier("x".to_string()) != Token::Identifier("y".to_string()));
    assert!(Token::Integer(1) != Token::Integer(2));
    assert!(Token::Boolean(true) != Token::Boolean(false));
    assert!(Token::If != Token::In);
    assert!(Token::Integer(1) != Token::Boolean(true));
    let t = Token::Identifier("name".to_string());
    assert_eq!(t.clone(), t);
}

#[test]
fn an_identifier_from_its_quoted_name() {
    assert_eq!(identifier_debug_string("\"x\""), "Identifier(\"x\")");
    assert_eq!(identifier_debug_string(""), "Identifier()");
}
