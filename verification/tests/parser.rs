use let_lang::let_lang_exp::LetLangExp;
use let_lang::let_lang_parser::parse;
use let_lang::let_lang_scanner::{tokenize, Token};

fn id(name: &str) -> Token {
    Token::Identifier(name.to_string())
}

fn parsed(tokens: Vec<Token>) -> String {
    format!("{:?}", parse(&tokens).unwrap())
}

fn refused(tokens: Vec<Token>) -> String {
    parse(&tokens).unwrap_err().message().clone()
}

#[test]
fn literals_and_names() {
    assert_eq!(parsed(vec![Token::Integer(5)]), "ConstExp(5)");
    assert_eq!(parsed(vec![Token::Integer(-5)]), "ConstExp(-5)");
    assert_eq!(parsed(vec![Token::Boolean(false)]), "Boolean(false)");
    assert_eq!(parsed(vec![id("x")]), "VarExp(\"x\")");
}

#[test]
fn a_difference() {
    let tokens = vec![
        Token::Minus,
        Token::Lparen,
        Token::Integer(24),
        Token::Comma,
        Token::Integer(31),
        Token::Rparen,
    ];
    assert_eq!(parsed(tokens), "DiffExp(ConstExp(24), ConstExp(31))");
}

#[test]
fn a_zero_test() {
    let tokens = vec![Token::IsZero, Token::Lparen, id("x"), Token::Rparen];
    assert_eq!(parsed(tokens), "IsZeroExp(VarExp(\"x\"))");
}

#[test]
fn a_conditional() {
    let tokens = vec![
        Token::If,
        Token::Boolean(true),
        Token::Then,
        Token::Integer(1),
        Token::Else,
        Token::Integer(-1),
    ];
    assert_eq!(parsed(tokens), "IfExp(Boolean(true), ConstExp(1), ConstExp(-1))");
}

#[test]
fn a_let() {
    let tokens = vec![
        Token::Let,
        id("temp"),
        Token::Assign,
        Token::Integer(3),
        Token::In,
        Token::Minus,
        Token::Lparen,
        id("temp"),
        Token::Comma,
        Token::Integer(103),
        Token::Rparen,
    ];
    assert_eq!(
        parsed(tokens),
        "LetExp(\"temp\", ConstExp(3), DiffExp(VarExp(\"temp\"), ConstExp(103)))"
    );
}

#[test]
fn nested_forms() {
    let tokens = tokenize("if iszero(-(x, 11)) then -(y, 2) else let z = 4 in -(y, z)").unwrap();
    let ast = parse(&tokens).unwrap();
    assert_eq!(
        ast.to_string(),
        "if iszero(-(x, 11)) then -(y, 2) else let z = 4 in -(y, z)"
    );
    match ast {
        LetLangExp::IfExp(c, t, f) => {
            assert!(matches!(*c, LetLangExp::IsZeroExp(_)));
            assert!(matches!(*t, LetLangExp::DiffExp(_, _)));
            assert!(matches!(*f, LetLangExp::LetExp(_, _, _)));
        }
        other => panic!("{:?}", other),
    }
}

#[test]
fn no_tokens_is_an_unexpected_end() {
    assert_eq!(refused(vec![]), "Unexpected end of input");
}

#[test]
fn an_unfinished_expression_is_an_unexpected_end() {
    assert_eq!(refused(vec![Token::If]), "Unexpected end of input");
    assert_eq!(
        refused(vec![Token::Minus, Token::Lparen, Token::Integer(1), Token::Comma]),
        "Unexpected end of input"
    );
    assert_eq!(
        refused(vec![Token::Let, id("x"), Token::Assign, Token::Integer(1), Token::In]),
        "Unexpected end of input"
    );
}

#[test]
fn a_missing_token_at_the_end() {
    assert_eq!(refused(vec![Token::Minus]), "Expected Lparen but found EOI");
    assert_eq!(
        refused(vec![Token::Minus, Token::Lparen, Token::Integer(1)]),
        "Expected Comma but found EOI"
    );
    assert_eq!(
        refused(vec![
            Token::Minus,
            Token::Lparen,
            Token::Integer(1),
            Token::Comma,
            Token::Integer(2)
        ]),
        "Expected Rparen but found EOI"
    );
    assert_eq!(
        refused(vec![Token::IsZero, Token::Lparen, Token::Integer(1)]),
        "Expected Rparen but found EOI"
    );
    assert_eq!(
        refused(vec![Token::If, Token::Boolean(true)]),
        "Expected Then but found EOI"
    );
    assert_eq!(
        refused(vec![Token::If, Token::Boolean(true), Token::Then, Token::Integer(1)]),
        "Expected Else but found EOI"
    );
    assert_eq!(refused(vec![Token::Let, id("x")]), "Expected Assign but found EOI");
    assert_eq!(
        refused(vec![Token::Let, id("x"), Token::Assign, Token::Integer(1)]),
        "Expected In but found EOI"
    );
}

#[test]
fn a_wrong_token_as_the_last_one() {
    assert_eq!(
        refused(vec![Token::Minus, Token::Rparen]),
        "Expected Lparen but found Rparen"
    );
    assert_eq!(
        refused(vec![Token::IsZero, Token::Lparen, id("x"), Token::Comma]),
        "Expected Rparen but found Comma"
    );
    assert_eq!(
        refused(vec![Token::If, Token::Integer(1), Token::Else]),
        "Expected Then but found Else"
    );
    assert_eq!(
        refused(vec![Token::Let, id("x"), id("y")]),
        "Expected Assign but found Identifier(\"y\")"
    );
    assert_eq!(
        refused(vec![Token::Let, id("x"), Token::Integer(-3)]),
        "Expected Assign but found Integer(-3)"
    );
    assert_eq!(
        refused(vec![Token::Let, id("x"), Token::Boolean(true)]),
        "Expected Assign but found Boolean(true)"
    );
}

#[test]
fn a_let_without_a_name() {
    assert_eq!(refused(vec![Token::Let]), "get_string1: Unexpected EOI");
    assert_eq!(
        refused(vec![Token::Let, Token::Integer(1)]),
        "get_string2: Unexpected token type"
    );
    assert_eq!(
        refused(vec![Token::Let, Token::In]),
        "get_string2: Unexpected token type"
    );
}

#[test]
fn tokens_after_a_complete_expression() {
    assert_eq!(
        refused(vec![Token::Integer(1), Token::Integer(2)]),
        "Toplevel: Extra input at end of parse: Integer(2)"
    );
    assert_eq!(
        refused(vec![id("x"), Token::Rparen, Token::Rparen]),
        "Toplevel: Extra input at end of parse: Rparen"
    );
    assert_eq!(
        refused(vec![Token::Boolean(true), id("a\"b")]),
        "Toplevel: Extra input at end of parse: Identifier(\"a\\\"b\")"
    );
}

#[test]
fn tokens_after_a_fault_are_what_the_error_names() {
    assert_eq!(
        refused(vec![Token::Minus, Token::Rparen, Token::Integer(3)]),
        "Toplevel: Extra input at end of parse: Integer(3)"
    );
    assert_eq!(
        refused(vec![Token::Rparen]),
        "Toplevel: Extra input at end of parse: Rparen"
    );
    assert_eq!(
        refused(vec![Token::Let, id("x"), Token::Assign, Token::Then, Token::In]),
        "Toplevel: Extra input at end of parse: Then"
    );
}

#[test]
fn a_token_that_starts_no_expression() {
    for t in [
        Token::Lparen,
        Token::Rparen,
        Token::Comma,
        Token::Assign,
        Token::Then,
        Token::Else,
        Token::In,
    ] {
        let shown = t.debug_string();
        assert_eq!(
            refused(vec![t]),
            format!("Toplevel: Extra input at end of parse: {}", shown)
        );
    }
}

#[test]
fn trailing_input_is_rejected() {
    let tokens = tokenize("let x = 21 in minus)").unwrap();
    let e = parse(&tokens).unwrap_err();
    assert_eq!(e.message().as_str(), "Expected Lparen but found Rparen");
    assert_eq!(e.to_string(), "ParseError: Expected Lparen but found Rparen");
}

#[test]
fn a_parser_error_as_text() {
    let e = parse(&vec![]).unwrap_err();
    assert_eq!(e.to_string(), "ParseError: Unexpected end of input");
}
