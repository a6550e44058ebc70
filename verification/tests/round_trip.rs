use let_lang::let_lang_exp::LetLangExp;
use let_lang::let_lang_parser::parse;
use let_lang::let_lang_scanner::tokenize;

fn var(name: &str) -> LetLangExp {
    LetLangExp::new_var_exp(&name.to_string())
}

fn read_back(e: &LetLangExp) -> LetLangExp {
    parse(&tokenize(&e.to_string()).unwrap()).unwrap()
}

fn same(a: &LetLangExp, b: &LetLangExp) -> bool {
    format!("{:?}", a) == format!("{:?}", b)
}

#[test]
fn each_form_reads_back_as_itself() {
    let c = LetLangExp::new_const_exp(64);
    let n = LetLangExp::new_const_exp(-2147483647);
    let t = LetLangExp::new_boolean(true);
    let f = LetLangExp::new_boolean(false);
    let x = var("x");
    let long = var("aVeryLongNameOfLettersOnly");
    let diff = LetLangExp::new_diff_exp(&c, &n);
    let zero = LetLangExp::new_iszero(&diff);
    let cond = LetLangExp::new_if_exp(&zero, &x, &f);
    let bind = LetLangExp::new_let_exp(&"x".to_string(), &cond, &long);
    for e in [&c, &n, &t, &f, &x, &long, &diff, &zero, &cond, &bind] {
        assert!(same(&read_back(e), e), "{}", e.to_string());
    }
}

#[test]
fn nested_expressions_read_back_as_themselves() {
    let mut e = LetLangExp::new_const_exp(0);
    for k in 1..40 {
        let name = if k % 2 == 0 { "even" } else { "odd" };
        e = match k % 4 {
            0 => LetLangExp::new_diff_exp(&e, &LetLangExp::new_const_exp(-k)),
            1 => LetLangExp::new_let_exp(&name.to_string(), &e, &var(name)),
            2 => LetLangExp::new_if_exp(&LetLangExp::new_iszero(&e), &var("a"), &e),
            _ => LetLangExp::new_diff_exp(&LetLangExp::new_boolean(k % 3 == 0), &e),
        };
    }
    assert!(same(&read_back(&e), &e));
    assert_eq!(read_back(&e).to_string(), e.to_string());
}

#[test]
fn names_next_to_keywords_read_back() {
    let e = LetLangExp::new_let_exp(
        &"i".to_string(),
        &var("lett"),
        &LetLangExp::new_if_exp(&var("thenn"), &var("iszeroo"), &var("f")),
    );
    assert_eq!(e.to_string(), "let i = lett in if thenn then iszeroo else f");
    assert!(same(&read_back(&e), &e));
}

#[test]
fn the_least_integer_does_not_read_back() {
    let e = LetLangExp::new_const_exp(i32::MIN);
    assert!(tokenize(&e.to_string()).is_err());
}

#[test]
fn a_name_that_is_a_keyword_does_not_read_back() {
    let e = var("if");
    assert_eq!(e.to_string(), "if");
    assert!(parse(&tokenize(&e.to_string()).unwrap()).is_err());
    let e = var("minus");
    assert!(parse(&tokenize(&e.to_string()).unwrap()).is_err());
    let e = var("true");
    assert!(!same(&read_back(&e), &e));
}

#[test]
fn a_name_that_is_no_word_does_not_read_back() {
    assert!(tokenize(&var("x1").to_string()).is_err());
    assert!(tokenize(&var("a_b").to_string()).is_err());
    assert!(parse(&tokenize(&var("").to_string()).unwrap()).is_err());
    assert!(parse(&tokenize(&var("a b").to_string()).unwrap()).is_err());
}

#[test]
fn text_with_other_spacing_reads_as_the_same_expression() {
    let a = parse(&tokenize("let x = 7 in -(x, 1)").unwrap()).unwrap();
    let b = parse(&tokenize("  let\n\tx =\r\n7 in -(x,1 )  ").unwrap()).unwrap();
    assert!(same(&a, &b));
    assert_eq!(b.to_string(), "let x = 7 in -(x, 1)");
}
