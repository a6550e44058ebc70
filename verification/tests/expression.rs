use let_lang::let_lang_exp::LetLangExp;

#[test]
fn each_form_as_text() {
    let e1 = LetLangExp::new_const_exp(64);
    assert_eq!(e1.to_string(), "64");

    let e2 = LetLangExp::new_diff_exp(&e1, &e1);
    assert_eq!(e2.to_string(), "-(64, 64)");

    let e3 = LetLangExp::new_iszero(&e1);
    assert_eq!(e3.to_string(), "iszero(64)");

    let e4 = LetLangExp::new_if_exp(&e3, &e1, &e2);
    assert_eq!(e4.to_string(), "if iszero(64) then 64 else -(64, 64)");

    let e5 = LetLangExp::new_var_exp(&("myVar".to_string()));
    assert_eq!(e5.to_string(), "myVar");

    let e6 = LetLangExp::new_let_exp(&("x".to_string()), &e1, &e5);
    assert_eq!(e6.to_string(), "let x = 64 in myVar");

    assert_eq!(LetLangExp::new_boolean(true).to_string(), "true");
    assert_eq!(LetLangExp::new_boolean(false).to_string(), "false");
    assert_eq!(LetLangExp::new_const_exp(-571).to_string(), "-571");
    assert_eq!(LetLangExp::new_const_exp(i32::MIN).to_string(), "-2147483648");
}

#[test]
fn constructors_build_the_variant() {
    let c = LetLangExp::new_const_exp(1);
    let b = LetLangExp::new_boolean(true);
    let v = LetLangExp::new_var_exp(&"v".to_string());
    assert!(matches!(c, LetLangExp::ConstExp(1)));
    assert!(matches!(b, LetLangExp::Boolean(true)));
    assert!(matches!(&v, LetLangExp::VarExp(s) if s == "v"));
    match LetLangExp::new_diff_exp(&c, &b) {
        LetLangExp::DiffExp(l, r) => {
            assert!(matches!(*l, LetLangExp::ConstExp(1)));
            assert!(matches!(*r, LetLangExp::Boolean(true)));
        }
        other => panic!("{:?}", other),
    }
    match LetLangExp::new_iszero(&v) {
        LetLangExp::IsZeroExp(e) => assert!(matches!(&*e, LetLangExp::VarExp(s) if s == "v")),
        other => panic!("{:?}", other),
    }
    match LetLangExp::new_if_exp(&b, &c, &v) {
        LetLangExp::IfExp(e1, e2, e3) => {
            assert!(matches!(*e1, LetLangExp::Boolean(true)));
            assert!(matches!(*e2, LetLangExp::ConstExp(1)));
            assert!(matches!(&*e3, LetLangExp::VarExp(s) if s == "v"));
        }
        other => panic!("{:?}", other),
    }
    match LetLangExp::new_let_exp(&"n".to_string(), &c, &v) {
        LetLangExp::LetExp(name, e1, e2) => {
            assert_eq!(name, "n");
            assert!(matches!(*e1, LetLangExp::ConstExp(1)));
            assert!(matches!(&*e2, LetLangExp::VarExp(s) if s == "v"));
        }
        other => panic!("{:?}", other),
    }
}

#[test]
fn a_copy_is_the_same_expression() {
    let e = LetLangExp::new_let_exp(
        &"x".to_string(),
        &LetLangExp::new_const_exp(3),
        &LetLangExp::new_diff_exp(
            &LetLangExp::new_var_exp(&"x".to_string()),
            &LetLangExp::new_const_exp(1),
        ),
    );
    let copy = e.clone();
    assert_eq!(format!("{:?}", copy), format!("{:?}", e));
    assert_eq!(copy.to_string(), "let x = 3 in -(x, 1)");
}
