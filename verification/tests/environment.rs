use let_lang::int_bool::IntBool;
use let_lang::let_lang_env::LetLangEnv;

#[test]
fn basic_tests() {
    let null_env = LetLangEnv::new_env();
    assert!(null_env.is_null_env());

    let env2 = null_env.extend_env(&("var1".to_string()), IntBool::Integer(25));
    assert!(!(env2.is_null_env()));
}

#[test]
fn lookup_finds_the_binding() {
    let env = LetLangEnv::new_env()
        .extend_env(&"y".to_string(), IntBool::Integer(22))
        .extend_env(&"x".to_string(), IntBool::Integer(33));
    assert_eq!(env.apply_env(&"x".to_string()), Some(IntBool::Integer(33)));
    assert_eq!(env.apply_env(&"y".to_string()), Some(IntBool::Integer(22)));
    assert_eq!(env.apply_env(&"z".to_string()), None);
    assert_eq!(LetLangEnv::new_env().apply_env(&"x".to_string()), None);
}

#[test]
fn the_most_recent_binding_wins() {
    let older = LetLangEnv::new_env().extend_env(&"x".to_string(), IntBool::Integer(1));
    let newer = older.extend_env(&"x".to_string(), IntBool::Boolean(true));
    assert_eq!(newer.apply_env(&"x".to_string()), Some(IntBool::Boolean(true)));
}

#[test]
fn extending_leaves_the_older_environment_as_it_was() {
    let older = LetLangEnv::new_env().extend_env(&"x".to_string(), IntBool::Integer(1));
    let newer = older.extend_env(&"x".to_string(), IntBool::Integer(2));
    let other = older.extend_env(&"y".to_string(), IntBool::Integer(3));
    assert_eq!(older.apply_env(&"x".to_string()), Some(IntBool::Integer(1)));
    assert_eq!(older.apply_env(&"y".to_string()), None);
    assert_eq!(newer.apply_env(&"x".to_string()), Some(IntBool::Integer(2)));
    assert_eq!(newer.apply_env(&"y".to_string()), None);
    assert_eq!(other.apply_env(&"x".to_string()), Some(IntBool::Integer(1)));
    assert_eq!(other.apply_env(&"y".to_string()), Some(IntBool::Integer(3)));
    assert_eq!(older.to_string(), "[x, 1 []]");
}

#[test]
fn environments_as_text() {
    let empty = LetLangEnv::new_env();
    assert_eq!(empty.to_string(), "[]");
    let one = empty.extend_env(&"y".to_string(), IntBool::Integer(22));
    assert_eq!(one.to_string(), "[y, 22 []]");
    let two = one.extend_env(&"x".to_string(), IntBool::Boolean(false));
    assert_eq!(two.to_string(), "[x, false [y, 22 []]]");
    let three = two.extend_env(&"x".to_string(), IntBool::Integer(-7));
    assert_eq!(three.to_string(), "[x, -7 [x, false [y, 22 []]]]");
}

#[test]
fn a_copy_has_the_same_bindings() {
    let env = LetLangEnv::new_env().extend_env(&"a".to_string(), IntBool::Integer(5));
    let copy = env.clone();
    assert_eq!(copy.to_string(), env.to_string());
    assert_eq!(copy.apply_env(&"a".to_string()), Some(IntBool::Integer(5)));
}
