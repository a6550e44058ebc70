use let_lang::int_bool::IntBool;
use let_lang::let_lang_scanner::chars_of;
use let_lang::text::{
    bool_to_string, digit_of, i32_to_string, is_digit, is_letter, is_whitespace, push_decimal,
};

#[test]
fn white_space_is_what_the_standard_library_says() {
    let mut code: u32 = 0;
    while code <= 0x10ffff {
        if let Some(c) = char::from_u32(code) {
            assert_eq!(is_whitespace(c), c.is_whitespace(), "at {:x}", code);
        }
        code += 1;
    }
}

#[test]
fn letters_and_digits_are_the_ascii_ones() {
    let mut code: u32 = 0;
    while code <= 0x10ffff {
        if let Some(c) = char::from_u32(code) {
            assert_eq!(is_letter(c), c.is_ascii_alphabetic(), "at {:x}", code);
            assert_eq!(is_digit(c), c.is_ascii_digit(), "at {:x}", code);
        }
        code += 1;
    }
}

#[test]
fn digits_by_value() {
    let expected = ['0', '1', '2', '3', '4', '5', '6', '7', '8', '9'];
    for d in 0..10u32 {
        assert_eq!(digit_of(d), expected[d as usize]);
    }
}

#[test]
fn decimal_numerals() {
    assert_eq!(i32_to_string(0), "0");
    assert_eq!(i32_to_string(7), "7");
    assert_eq!(i32_to_string(10), "10");
    assert_eq!(i32_to_string(-1), "-1");
    assert_eq!(i32_to_string(-571), "-571");
    assert_eq!(i32_to_string(2147483647), "2147483647");
    assert_eq!(i32_to_string(-2147483648), "-2147483648");
    let samples = [
        0, 1, -1, 9, 10, 11, 99, 100, 101, -9, -10, -100, 12345, -12345, 1000000, i32::MAX,
        i32::MIN, i32::MAX - 1, i32::MIN + 1,
    ];
    for n in samples {
        assert_eq!(i32_to_string(n), n.to_string());
    }
    let mut n: i32 = -5000;
    while n <= 5000 {
        assert_eq!(i32_to_string(n), n.to_string());
        n += 1;
    }
}

#[test]
fn push_decimal_appends() {
    let mut s = "n = ".to_string();
    push_decimal(&mut s, 4294967295);
    assert_eq!(s, "n = 4294967295");
    push_decimal(&mut s, 0);
    assert_eq!(s, "n = 42949672950");
}

#[test]
fn booleans_as_text() {
    assert_eq!(bool_to_string(true), "true");
    assert_eq!(bool_to_string(false), "false");
}

#[test]
fn values_as_text() {
    assert_eq!(IntBool::Integer(25).to_string(), "25");
    assert_eq!(IntBool::Integer(-3).to_string(), "-3");
    assert_eq!(IntBool::Boolean(true).to_string(), "true");
    assert_eq!(IntBool::Boolean(false).to_string(), "false");
}

#[test]
fn characters_of_a_string() {
    assert_eq!(chars_of(""), Vec::<char>::new());
    assert_eq!(chars_of("a\u{e9}\u{1f600}z"), vec!['a', '\u{e9}', '\u{1f600}', 'z']);
}
