//! Writing an expression out and reading it back gives the expression
//! again; and an integer literal has the integer it denotes as its value.

use vstd::prelude::*;
use crate::grammar::{
    lemma_diff_layout, lemma_if_layout, lemma_iszero_layout, lemma_let_layout,
    lemma_parse_inverts_tokens_of,
};
use crate::int_bool::IntBool;
use crate::let_lang_env::Bindings;
use crate::let_lang_eval::{value, within_range};
use crate::let_lang_exp::ExpModel;
use crate::let_lang_parser::{parse_tokens, tokens_of};
use crate::let_lang_scanner::{
    after, digit_run, lemma_lexeme_advances, lemma_scan_step, letter_run, lex, lexeme_at,
    scan_from, separated, word_token, LexErrModel, LexFault, Lexeme, TokenModel,
};
use crate::occurs::{lemma_occurs_item, lemma_occurs_parts, occurs};
use crate::text::{
    all_digits, all_letters, blank, bool_text, decimal, decimal_digits, digit, digits_value,
    letter, lemma_decimal_digits,
};

verus! {

/// Tokens in front of tokens in front of a rest are all of them in front
/// of the rest.
pub proof fn lemma_after_after(
    a: Seq<TokenModel>,
    b: Seq<TokenModel>,
    rest: Result<Seq<TokenModel>, LexFault>,
)
    ensures
        after(a, after(b, rest)) == after(a + b, rest),
{
    if let Ok(ts) = rest {
        assert(a + (b + ts) =~= (a + b) + ts);
    }
}

/// A run of letters that ends before `j` has `j - i` letters from `i` on.
pub proof fn lemma_letter_run(s: Seq<char>, i: int, j: int)
    requires
        0 <= i <= j <= s.len(),
        forall|k: int| i <= k < j ==> letter(#[trigger] s[k]),
        j == s.len() || !letter(s[j]),
    ensures
        letter_run(s, i) == j - i,
    decreases j - i,
{
    if i < j {
        lemma_letter_run(s, i + 1, j);
    }
}

/// A run of digits that ends before `j` has `j - i` digits from `i` on.
pub proof fn lemma_digit_run(s: Seq<char>, i: int, j: int)
    requires
        0 <= i <= j <= s.len(),
        forall|k: int| i <= k < j ==> digit(#[trigger] s[k]),
        j == s.len() || !digit(s[j]),
    ensures
        digit_run(s, i) == j - i,
    decreases j - i,
{
    if i < j {
        lemma_digit_run(s, i + 1, j);
    }
}

/// What the scanner makes of one character that is white space, a
/// parenthesis, a comma, an equals sign, or a minus sign before something
/// that is no digit.
pub proof fn lemma_scan_char(s: Seq<char>, i: int)
    requires
        0 <= i < s.len(),
    ensures
        blank(s[i]) ==> scan_from(s, i) == scan_from(s, i + 1),
        s[i] == '(' ==> scan_from(s, i) == after(seq![TokenModel::Lparen], scan_from(s, i + 1)),
        s[i] == ')' ==> scan_from(s, i) == after(seq![TokenModel::Rparen], scan_from(s, i + 1)),
        s[i] == ',' ==> scan_from(s, i) == after(seq![TokenModel::Comma], scan_from(s, i + 1)),
        s[i] == '=' ==> scan_from(s, i) == after(seq![TokenModel::Assign], scan_from(s, i + 1)),
        s[i] == '-' && !(i + 1 < s.len() && digit(s[i + 1])) ==> scan_from(s, i) == after(
            seq![TokenModel::Minus],
            scan_from(s, i + 1),
        ),
{
    lemma_scan_step(s, i);
}

/// The scanner reads a separated run of letters as one word.
pub proof fn lemma_scan_word(s: Seq<char>, i: int, w: Seq<char>)
    requires
        occurs(s, i, w),
        w.len() > 0,
        all_letters(w),
        separated(s, i + w.len()),
    ensures
        scan_from(s, i) == after(seq![word_token(w)], scan_from(s, i + w.len())),
{
    let j = i + w.len();
    assert forall|k: int| i <= k < j implies letter(#[trigger] s[k]) by {
        lemma_occurs_item(s, i, w, k - i);
    }
    lemma_letter_run(s, i, j);
    assert(letter(s[i]));
    lemma_scan_step(s, i);
}

/// The scanner reads a separated run of digits, with or without a sign
/// before it, as one integer.
pub proof fn lemma_scan_digits(s: Seq<char>, i: int, ds: Seq<char>)
    requires
        occurs(s, i, ds),
        ds.len() > 0,
        all_digits(ds),
        digits_value(ds) <= i32::MAX,
        separated(s, i + ds.len()),
    ensures
        scan_from(s, i) == after(
            seq![TokenModel::Integer(digits_value(ds) as i32)],
            scan_from(s, i + ds.len()),
        ),
        i > 0 && s[i - 1] == '-' ==> scan_from(s, i - 1) == after(
            seq![TokenModel::Integer((-digits_value(ds)) as i32)],
            scan_from(s, i + ds.len()),
        ),
        i > 0 && s[i - 1] == '+' ==> scan_from(s, i - 1) == after(
            seq![TokenModel::Integer(digits_value(ds) as i32)],
            scan_from(s, i + ds.len()),
        ),
{
    let j = i + ds.len();
    assert forall|k: int| i <= k < j implies digit(#[trigger] s[k]) by {
        lemma_occurs_item(s, i, ds, k - i);
    }
    lemma_digit_run(s, i, j);
    assert(digit(s[i]));
    lemma_scan_step(s, i);
    lemma_scan_step(s, i - 1);
}

/// Each keyword is a run of letters, and is read as its own token.
pub proof fn lemma_keywords()
    ensures
        all_letters("iszero"@) && "iszero"@.len() == 6 && word_token("iszero"@)
            == TokenModel::IsZero,
        all_letters("minus"@) && "minus"@.len() == 5 && word_token("minus"@) == TokenModel::Minus,
        all_letters("if"@) && "if"@.len() == 2 && word_token("if"@) == TokenModel::If,
        all_letters("then"@) && "then"@.len() == 4 && word_token("then"@) == TokenModel::Then,
        all_letters("else"@) && "else"@.len() == 4 && word_token("else"@) == TokenModel::Else,
        all_letters("let"@) && "let"@.len() == 3 && word_token("let"@) == TokenModel::Let,
        all_letters("in"@) && "in"@.len() == 2 && word_token("in"@) == TokenModel::In,
        all_letters("true"@) && "true"@.len() == 4 && word_token("true"@) == TokenModel::Boolean(
            true,
        ),
        all_letters("false"@) && "false"@.len() == 5 && word_token("false"@)
            == TokenModel::Boolean(false),
{
    reveal_strlit("iszero");
    reveal_strlit("minus");
    reveal_strlit("if");
    reveal_strlit("then");
    reveal_strlit("else");
    reveal_strlit("let");
    reveal_strlit("in");
    reveal_strlit("true");
    reveal_strlit("false");
    assert("minus"@[0] != "false"@[0]);
    assert("then"@[0] != "else"@[0]);
    assert("then"@[1] != "true"@[1]);
    assert("else"@[0] != "true"@[0]);
    assert("if"@[1] != "in"@[1]);
}

/// A name that the scanner reads as an identifier: one letter or more,
/// letters only, and no keyword.
pub open spec fn identifier(v: Seq<char>) -> bool {
    v.len() > 0 && all_letters(v) && word_token(v) == TokenModel::Identifier(v)
}

/// An expression whose text the scanner can read: every name in it is an
/// identifier, and every constant in it is above the least 32-bit integer.
/// (The scanner reads the digits of a literal before it applies the sign,
/// and the digits of the least 32-bit integer denote no 32-bit integer.)
pub open spec fn readable(e: ExpModel) -> bool
    decreases e,
{
    match e {
        ExpModel::ConstExp(n) => n > i32::MIN,
        ExpModel::Boolean(_) => true,
        ExpModel::DiffExp(e1, e2) => readable(*e1) && readable(*e2),
        ExpModel::IsZeroExp(e1) => readable(*e1),
        ExpModel::IfExp(e1, e2, e3) => readable(*e1) && readable(*e2) && readable(*e3),
        ExpModel::VarExp(v) => identifier(v),
        ExpModel::LetExp(v, e1, e2) => identifier(v) && readable(*e1) && readable(*e2),
    }
}

/// How the text of a difference lies.
proof fn lemma_diff_text(s: Seq<char>, i: int, e1: ExpModel, e2: ExpModel)
    requires
        occurs(s, i, ExpModel::DiffExp(Box::new(e1), Box::new(e2)).text()),
    ensures
        0 <= i,
        s[i] == '-',
        s[i + 1] == '(',
        occurs(s, i + 2, e1.text()),
        s[i + 2 + e1.text().len()] == ',',
        s[i + 3 + e1.text().len()] == ' ',
        occurs(s, i + 4 + e1.text().len(), e2.text()),
        s[i + 4 + e1.text().len() + e2.text().len()] == ')',
        i + 5 + e1.text().len() + e2.text().len() <= s.len(),
        ExpModel::DiffExp(Box::new(e1), Box::new(e2)).text().len() == 5 + e1.text().len()
            + e2.text().len(),
{
    reveal_strlit("-(");
    reveal_strlit(", ");
    reveal_strlit(")");
    let t1 = e1.text();
    let t2 = e2.text();
    lemma_occurs_parts(s, i, "-("@ + t1 + ", "@ + t2, ")"@);
    lemma_occurs_parts(s, i, "-("@ + t1 + ", "@, t2);
    lemma_occurs_parts(s, i, "-("@ + t1, ", "@);
    lemma_occurs_parts(s, i, "-("@, t1);
    lemma_occurs_item(s, i, "-("@, 0);
    lemma_occurs_item(s, i, "-("@, 1);
    lemma_occurs_item(s, i + 2 + t1.len(), ", "@, 0);
    lemma_occurs_item(s, i + 2 + t1.len(), ", "@, 1);
    lemma_occurs_item(s, i + 4 + t1.len() + t2.len(), ")"@, 0);
}

/// How the text of a zero test lies.
proof fn lemma_iszero_text(s: Seq<char>, i: int, e1: ExpModel)
    requires
        occurs(s, i, ExpModel::IsZeroExp(Box::new(e1)).text()),
    ensures
        occurs(s, i, "iszero"@),
        s[i + 6] == '(',
        occurs(s, i + 7, e1.text()),
        s[i + 7 + e1.text().len()] == ')',
        i + 8 + e1.text().len() <= s.len(),
        ExpModel::IsZeroExp(Box::new(e1)).text().len() == 8 + e1.text().len(),
{
    reveal_strlit("iszero(");
    reveal_strlit("iszero");
    reveal_strlit(")");
    let t1 = e1.text();
    let paren = seq!['('];
    assert("iszero("@ =~= "iszero"@ + paren);
    lemma_occurs_parts(s, i, "iszero("@ + t1, ")"@);
    lemma_occurs_parts(s, i, "iszero("@, t1);
    lemma_occurs_parts(s, i, "iszero"@, paren);
    lemma_occurs_item(s, i + 6, paren, 0);
    lemma_occurs_item(s, i + 7 + t1.len(), ")"@, 0);
}

/// How the text of a conditional lies.
proof fn lemma_if_text(s: Seq<char>, i: int, e1: ExpModel, e2: ExpModel, e3: ExpModel)
    requires
        occurs(s, i, ExpModel::IfExp(Box::new(e1), Box::new(e2), Box::new(e3)).text()),
    ensures
        occurs(s, i, "if"@),
        s[i + 2] == ' ',
        occurs(s, i + 3, e1.text()),
        s[i + 3 + e1.text().len()] == ' ',
        occurs(s, i + 4 + e1.text().len(), "then"@),
        s[i + 8 + e1.text().len()] == ' ',
        occurs(s, i + 9 + e1.text().len(), e2.text()),
        s[i + 9 + e1.text().len() + e2.text().len()] == ' ',
        occurs(s, i + 10 + e1.text().len() + e2.text().len(), "else"@),
        s[i + 14 + e1.text().len() + e2.text().len()] == ' ',
        occurs(s, i + 15 + e1.text().len() + e2.text().len(), e3.text()),
        ExpModel::IfExp(Box::new(e1), Box::new(e2), Box::new(e3)).text().len() == 15
            + e1.text().len() + e2.text().len() + e3.text().len(),
{
    reveal_strlit("if ");
    reveal_strlit("if");
    reveal_strlit(" then ");
    reveal_strlit("then");
    reveal_strlit(" else ");
    reveal_strlit("else");
    let t1 = e1.text();
    let t2 = e2.text();
    let t3 = e3.text();
    let sp = seq![' '];
    assert("if "@ =~= "if"@ + sp);
    assert(" then "@ =~= sp + "then"@ + sp);
    assert(" else "@ =~= sp + "else"@ + sp);
    lemma_occurs_parts(s, i, "if "@ + t1 + " then "@ + t2 + " else "@, t3);
    lemma_occurs_parts(s, i, "if "@ + t1 + " then "@ + t2, " else "@);
    lemma_occurs_parts(s, i, "if "@ + t1 + " then "@, t2);
    lemma_occurs_parts(s, i, "if "@ + t1, " then "@);
    lemma_occurs_parts(s, i, "if "@, t1);
    lemma_occurs_parts(s, i, "if"@, sp);
    lemma_occurs_item(s, i + 2, sp, 0);
    let p = i + 3 + t1.len();
    lemma_occurs_parts(s, p, sp + "then"@, sp);
    lemma_occurs_parts(s, p, sp, "then"@);
    lemma_occurs_item(s, p, sp, 0);
    lemma_occurs_item(s, p + 5, sp, 0);
    let q = i + 9 + t1.len() + t2.len();
    lemma_occurs_parts(s, q, sp + "else"@, sp);
    lemma_occurs_parts(s, q, sp, "else"@);
    lemma_occurs_item(s, q, sp, 0);
    lemma_occurs_item(s, q + 5, sp, 0);
}

/// How the text of a `let` lies.
proof fn lemma_let_text(s: Seq<char>, i: int, v: Seq<char>, e1: ExpModel, e2: ExpModel)
    requires
        occurs(s, i, ExpModel::LetExp(v, Box::new(e1), Box::new(e2)).text()),
    ensures
        occurs(s, i, "let"@),
        s[i + 3] == ' ',
        occurs(s, i + 4, v),
        s[i + 4 + v.len()] == ' ',
        s[i + 5 + v.len()] == '=',
        s[i + 6 + v.len()] == ' ',
        occurs(s, i + 7 + v.len(), e1.text()),
        s[i + 7 + v.len() + e1.text().len()] == ' ',
        occurs(s, i + 8 + v.len() + e1.text().len(), "in"@),
        s[i + 10 + v.len() + e1.text().len()] == ' ',
        occurs(s, i + 11 + v.len() + e1.text().len(), e2.text()),
        ExpModel::LetExp(v, Box::new(e1), Box::new(e2)).text().len() == 11 + v.len()
            + e1.text().len() + e2.text().len(),
{
    reveal_strlit("let ");
    reveal_strlit("let");
    reveal_strlit(" = ");
    reveal_strlit(" in ");
    reveal_strlit("in");
    let t1 = e1.text();
    let t2 = e2.text();
    let sp = seq![' '];
    assert("let "@ =~= "let"@ + sp);
    assert(" in "@ =~= sp + "in"@ + sp);
    lemma_occurs_parts(s, i, "let "@ + v + " = "@ + t1 + " in "@, t2);
    lemma_occurs_parts(s, i, "let "@ + v + " = "@ + t1, " in "@);
    lemma_occurs_parts(s, i, "let "@ + v + " = "@, t1);
    lemma_occurs_parts(s, i, "let "@ + v, " = "@);
    lemma_occurs_parts(s, i, "let "@, v);
    lemma_occurs_parts(s, i, "let"@, sp);
    lemma_occurs_item(s, i + 3, sp, 0);
    let p = i + 4 + v.len();
    lemma_occurs_item(s, p, " = "@, 0);
    lemma_occurs_item(s, p, " = "@, 1);
    lemma_occurs_item(s, p, " = "@, 2);
    let q = i + 7 + v.len() + t1.len();
    lemma_occurs_parts(s, q, sp + "in"@, sp);
    lemma_occurs_parts(s, q, sp, "in"@);
    lemma_occurs_item(s, q, sp, 0);
    lemma_occurs_item(s, q + 3, sp, 0);
}

/// The scanner reads the text of a constant as one integer.
proof fn lemma_scan_const(s: Seq<char>, i: int, n: i32)
    requires
        n > i32::MIN,
        occurs(s, i, decimal(n as int)),
        separated(s, i + decimal(n as int).len()),
    ensures
        scan_from(s, i) == after(
            seq![TokenModel::Integer(n)],
            scan_from(s, i + decimal(n as int).len()),
        ),
{
    if n < 0 {
        let ds = decimal_digits((-n) as nat);
        let sign = seq!['-'];
        lemma_decimal_digits((-n) as nat);
        lemma_occurs_parts(s, i, sign, ds);
        lemma_occurs_item(s, i, sign, 0);
        lemma_scan_digits(s, i + 1, ds);
    } else {
        let ds = decimal_digits(n as nat);
        lemma_decimal_digits(n as nat);
        lemma_scan_digits(s, i, ds);
    }
}

/// The scanner reads the text of a difference as its tokens, where it
/// reads the texts of the two operands as theirs.
proof fn lemma_scan_diff(s: Seq<char>, i: int, e1: ExpModel, e2: ExpModel)
    requires
        occurs(s, i, ExpModel::DiffExp(Box::new(e1), Box::new(e2)).text()),
        scan_from(s, i + 2) == after(tokens_of(e1), scan_from(s, i + 2 + e1.text().len())),
        scan_from(s, i + 4 + e1.text().len()) == after(
            tokens_of(e2),
            scan_from(s, i + 4 + e1.text().len() + e2.text().len()),
        ),
    ensures
        scan_from(s, i) == after(
            tokens_of(ExpModel::DiffExp(Box::new(e1), Box::new(e2))),
            scan_from(s, i + ExpModel::DiffExp(Box::new(e1), Box::new(e2)).text().len()),
        ),
{
    let n1 = e1.text().len();
    let n2 = e2.text().len();
    let t1 = tokens_of(e1);
    let t2 = tokens_of(e2);
    lemma_diff_text(s, i, e1, e2);
    let rest = scan_from(s, i + 5 + n1 + n2);
    lemma_scan_char(s, i);
    lemma_scan_char(s, i + 1);
    lemma_scan_char(s, i + 2 + n1);
    lemma_scan_char(s, i + 3 + n1);
    lemma_scan_char(s, i + 4 + n1 + n2);
    let x5 = t2 + seq![TokenModel::Rparen];
    lemma_after_after(t2, seq![TokenModel::Rparen], rest);
    let x3 = seq![TokenModel::Comma] + x5;
    lemma_after_after(seq![TokenModel::Comma], x5, rest);
    let x2 = t1 + x3;
    lemma_after_after(t1, x3, rest);
    let x1 = seq![TokenModel::Lparen] + x2;
    lemma_after_after(seq![TokenModel::Lparen], x2, rest);
    let x0 = seq![TokenModel::Minus] + x1;
    lemma_after_after(seq![TokenModel::Minus], x1, rest);
    assert(x0 =~= tokens_of(ExpModel::DiffExp(Box::new(e1), Box::new(e2))));
}

/// The scanner reads the text of a zero test as its tokens, where it reads
/// the text of the operand as its tokens.
proof fn lemma_scan_iszero(s: Seq<char>, i: int, e1: ExpModel)
    requires
        occurs(s, i, ExpModel::IsZeroExp(Box::new(e1)).text()),
        scan_from(s, i + 7) == after(tokens_of(e1), scan_from(s, i + 7 + e1.text().len())),
    ensures
        scan_from(s, i) == after(
            tokens_of(ExpModel::IsZeroExp(Box::new(e1))),
            scan_from(s, i + ExpModel::IsZeroExp(Box::new(e1)).text().len()),
        ),
{
    let n1 = e1.text().len();
    let t1 = tokens_of(e1);
    lemma_iszero_text(s, i, e1);
    lemma_keywords();
    let rest = scan_from(s, i + 8 + n1);
    lemma_scan_word(s, i, "iszero"@);
    lemma_scan_char(s, i + 6);
    lemma_scan_char(s, i + 7 + n1);
    let x2 = t1 + seq![TokenModel::Rparen];
    lemma_after_after(t1, seq![TokenModel::Rparen], rest);
    let x1 = seq![TokenModel::Lparen] + x2;
    lemma_after_after(seq![TokenModel::Lparen], x2, rest);
    let x0 = seq![TokenModel::IsZero] + x1;
    lemma_after_after(seq![TokenModel::IsZero], x1, rest);
    assert(x0 =~= tokens_of(ExpModel::IsZeroExp(Box::new(e1))));
}

/// The scanner reads the text of a conditional as its tokens, where it
/// reads the texts of the three parts as theirs.
proof fn lemma_scan_if(s: Seq<char>, i: int, e1: ExpModel, e2: ExpModel, e3: ExpModel)
    requires
        occurs(s, i, ExpModel::IfExp(Box::new(e1), Box::new(e2), Box::new(e3)).text()),
        scan_from(s, i + 3) == after(tokens_of(e1), scan_from(s, i + 3 + e1.text().len())),
        scan_from(s, i + 9 + e1.text().len()) == after(
            tokens_of(e2),
            scan_from(s, i + 9 + e1.text().len() + e2.text().len()),
        ),
        scan_from(s, i + 15 + e1.text().len() + e2.text().len()) == after(
            tokens_of(e3),
            scan_from(s, i + 15 + e1.text().len() + e2.text().len() + e3.text().len()),
        ),
    ensures
        scan_from(s, i) == after(
            tokens_of(ExpModel::IfExp(Box::new(e1), Box::new(e2), Box::new(e3))),
            scan_from(
                s,
                i + ExpModel::IfExp(Box::new(e1), Box::new(e2), Box::new(e3)).text().len(),
            ),
        ),
{
    let n1 = e1.text().len();
    let n2 = e2.text().len();
    let n3 = e3.text().len();
    let t1 = tokens_of(e1);
    let t2 = tokens_of(e2);
    let t3 = tokens_of(e3);
    lemma_if_text(s, i, e1, e2, e3);
    lemma_keywords();
    let rest = scan_from(s, i + 15 + n1 + n2 + n3);
    lemma_scan_word(s, i, "if"@);
    lemma_scan_char(s, i + 2);
    lemma_scan_char(s, i + 3 + n1);
    lemma_scan_word(s, i + 4 + n1, "then"@);
    lemma_scan_char(s, i + 8 + n1);
    lemma_scan_char(s, i + 9 + n1 + n2);
    lemma_scan_word(s, i + 10 + n1 + n2, "else"@);
    lemma_scan_char(s, i + 14 + n1 + n2);
    let x4 = seq![TokenModel::Else] + t3;
    lemma_after_after(seq![TokenModel::Else], t3, rest);
    let x3 = t2 + x4;
    lemma_after_after(t2, x4, rest);
    let x2 = seq![TokenModel::Then] + x3;
    lemma_after_after(seq![TokenModel::Then], x3, rest);
    let x1 = t1 + x2;
    lemma_after_after(t1, x2, rest);
    let x0 = seq![TokenModel::If] + x1;
    lemma_after_after(seq![TokenModel::If], x1, rest);
    assert(x0 =~= tokens_of(ExpModel::IfExp(Box::new(e1), Box::new(e2), Box::new(e3))));
}

/// The scanner reads the text of a `let` as its tokens, where it reads the
/// texts of the two parts as theirs.
proof fn lemma_scan_let(s: Seq<char>, i: int, v: Seq<char>, e1: ExpModel, e2: ExpModel)
    requires
        identifier(v),
        occurs(s, i, ExpModel::LetExp(v, Box::new(e1), Box::new(e2)).text()),
        scan_from(s, i + 7 + v.len()) == after(
            tokens_of(e1),
            scan_from(s, i + 7 + v.len() + e1.text().len()),
        ),
        scan_from(s, i + 11 + v.len() + e1.text().len()) == after(
            tokens_of(e2),
            scan_from(s, i + 11 + v.len() + e1.text().len() + e2.text().len()),
        ),
    ensures
        scan_from(s, i) == after(
            tokens_of(ExpModel::LetExp(v, Box::new(e1), Box::new(e2))),
            scan_from(s, i + ExpModel::LetExp(v, Box::new(e1), Box::new(e2)).text().len()),
        ),
{
    let n0 = v.len();
    let n1 = e1.text().len();
    let n2 = e2.text().len();
    let t1 = tokens_of(e1);
    let t2 = tokens_of(e2);
    lemma_let_text(s, i, v, e1, e2);
    lemma_keywords();
    let rest = scan_from(s, i + 11 + n0 + n1 + n2);
    lemma_scan_word(s, i, "let"@);
    lemma_scan_char(s, i + 3);
    lemma_scan_word(s, i + 4, v);
    lemma_scan_char(s, i + 4 + n0);
    lemma_scan_char(s, i + 5 + n0);
    lemma_scan_char(s, i + 6 + n0);
    lemma_scan_char(s, i + 7 + n0 + n1);
    lemma_scan_word(s, i + 8 + n0 + n1, "in"@);
    lemma_scan_char(s, i + 10 + n0 + n1);
    let x5 = seq![TokenModel::In] + t2;
    lemma_after_after(seq![TokenModel::In], t2, rest);
    let x4 = t1 + x5;
    lemma_after_after(t1, x5, rest);
    let x3 = seq![TokenModel::Assign] + x4;
    lemma_after_after(seq![TokenModel::Assign], x4, rest);
    let x2 = seq![TokenModel::Identifier(v)] + x3;
    lemma_after_after(seq![TokenModel::Identifier(v)], x3, rest);
    let x1 = seq![TokenModel::Let] + x2;
    lemma_after_after(seq![TokenModel::Let], x2, rest);
    assert(x1 =~= tokens_of(ExpModel::LetExp(v, Box::new(e1), Box::new(e2))));
}

/// The scanner reads the text of a readable expression, wherever it stands
/// separated from what follows, as the tokens of the expression.
pub proof fn lemma_scan_text(e: ExpModel, s: Seq<char>, i: int)
    requires
        readable(e),
        occurs(s, i, e.text()),
        separated(s, i + e.text().len()),
    ensures
        scan_from(s, i) == after(tokens_of(e), scan_from(s, i + e.text().len())),
    decreases e,
{
    match e {
        ExpModel::ConstExp(n) => {
            lemma_scan_const(s, i, n);
        },
        ExpModel::Boolean(b) => {
            lemma_keywords();
            lemma_scan_word(s, i, bool_text(b));
        },
        ExpModel::VarExp(v) => {
            lemma_scan_word(s, i, v);
        },
        ExpModel::DiffExp(e1, e2) => {
            lemma_diff_text(s, i, *e1, *e2);
            lemma_scan_text(*e1, s, i + 2);
            lemma_scan_text(*e2, s, i + 4 + e1.text().len());
            lemma_scan_diff(s, i, *e1, *e2);
        },
        ExpModel::IsZeroExp(e1) => {
            lemma_iszero_text(s, i, *e1);
            lemma_scan_text(*e1, s, i + 7);
            lemma_scan_iszero(s, i, *e1);
        },
        ExpModel::IfExp(e1, e2, e3) => {
            lemma_if_text(s, i, *e1, *e2, *e3);
            lemma_scan_text(*e1, s, i + 3);
            lemma_scan_text(*e2, s, i + 9 + e1.text().len());
            lemma_scan_text(*e3, s, i + 15 + e1.text().len() + e2.text().len());
            lemma_scan_if(s, i, *e1, *e2, *e3);
        },
        ExpModel::LetExp(v, e1, e2) => {
            lemma_let_text(s, i, v, *e1, *e2);
            lemma_scan_text(*e1, s, i + 7 + v.len());
            lemma_scan_text(*e2, s, i + 11 + v.len() + e1.text().len());
            lemma_scan_let(s, i, v, *e1, *e2);
        },
    }
}

/// Writing a readable expression out and scanning the text gives the
/// tokens of the expression, and parsing those gives the expression again.
pub proof fn lemma_round_trip(e: ExpModel)
    requires
        readable(e),
    ensures
        lex(e.text()) == Ok::<Seq<TokenModel>, LexErrModel>(tokens_of(e)),
        parse_tokens(tokens_of(e)) == Ok::<ExpModel, Seq<char>>(e),
{
    let s = e.text();
    assert(s.subrange(0, s.len() as int) =~= s);
    lemma_scan_text(e, s, 0);
    lemma_scan_step(s, s.len() as int);
    assert(tokens_of(e) + Seq::<TokenModel>::empty() =~= tokens_of(e));
    lemma_parse_inverts_tokens_of(e);
}

/// The integer that a literal denotes: the value of its digits, negated
/// behind a minus sign.
pub open spec fn literal_value(sign: Seq<char>, digits: Seq<char>) -> int {
    if sign == seq!['-'] {
        -digits_value(digits)
    } else {
        digits_value(digits) as int
    }
}

/// An integer literal is a run of digits whose value fits in 32 bits, with
/// a plus sign, a minus sign or nothing before it. Its text is scanned as
/// one integer token, that token is parsed as a constant, and the constant
/// has the integer as its value, whatever the environment.
pub proof fn lemma_literal_value(sign: Seq<char>, digits: Seq<char>, env: Bindings)
    requires
        sign == Seq::<char>::empty() || sign == seq!['+'] || sign == seq!['-'],
        digits.len() > 0,
        all_digits(digits),
        digits_value(digits) <= i32::MAX,
    ensures
        ({
            let n = literal_value(sign, digits) as i32;
            &&& n == literal_value(sign, digits)
            &&& lex(sign + digits) == Ok::<Seq<TokenModel>, LexErrModel>(
                seq![TokenModel::Integer(n)],
            )
            &&& parse_tokens(seq![TokenModel::Integer(n)]) == Ok::<ExpModel, Seq<char>>(
                ExpModel::ConstExp(n),
            )
            &&& within_range(ExpModel::ConstExp(n), env)
            &&& value(ExpModel::ConstExp(n), env) == Some(IntBool::Integer(n))
        }),
{
    let n = literal_value(sign, digits) as i32;
    let s = sign + digits;
    let i = sign.len() as int;
    assert(s.subrange(i, i + digits.len()) =~= digits);
    lemma_scan_digits(s, i, digits);
    lemma_scan_step(s, s.len() as int);
    assert(seq![TokenModel::Integer(n)] + Seq::<TokenModel>::empty() =~= seq![
        TokenModel::Integer(n),
    ]);
    if sign.len() > 0 {
        assert(s[0] == sign[0]);
    }
    lemma_parse_inverts_tokens_of(ExpModel::ConstExp(n));
}

/// The decimal numeral of a 32-bit integer above the least one is scanned
/// as one integer token, that token is parsed as a constant, and the
/// constant has the integer as its value, whatever the environment.
pub proof fn lemma_numeral_value(n: i32, env: Bindings)
    requires
        n > i32::MIN,
    ensures
        lex(decimal(n as int)) == Ok::<Seq<TokenModel>, LexErrModel>(seq![TokenModel::Integer(n)]),
        parse_tokens(seq![TokenModel::Integer(n)]) == Ok::<ExpModel, Seq<char>>(
            ExpModel::ConstExp(n),
        ),
        within_range(ExpModel::ConstExp(n), env),
        value(ExpModel::ConstExp(n), env) == Some(IntBool::Integer(n)),
{
    lemma_round_trip(ExpModel::ConstExp(n));
}

/// A token that the scanner can give: the name of an identifier is one,
/// and an integer is above the least 32-bit integer.
pub open spec fn scannable(t: TokenModel) -> bool {
    match t {
        TokenModel::Identifier(v) => identifier(v),
        TokenModel::Integer(n) => n > i32::MIN,
        _ => true,
    }
}

/// The characters of a run of letters are letters.
proof fn lemma_run_of_letters(s: Seq<char>, i: int, k: int)
    requires
        0 <= i <= k < i + letter_run(s, i),
    ensures
        k < s.len(),
        letter(s[k]),
    decreases k - i,
{
    if i < k {
        lemma_run_of_letters(s, i + 1, k);
    }
}

/// Every token that the scanner gives is scannable.
pub proof fn lemma_scanned_tokens(s: Seq<char>, i: int)
    ensures
        match scan_from(s, i) {
            Ok(ts) => forall|k: int| 0 <= k < ts.len() ==> scannable(#[trigger] ts[k]),
            Err(_) => true,
        },
    decreases s.len() - i,
{
    lemma_scan_step(s, i);
    if 0 <= i < s.len() {
        lemma_lexeme_advances(s, i);
        match lexeme_at(s, i) {
            Lexeme::Gap => {
                lemma_scanned_tokens(s, i + 1);
            },
            Lexeme::Found(t, j) => {
                lemma_scanned_tokens(s, j);
                if letter(s[i]) {
                    let w = s.subrange(i, j);
                    assert forall|k: int| 0 <= k < w.len() implies letter(#[trigger] w[k]) by {
                        lemma_run_of_letters(s, i, i + k);
                    }
                }
                assert(scannable(t));
            },
            Lexeme::Fault(_) => {},
        }
    }
}

/// An expression whose tokens are all scannable is readable.
pub proof fn lemma_scannable_is_readable(e: ExpModel)
    requires
        forall|k: int| 0 <= k < tokens_of(e).len() ==> scannable(#[trigger] tokens_of(e)[k]),
    ensures
        readable(e),
    decreases e,
{
    let ts = tokens_of(e);
    assert(occurs(ts, 0, ts)) by {
        assert(ts.subrange(0, ts.len() as int) =~= ts);
    }
    match e {
        ExpModel::ConstExp(n) => {
            assert(scannable(ts[0]));
        },
        ExpModel::Boolean(_) => {},
        ExpModel::VarExp(v) => {
            assert(scannable(ts[0]));
        },
        ExpModel::DiffExp(e1, e2) => {
            lemma_diff_layout(ts, 0, *e1, *e2);
            lemma_part_scannable(ts, 2, tokens_of(*e1));
            lemma_part_scannable(ts, 3 + tokens_of(*e1).len() as int, tokens_of(*e2));
            lemma_scannable_is_readable(*e1);
            lemma_scannable_is_readable(*e2);
        },
        ExpModel::IsZeroExp(e1) => {
            lemma_iszero_layout(ts, 0, *e1);
            lemma_part_scannable(ts, 2, tokens_of(*e1));
            lemma_scannable_is_readable(*e1);
        },
        ExpModel::IfExp(e1, e2, e3) => {
            lemma_if_layout(ts, 0, *e1, *e2, *e3);
            lemma_part_scannable(ts, 1, tokens_of(*e1));
            lemma_part_scannable(ts, 2 + tokens_of(*e1).len() as int, tokens_of(*e2));
            lemma_part_scannable(
                ts,
                3 + tokens_of(*e1).len() as int + tokens_of(*e2).len(),
                tokens_of(*e3),
            );
            lemma_scannable_is_readable(*e1);
            lemma_scannable_is_readable(*e2);
            lemma_scannable_is_readable(*e3);
        },
        ExpModel::LetExp(v, e1, e2) => {
            lemma_let_layout(ts, 0, v, *e1, *e2);
            assert(scannable(ts[1]));
            lemma_part_scannable(ts, 3, tokens_of(*e1));
            lemma_part_scannable(ts, 4 + tokens_of(*e1).len() as int, tokens_of(*e2));
            lemma_scannable_is_readable(*e1);
            lemma_scannable_is_readable(*e2);
        },
    }
}

/// The tokens of a part are among the tokens of the whole.
proof fn lemma_part_scannable(ts: Seq<TokenModel>, i: int, part: Seq<TokenModel>)
    requires
        occurs(ts, i, part),
        forall|k: int| 0 <= k < ts.len() ==> scannable(#[trigger] ts[k]),
    ensures
        forall|k: int| 0 <= k < part.len() ==> scannable(#[trigger] part[k]),
{
    assert forall|k: int| 0 <= k < part.len() implies scannable(#[trigger] part[k]) by {
        lemma_occurs_item(ts, i, part, k);
        assert(scannable(ts[i + k]));
    }
}

/// The scanner reads the text of an expression as the tokens of the
/// expression exactly when the expression is readable.
pub proof fn lemma_readable_is_exact(e: ExpModel)
    ensures
        lex(e.text()) == Ok::<Seq<TokenModel>, LexErrModel>(tokens_of(e)) <==> readable(e),
{
    if readable(e) {
        lemma_round_trip(e);
    }
    if lex(e.text()) == Ok::<Seq<TokenModel>, LexErrModel>(tokens_of(e)) {
        lemma_scanned_tokens(e.text(), 0);
        lemma_scannable_is_readable(e);
    }
}

} // verus!
