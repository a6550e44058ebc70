//! The parser and the grammar agree: the parser accepts the tokens of an
//! expression, of every expression, and nothing else.

use vstd::prelude::*;
use crate::let_lang_exp::ExpModel;
use crate::let_lang_parser::{
    diff_at, exp_at, expect, if_at, iszero_at, let_at, name_at, parse_tokens, tokens_of,
    ParseFault,
};
use crate::let_lang_scanner::TokenModel;
use crate::occurs::{
    lemma_occurs_item, lemma_occurs_join, lemma_occurs_one, lemma_occurs_parts, occurs,
};

verus! {

/// How the tokens of a difference lie.
pub proof fn lemma_diff_layout(ts: Seq<TokenModel>, i: int, e1: ExpModel, e2: ExpModel)
    requires
        occurs(ts, i, tokens_of(ExpModel::DiffExp(Box::new(e1), Box::new(e2)))),
    ensures
        0 <= i,
        ts[i] == TokenModel::Minus,
        ts[i + 1] == TokenModel::Lparen,
        occurs(ts, i + 2, tokens_of(e1)),
        ts[i + 2 + tokens_of(e1).len()] == TokenModel::Comma,
        occurs(ts, i + 3 + tokens_of(e1).len(), tokens_of(e2)),
        ts[i + 3 + tokens_of(e1).len() + tokens_of(e2).len()] == TokenModel::Rparen,
        i + 4 + tokens_of(e1).len() + tokens_of(e2).len() <= ts.len(),
        tokens_of(ExpModel::DiffExp(Box::new(e1), Box::new(e2))).len() == 4 + tokens_of(e1).len()
            + tokens_of(e2).len(),
{
    let t1 = tokens_of(e1);
    let t2 = tokens_of(e2);
    let head = seq![TokenModel::Minus, TokenModel::Lparen];
    let comma = seq![TokenModel::Comma];
    let close = seq![TokenModel::Rparen];
    lemma_occurs_parts(ts, i, head + t1 + comma + t2, close);
    lemma_occurs_parts(ts, i, head + t1 + comma, t2);
    lemma_occurs_parts(ts, i, head + t1, comma);
    lemma_occurs_parts(ts, i, head, t1);
    lemma_occurs_item(ts, i, head, 0);
    lemma_occurs_item(ts, i, head, 1);
    lemma_occurs_item(ts, i + 2 + t1.len(), comma, 0);
    lemma_occurs_item(ts, i + 3 + t1.len() + t2.len(), close, 0);
}

/// How the tokens of a zero test lie.
pub proof fn lemma_iszero_layout(ts: Seq<TokenModel>, i: int, e1: ExpModel)
    requires
        occurs(ts, i, tokens_of(ExpModel::IsZeroExp(Box::new(e1)))),
    ensures
        0 <= i,
        ts[i] == TokenModel::IsZero,
        ts[i + 1] == TokenModel::Lparen,
        occurs(ts, i + 2, tokens_of(e1)),
        ts[i + 2 + tokens_of(e1).len()] == TokenModel::Rparen,
        i + 3 + tokens_of(e1).len() <= ts.len(),
        tokens_of(ExpModel::IsZeroExp(Box::new(e1))).len() == 3 + tokens_of(e1).len(),
{
    let t1 = tokens_of(e1);
    let head = seq![TokenModel::IsZero, TokenModel::Lparen];
    let close = seq![TokenModel::Rparen];
    lemma_occurs_parts(ts, i, head + t1, close);
    lemma_occurs_parts(ts, i, head, t1);
    lemma_occurs_item(ts, i, head, 0);
    lemma_occurs_item(ts, i, head, 1);
    lemma_occurs_item(ts, i + 2 + t1.len(), close, 0);
}

/// How the tokens of a conditional lie.
pub proof fn lemma_if_layout(ts: Seq<TokenModel>, i: int, e1: ExpModel, e2: ExpModel, e3: ExpModel)
    requires
        occurs(ts, i, tokens_of(ExpModel::IfExp(Box::new(e1), Box::new(e2), Box::new(e3)))),
    ensures
        0 <= i,
        ts[i] == TokenModel::If,
        occurs(ts, i + 1, tokens_of(e1)),
        ts[i + 1 + tokens_of(e1).len()] == TokenModel::Then,
        occurs(ts, i + 2 + tokens_of(e1).len(), tokens_of(e2)),
        ts[i + 2 + tokens_of(e1).len() + tokens_of(e2).len()] == TokenModel::Else,
        occurs(ts, i + 3 + tokens_of(e1).len() + tokens_of(e2).len(), tokens_of(e3)),
        tokens_of(ExpModel::IfExp(Box::new(e1), Box::new(e2), Box::new(e3))).len() == 3
            + tokens_of(e1).len() + tokens_of(e2).len() + tokens_of(e3).len(),
{
    let t1 = tokens_of(e1);
    let t2 = tokens_of(e2);
    let t3 = tokens_of(e3);
    let head = seq![TokenModel::If];
    let then = seq![TokenModel::Then];
    let els = seq![TokenModel::Else];
    lemma_occurs_parts(ts, i, head + t1 + then + t2 + els, t3);
    lemma_occurs_parts(ts, i, head + t1 + then + t2, els);
    lemma_occurs_parts(ts, i, head + t1 + then, t2);
    lemma_occurs_parts(ts, i, head + t1, then);
    lemma_occurs_parts(ts, i, head, t1);
    lemma_occurs_item(ts, i, head, 0);
    lemma_occurs_item(ts, i + 1 + t1.len(), then, 0);
    lemma_occurs_item(ts, i + 2 + t1.len() + t2.len(), els, 0);
}

/// How the tokens of a `let` lie.
pub proof fn lemma_let_layout(ts: Seq<TokenModel>, i: int, v: Seq<char>, e1: ExpModel, e2: ExpModel)
    requires
        occurs(ts, i, tokens_of(ExpModel::LetExp(v, Box::new(e1), Box::new(e2)))),
    ensures
        0 <= i,
        ts[i] == TokenModel::Let,
        ts[i + 1] == TokenModel::Identifier(v),
        ts[i + 2] == TokenModel::Assign,
        occurs(ts, i + 3, tokens_of(e1)),
        ts[i + 3 + tokens_of(e1).len()] == TokenModel::In,
        occurs(ts, i + 4 + tokens_of(e1).len(), tokens_of(e2)),
        tokens_of(ExpModel::LetExp(v, Box::new(e1), Box::new(e2))).len() == 4 + tokens_of(
            e1,
        ).len() + tokens_of(e2).len(),
{
    let t1 = tokens_of(e1);
    let t2 = tokens_of(e2);
    let head = seq![TokenModel::Let, TokenModel::Identifier(v), TokenModel::Assign];
    let mid = seq![TokenModel::In];
    lemma_occurs_parts(ts, i, head + t1 + mid, t2);
    lemma_occurs_parts(ts, i, head + t1, mid);
    lemma_occurs_parts(ts, i, head, t1);
    lemma_occurs_item(ts, i, head, 0);
    lemma_occurs_item(ts, i, head, 1);
    lemma_occurs_item(ts, i, head, 2);
    lemma_occurs_item(ts, i + 3 + t1.len(), mid, 0);
}

/// The parser reads the tokens of an expression, wherever they stand, as
/// that expression, and takes no token more.
pub proof fn lemma_parse_tokens_of(e: ExpModel, ts: Seq<TokenModel>, i: int)
    requires
        occurs(ts, i, tokens_of(e)),
    ensures
        exp_at(ts, i) == Ok::<(ExpModel, nat), ParseFault>((e, tokens_of(e).len())),
    decreases e,
{
    match e {
        ExpModel::ConstExp(n) => {
            lemma_occurs_item(ts, i, tokens_of(e), 0);
        },
        ExpModel::Boolean(b) => {
            lemma_occurs_item(ts, i, tokens_of(e), 0);
        },
        ExpModel::VarExp(v) => {
            lemma_occurs_item(ts, i, tokens_of(e), 0);
        },
        ExpModel::DiffExp(e1, e2) => {
            let t1 = tokens_of(*e1);
            lemma_diff_layout(ts, i, *e1, *e2);
            lemma_parse_tokens_of(*e1, ts, i + 2);
            lemma_parse_tokens_of(*e2, ts, i + 3 + t1.len());
            assert(diff_at(ts, i) == Ok::<(ExpModel, nat), ParseFault>((e, tokens_of(e).len())));
        },
        ExpModel::IsZeroExp(e1) => {
            lemma_iszero_layout(ts, i, *e1);
            lemma_parse_tokens_of(*e1, ts, i + 2);
            assert(iszero_at(ts, i) == Ok::<(ExpModel, nat), ParseFault>((e, tokens_of(e).len())));
        },
        ExpModel::IfExp(e1, e2, e3) => {
            let t1 = tokens_of(*e1);
            let t2 = tokens_of(*e2);
            lemma_if_layout(ts, i, *e1, *e2, *e3);
            lemma_parse_tokens_of(*e1, ts, i + 1);
            lemma_parse_tokens_of(*e2, ts, i + 2 + t1.len());
            lemma_parse_tokens_of(*e3, ts, i + 3 + t1.len() + t2.len());
            assert(if_at(ts, i) == Ok::<(ExpModel, nat), ParseFault>((e, tokens_of(e).len())));
        },
        ExpModel::LetExp(v, e1, e2) => {
            let t1 = tokens_of(*e1);
            lemma_let_layout(ts, i, v, *e1, *e2);
            lemma_parse_tokens_of(*e1, ts, i + 3);
            lemma_parse_tokens_of(*e2, ts, i + 4 + t1.len());
            assert(let_at(ts, i) == Ok::<(ExpModel, nat), ParseFault>((e, tokens_of(e).len())));
        },
    }
}

/// The parser reads the tokens of an expression as that expression.
pub proof fn lemma_parse_inverts_tokens_of(e: ExpModel)
    ensures
        parse_tokens(tokens_of(e)) == Ok::<ExpModel, Seq<char>>(e),
{
    let ts = tokens_of(e);
    assert(ts.subrange(0, ts.len() as int) =~= ts);
    lemma_parse_tokens_of(e, ts, 0);
}

/// What the parser reads as an expression are the tokens of that
/// expression, and it takes as many tokens as those are.
pub proof fn lemma_exp_at_reads(ts: Seq<TokenModel>, i: int)
    ensures
        match exp_at(ts, i) {
            Ok((e, n)) => occurs(ts, i, tokens_of(e)) && n == tokens_of(e).len(),
            Err(_) => true,
        },
    decreases ts.len() - i, 1int,
{
    if 0 <= i < ts.len() {
        lemma_occurs_one(ts, i);
        match ts[i] {
            TokenModel::Minus => lemma_diff_at_reads(ts, i),
            TokenModel::IsZero => lemma_iszero_at_reads(ts, i),
            TokenModel::If => lemma_if_at_reads(ts, i),
            TokenModel::Let => lemma_let_at_reads(ts, i),
            _ => {},
        }
    }
}

/// The same, of what the parser reads as a difference.
proof fn lemma_diff_at_reads(ts: Seq<TokenModel>, i: int)
    ensures
        match diff_at(ts, i) {
            Ok((e, n)) => occurs(ts, i, tokens_of(e)) && n == tokens_of(e).len(),
            Err(_) => true,
        },
    decreases ts.len() - i, 0int,
{
    if expect(ts, i, TokenModel::Minus) is None && expect(ts, i + 1, TokenModel::Lparen) is None {
        lemma_exp_at_reads(ts, i + 2);
        if let Ok((e1, n1)) = exp_at(ts, i + 2) {
            if expect(ts, i + 2 + n1, TokenModel::Comma) is None {
                lemma_exp_at_reads(ts, i + 3 + n1);
                if let Ok((e2, n2)) = exp_at(ts, i + 3 + n1) {
                    if expect(ts, i + 3 + n1 + n2, TokenModel::Rparen) is None {
                        let t1 = tokens_of(e1);
                        let t2 = tokens_of(e2);
                        let head = seq![TokenModel::Minus, TokenModel::Lparen];
                        let comma = seq![TokenModel::Comma];
                        let close = seq![TokenModel::Rparen];
                        assert(ts.subrange(i, i + 2) =~= head);
                        lemma_occurs_join(ts, i, head, t1);
                        lemma_occurs_one(ts, i + 2 + n1);
                        lemma_occurs_join(ts, i, head + t1, comma);
                        lemma_occurs_join(ts, i, head + t1 + comma, t2);
                        lemma_occurs_one(ts, i + 3 + n1 + n2);
                        lemma_occurs_join(ts, i, head + t1 + comma + t2, close);
                    }
                }
            }
        }
    }
}

/// The same, of what the parser reads as a zero test.
proof fn lemma_iszero_at_reads(ts: Seq<TokenModel>, i: int)
    ensures
        match iszero_at(ts, i) {
            Ok((e, n)) => occurs(ts, i, tokens_of(e)) && n == tokens_of(e).len(),
            Err(_) => true,
        },
    decreases ts.len() - i, 0int,
{
    if expect(ts, i, TokenModel::IsZero) is None && expect(ts, i + 1, TokenModel::Lparen) is None {
        lemma_exp_at_reads(ts, i + 2);
        if let Ok((e1, n1)) = exp_at(ts, i + 2) {
            if expect(ts, i + 2 + n1, TokenModel::Rparen) is None {
                let t1 = tokens_of(e1);
                let head = seq![TokenModel::IsZero, TokenModel::Lparen];
                let close = seq![TokenModel::Rparen];
                assert(ts.subrange(i, i + 2) =~= head);
                lemma_occurs_join(ts, i, head, t1);
                lemma_occurs_one(ts, i + 2 + n1);
                lemma_occurs_join(ts, i, head + t1, close);
            }
        }
    }
}

/// The same, of what the parser reads as a conditional.
proof fn lemma_if_at_reads(ts: Seq<TokenModel>, i: int)
    ensures
        match if_at(ts, i) {
            Ok((e, n)) => occurs(ts, i, tokens_of(e)) && n == tokens_of(e).len(),
            Err(_) => true,
        },
    decreases ts.len() - i, 0int,
{
    if expect(ts, i, TokenModel::If) is None {
        lemma_exp_at_reads(ts, i + 1);
        if let Ok((e1, n1)) = exp_at(ts, i + 1) {
            if expect(ts, i + 1 + n1, TokenModel::Then) is None {
                lemma_exp_at_reads(ts, i + 2 + n1);
                if let Ok((e2, n2)) = exp_at(ts, i + 2 + n1) {
                    if expect(ts, i + 2 + n1 + n2, TokenModel::Else) is None {
                        lemma_exp_at_reads(ts, i + 3 + n1 + n2);
                        if let Ok((e3, n3)) = exp_at(ts, i + 3 + n1 + n2) {
                            let t1 = tokens_of(e1);
                            let t2 = tokens_of(e2);
                            let t3 = tokens_of(e3);
                            let head = seq![TokenModel::If];
                            let then = seq![TokenModel::Then];
                            let els = seq![TokenModel::Else];
                            lemma_occurs_one(ts, i);
                            lemma_occurs_join(ts, i, head, t1);
                            lemma_occurs_one(ts, i + 1 + n1);
                            lemma_occurs_join(ts, i, head + t1, then);
                            lemma_occurs_join(ts, i, head + t1 + then, t2);
                            lemma_occurs_one(ts, i + 2 + n1 + n2);
                            lemma_occurs_join(ts, i, head + t1 + then + t2, els);
                            lemma_occurs_join(ts, i, head + t1 + then + t2 + els, t3);
                        }
                    }
                }
            }
        }
    }
}

/// The same, of what the parser reads as a `let`.
proof fn lemma_let_at_reads(ts: Seq<TokenModel>, i: int)
    ensures
        match let_at(ts, i) {
            Ok((e, n)) => occurs(ts, i, tokens_of(e)) && n == tokens_of(e).len(),
            Err(_) => true,
        },
    decreases ts.len() - i, 0int,
{
    if expect(ts, i, TokenModel::Let) is None {
        if let Ok(v) = name_at(ts, i + 1) {
            if expect(ts, i + 2, TokenModel::Assign) is None {
                lemma_exp_at_reads(ts, i + 3);
                if let Ok((e1, n1)) = exp_at(ts, i + 3) {
                    if expect(ts, i + 3 + n1, TokenModel::In) is None {
                        lemma_exp_at_reads(ts, i + 4 + n1);
                        if let Ok((e2, n2)) = exp_at(ts, i + 4 + n1) {
                            let t1 = tokens_of(e1);
                            let t2 = tokens_of(e2);
                            let head = seq![
                                TokenModel::Let,
                                TokenModel::Identifier(v),
                                TokenModel::Assign,
                            ];
                            let mid = seq![TokenModel::In];
                            assert(ts.subrange(i, i + 3) =~= head);
                            lemma_occurs_join(ts, i, head, t1);
                            lemma_occurs_one(ts, i + 3 + n1);
                            lemma_occurs_join(ts, i, head + t1, mid);
                            lemma_occurs_join(ts, i, head + t1 + mid, t2);
                        }
                    }
                }
            }
        }
    }
}

/// The parser accepts exactly the token sequences that spell an
/// expression, and gives that expression: the tokens of one expression,
/// no more and no less.
pub proof fn lemma_parse_accepts_grammar(ts: Seq<TokenModel>, e: ExpModel)
    ensures
        parse_tokens(ts) == Ok::<ExpModel, Seq<char>>(e) <==> ts == tokens_of(e),
{
    if ts == tokens_of(e) {
        lemma_parse_inverts_tokens_of(e);
    }
    if parse_tokens(ts) == Ok::<ExpModel, Seq<char>>(e) {
        lemma_exp_at_reads(ts, 0);
        assert(ts.subrange(0, ts.len() as int) =~= ts);
    }
}

} // verus!
