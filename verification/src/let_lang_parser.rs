//! The parser: from tokens to an expression.
//!
//! ```text
//! Expr := Integer | Boolean | Identifier
//!       | '-' '(' Expr ',' Expr ')'
//!       | 'iszero' '(' Expr ')'
//!       | 'if' Expr 'then' Expr 'else' Expr
//!       | 'let' Identifier '=' Expr 'in' Expr
//! ```

use vstd::prelude::*;
use crate::let_lang_exp::{ExpModel, LetLangExp};
use crate::let_lang_scanner::{token_models, Token, TokenModel};

verus! {

/// A parser error: what was wrong with the tokens.
#[derive(Debug)]
pub struct ParseErr {
    message: String,
}

/// The error as one line of text.
pub open spec fn parse_error_text(message: Seq<char>) -> Seq<char> {
    "ParseError: "@ + message
}

impl ParseErr {
    /// The message of the error.
    pub closed spec fn view(&self) -> Seq<char> {
        self.message@
    }

    pub fn message(&self) -> (r: &String)
        ensures
            r@ == self@,
    {
        &self.message
    }

    pub fn to_string(&self) -> (r: String)
        ensures
            r@ == parse_error_text(self@),
    {
        let mut r = String::from_str("ParseError: ");
        r.append(self.message.as_str());
        r
    }
}

/// Why a parse stopped, and the position of the first token that it had
/// not taken by then.
pub struct ParseFault {
    pub message: Seq<char>,
    pub next: int,
}

/// The message for a token that stands where another is due.
pub open spec fn expected_but_found(expected: TokenModel, found: TokenModel) -> Seq<char> {
    "Expected "@ + expected.debug_text() + " but found "@ + found.debug_text()
}

/// The message for the end of the tokens where a token is due.
pub open spec fn expected_but_end(expected: TokenModel) -> Seq<char> {
    "Expected "@ + expected.debug_text() + " but found EOI"@
}

/// The message for a token that is left over.
pub open spec fn extra_input(found: TokenModel) -> Seq<char> {
    "Toplevel: Extra input at end of parse: "@ + found.debug_text()
}

/// What goes wrong where the token at `k` must be `expected`: nothing, if
/// it is. A token that is not the expected one is taken all the same.
pub open spec fn expect(ts: Seq<TokenModel>, k: int, expected: TokenModel) -> Option<ParseFault> {
    if k < 0 || k >= ts.len() {
        Some(ParseFault { message: expected_but_end(expected), next: k })
    } else if ts[k] != expected {
        Some(ParseFault { message: expected_but_found(expected, ts[k]), next: k + 1 })
    } else {
        None
    }
}

/// The name that a `let` binds, read at `k`.
pub open spec fn name_at(ts: Seq<TokenModel>, k: int) -> Result<Seq<char>, ParseFault> {
    if k < 0 || k >= ts.len() {
        Err(ParseFault { message: "get_string1: Unexpected EOI"@, next: k })
    } else {
        match ts[k] {
            TokenModel::Identifier(v) => Ok(v),
            _ => Err(ParseFault { message: "get_string2: Unexpected token type"@, next: k + 1 }),
        }
    }
}

/// The integer literal at `k` as an expression.
pub open spec fn const_at(ts: Seq<TokenModel>, k: int) -> Result<(ExpModel, nat), ParseFault> {
    if k < 0 || k >= ts.len() {
        Err(ParseFault { message: "parse_integer: Int expected but EOI found."@, next: k })
    } else {
        match ts[k] {
            TokenModel::Integer(n) => Ok((ExpModel::ConstExp(n), 1)),
            _ => Err(ParseFault { message: "parse_const: Int token expected."@, next: k + 1 }),
        }
    }
}

/// The boolean literal at `k` as an expression.
pub open spec fn bool_at(ts: Seq<TokenModel>, k: int) -> Result<(ExpModel, nat), ParseFault> {
    if k < 0 || k >= ts.len() {
        Err(ParseFault { message: "parse_bool: Bool expected but EOI found."@, next: k })
    } else {
        match ts[k] {
            TokenModel::Boolean(b) => Ok((ExpModel::Boolean(b), 1)),
            _ => Err(
                ParseFault { message: "parse_bool: Identifier token expected."@, next: k + 1 },
            ),
        }
    }
}

/// The identifier at `k` as an expression.
pub open spec fn var_at(ts: Seq<TokenModel>, k: int) -> Result<(ExpModel, nat), ParseFault> {
    if k < 0 || k >= ts.len() {
        Err(ParseFault { message: "parse_var: Ident expected but EOI found."@, next: k })
    } else {
        match ts[k] {
            TokenModel::Identifier(v) => Ok((ExpModel::VarExp(v), 1)),
            _ => Err(ParseFault { message: "parse_var: Identifier token expected."@, next: k + 1 }),
        }
    }
}

/// The expression that starts at token `i`, with the number of tokens that
/// it takes; or the first fault. The token at `i` alone decides which form
/// the expression has.
pub open spec fn exp_at(ts: Seq<TokenModel>, i: int) -> Result<(ExpModel, nat), ParseFault>
    decreases ts.len() - i, 1int,
{
    if i < 0 || i >= ts.len() {
        Err(ParseFault { message: "Unexpected end of input"@, next: i })
    } else {
        match ts[i] {
            TokenModel::Integer(_) => const_at(ts, i),
            TokenModel::Boolean(_) => bool_at(ts, i),
            TokenModel::Minus => diff_at(ts, i),
            TokenModel::IsZero => iszero_at(ts, i),
            TokenModel::If => if_at(ts, i),
            TokenModel::Identifier(_) => var_at(ts, i),
            TokenModel::Let => let_at(ts, i),
            _ => Err(ParseFault { message: "lle: Unexpected token type"@, next: i }),
        }
    }
}

/// `'-' '(' Expr ',' Expr ')'` from token `i` on.
pub open spec fn diff_at(ts: Seq<TokenModel>, i: int) -> Result<(ExpModel, nat), ParseFault>
    decreases ts.len() - i, 0int,
{
    if let Some(f) = expect(ts, i, TokenModel::Minus) {
        Err(f)
    } else if let Some(f) = expect(ts, i + 1, TokenModel::Lparen) {
        Err(f)
    } else {
        match exp_at(ts, i + 2) {
            Err(f) => Err(f),
            Ok((e1, n1)) => {
                if let Some(f) = expect(ts, i + 2 + n1, TokenModel::Comma) {
                    Err(f)
                } else {
                    match exp_at(ts, i + 3 + n1) {
                        Err(f) => Err(f),
                        Ok((e2, n2)) => {
                            if let Some(f) = expect(ts, i + 3 + n1 + n2, TokenModel::Rparen) {
                                Err(f)
                            } else {
                                Ok((ExpModel::DiffExp(Box::new(e1), Box::new(e2)), 4 + n1 + n2))
                            }
                        },
                    }
                }
            },
        }
    }
}

/// `'iszero' '(' Expr ')'` from token `i` on.
pub open spec fn iszero_at(ts: Seq<TokenModel>, i: int) -> Result<(ExpModel, nat), ParseFault>
    decreases ts.len() - i, 0int,
{
    if let Some(f) = expect(ts, i, TokenModel::IsZero) {
        Err(f)
    } else if let Some(f) = expect(ts, i + 1, TokenModel::Lparen) {
        Err(f)
    } else {
        match exp_at(ts, i + 2) {
            Err(f) => Err(f),
            Ok((e, n)) => {
                if let Some(f) = expect(ts, i + 2 + n, TokenModel::Rparen) {
                    Err(f)
                } else {
                    Ok((ExpModel::IsZeroExp(Box::new(e)), 3 + n))
                }
            },
        }
    }
}

/// `'if' Expr 'then' Expr 'else' Expr` from token `i` on.
pub open spec fn if_at(ts: Seq<TokenModel>, i: int) -> Result<(ExpModel, nat), ParseFault>
    decreases ts.len() - i, 0int,
{
    if let Some(f) = expect(ts, i, TokenModel::If) {
        Err(f)
    } else {
        match exp_at(ts, i + 1) {
            Err(f) => Err(f),
            Ok((e1, n1)) => {
                if let Some(f) = expect(ts, i + 1 + n1, TokenModel::Then) {
                    Err(f)
                } else {
                    match exp_at(ts, i + 2 + n1) {
                        Err(f) => Err(f),
                        Ok((e2, n2)) => {
                            if let Some(f) = expect(ts, i + 2 + n1 + n2, TokenModel::Else) {
                                Err(f)
                            } else {
                                match exp_at(ts, i + 3 + n1 + n2) {
                                    Err(f) => Err(f),
                                    Ok((e3, n3)) => Ok(
                                        (
                                            ExpModel::IfExp(
                                                Box::new(e1),
                                                Box::new(e2),
                                                Box::new(e3),
                                            ),
                                            3 + n1 + n2 + n3,
                                        ),
                                    ),
                                }
                            }
                        },
                    }
                }
            },
        }
    }
}

/// `'let' Identifier '=' Expr 'in' Expr` from token `i` on.
pub open spec fn let_at(ts: Seq<TokenModel>, i: int) -> Result<(ExpModel, nat), ParseFault>
    decreases ts.len() - i, 0int,
{
    if let Some(f) = expect(ts, i, TokenModel::Let) {
        Err(f)
    } else {
        match name_at(ts, i + 1) {
            Err(f) => Err(f),
            Ok(v) => {
                if let Some(f) = expect(ts, i + 2, TokenModel::Assign) {
                    Err(f)
                } else {
                    match exp_at(ts, i + 3) {
                        Err(f) => Err(f),
                        Ok((e1, n1)) => {
                            if let Some(f) = expect(ts, i + 3 + n1, TokenModel::In) {
                                Err(f)
                            } else {
                                match exp_at(ts, i + 4 + n1) {
                                    Err(f) => Err(f),
                                    Ok((e2, n2)) => Ok(
                                        (
                                            ExpModel::LetExp(v, Box::new(e1), Box::new(e2)),
                                            4 + n1 + n2,
                                        ),
                                    ),
                                }
                            }
                        },
                    }
                }
            },
        }
    }
}

/// The expression that the tokens spell, all of them; or the error. Where
/// tokens are left over, after an expression or after a fault, the error
/// names the first of them.
pub open spec fn parse_tokens(ts: Seq<TokenModel>) -> Result<ExpModel, Seq<char>> {
    match exp_at(ts, 0) {
        Ok((e, n)) => if n < ts.len() {
            Err(extra_input(ts[n as int]))
        } else {
            Ok(e)
        },
        Err(f) => if 0 <= f.next < ts.len() {
            Err(extra_input(ts[f.next]))
        } else {
            Err(f.message)
        },
    }
}

/// The tokens that spell an expression: the grammar, read from the
/// expression to its tokens.
pub open spec fn tokens_of(e: ExpModel) -> Seq<TokenModel>
    decreases e,
{
    match e {
        ExpModel::ConstExp(n) => seq![TokenModel::Integer(n)],
        ExpModel::Boolean(b) => seq![TokenModel::Boolean(b)],
        ExpModel::DiffExp(e1, e2) => seq![TokenModel::Minus, TokenModel::Lparen] + tokens_of(*e1)
            + seq![TokenModel::Comma] + tokens_of(*e2) + seq![TokenModel::Rparen],
        ExpModel::IsZeroExp(e1) => seq![TokenModel::IsZero, TokenModel::Lparen] + tokens_of(*e1)
            + seq![TokenModel::Rparen],
        ExpModel::IfExp(e1, e2, e3) => seq![TokenModel::If] + tokens_of(*e1)
            + seq![TokenModel::Then] + tokens_of(*e2) + seq![TokenModel::Else] + tokens_of(*e3),
        ExpModel::VarExp(v) => seq![TokenModel::Identifier(v)],
        ExpModel::LetExp(v, e1, e2) => seq![
            TokenModel::Let,
            TokenModel::Identifier(v),
            TokenModel::Assign,
        ] + tokens_of(*e1) + seq![TokenModel::In] + tokens_of(*e2),
    }
}

/// What a parsing step made of the tokens from `old_pos` on: the
/// expression and the position behind it, or the error and the position
/// where the step stopped.
pub open spec fn outcome(
    expected: Result<(ExpModel, nat), ParseFault>,
    old_pos: int,
    r: Result<LetLangExp, ParseErr>,
    new_pos: int,
) -> bool {
    match expected {
        Ok((e, n)) => r is Ok && r->Ok_0@ == e && new_pos == old_pos + n,
        Err(f) => r is Err && r->Err_0@ == f.message && new_pos == f.next,
    }
}

/// The state of a parse: the tokens, and how many of them are taken.
struct Parser<'a> {
    tokens: &'a Vec<Token>,
    pos: usize,
}

impl<'a> Parser<'a> {
    /// The tokens as the grammar sees them.
    spec fn input(&self) -> Seq<TokenModel> {
        token_models(self.tokens@)
    }

    /// The same tokens, and a position among them.
    spec fn follows(&self, before: &Parser<'a>) -> bool {
        &&& self.tokens == before.tokens
        &&& self.pos <= self.tokens.len()
    }

    fn parse(tokens: &Vec<Token>) -> (r: Result<LetLangExp, ParseErr>)
        ensures
            match parse_tokens(token_models(tokens@)) {
                Ok(e) => r is Ok && r->Ok_0@ == e,
                Err(m) => r is Err && r->Err_0@ == m,
            },
    {
        let mut parser = Parser { tokens, pos: 0 };
        let ast_root = parser.parse_let_lang_exp();
        match parser.next_token() {
            Some(tok) => {
                let mut message = String::from_str("Toplevel: Extra input at end of parse: ");
                let found = tok.debug_string();
                message.append(found.as_str());
                Err(ParseErr { message })
            },
            None => ast_root,
        }
    }

    /// Takes the next token, if one is left.
    fn next_token(&mut self) -> (r: Option<&'a Token>)
        requires
            old(self).pos <= old(self).tokens.len(),
        ensures
            final(self).follows(old(self)),
            old(self).pos < old(self).tokens.len() ==> r is Some && r->Some_0@ == old(
                self,
            ).input()[old(self).pos as int] && final(self).pos == old(self).pos + 1,
            old(self).pos >= old(self).tokens.len() ==> r is None && final(self).pos == old(
                self,
            ).pos,
    {
        if self.pos < self.tokens.len() {
            let tok = &self.tokens[self.pos];
            self.pos += 1;
            Some(tok)
        } else {
            None
        }
    }

    fn parse_let_lang_exp(&mut self) -> (r: Result<LetLangExp, ParseErr>)
        requires
            old(self).pos <= old(self).tokens.len(),
        ensures
            final(self).follows(old(self)),
            outcome(
                exp_at(old(self).input(), old(self).pos as int),
                old(self).pos as int,
                r,
                final(self).pos as int,
            ),
        decreases old(self).tokens.len() - old(self).pos, 2int,
    {
        if self.pos < self.tokens.len() {
            let peek_token = &self.tokens[self.pos];
            self.parse_lle_work(peek_token.clone())
        } else {
            Err(ParseErr { message: String::from_str("Unexpected end of input") })
        }
    }

    /// Parses the expression whose first token is `peek_tok`, which is the
    /// next token and still to be taken.
    fn parse_lle_work(&mut self, peek_tok: Token) -> (r: Result<LetLangExp, ParseErr>)
        requires
            old(self).pos < old(self).tokens.len(),
            peek_tok@ == old(self).input()[old(self).pos as int],
        ensures
            final(self).follows(old(self)),
            outcome(
                exp_at(old(self).input(), old(self).pos as int),
                old(self).pos as int,
                r,
                final(self).pos as int,
            ),
        decreases old(self).tokens.len() - old(self).pos, 1int,
    {
        match peek_tok {
            Token::Integer(_n) => {
                let e = self.parse_const()?;
                Ok(e)
            },
            Token::Boolean(_b) => {
                let e = self.parse_bool()?;
                Ok(e)
            },
            Token::Minus => {
                let e = self.parse_diff()?;
                Ok(e)
            },
            Token::IsZero => {
                let e = self.parse_iszero()?;
                Ok(e)
            },
            Token::If => {
                let e = self.parse_if_then_else()?;
                Ok(e)
            },
            Token::Identifier(_s) => {
                let e = self.parse_var()?;
                Ok(e)
            },
            Token::Let => {
                let e = self.parse_let_in()?;
                Ok(e)
            },
            _ => Err(ParseErr { message: String::from_str("lle: Unexpected token type") }),
        }
    }

    fn parse_const(&mut self) -> (r: Result<LetLangExp, ParseErr>)
        requires
            old(self).pos <= old(self).tokens.len(),
        ensures
            final(self).follows(old(self)),
            outcome(
                const_at(old(self).input(), old(self).pos as int),
                old(self).pos as int,
                r,
                final(self).pos as int,
            ),
    {
        let tok = match self.next_token() {
            Some(t) => t,
            None => {
                return Err(
                    ParseErr {
                        message: String::from_str("parse_integer: Int expected but EOI found."),
                    },
                );
            },
        };
        match tok {
            Token::Integer(i) => Ok(LetLangExp::new_const_exp(*i)),
            _ => Err(ParseErr { message: String::from_str("parse_const: Int token expected.") }),
        }
    }

    fn parse_bool(&mut self) -> (r: Result<LetLangExp, ParseErr>)
        requires
            old(self).pos <= old(self).tokens.len(),
        ensures
            final(self).follows(old(self)),
            outcome(
                bool_at(old(self).input(), old(self).pos as int),
                old(self).pos as int,
                r,
                final(self).pos as int,
            ),
    {
        let tok = match self.next_token() {
            Some(t) => t,
            None => {
                return Err(
                    ParseErr {
                        message: String::from_str("parse_bool: Bool expected but EOI found."),
                    },
                );
            },
        };
        match tok {
            Token::Boolean(b) => Ok(LetLangExp::new_boolean(*b)),
            _ => Err(
                ParseErr { message: String::from_str("parse_bool: Identifier token expected.") },
            ),
        }
    }

    fn parse_var(&mut self) -> (r: Result<LetLangExp, ParseErr>)
        requires
            old(self).pos <= old(self).tokens.len(),
        ensures
            final(self).follows(old(self)),
            outcome(
                var_at(old(self).input(), old(self).pos as int),
                old(self).pos as int,
                r,
                final(self).pos as int,
            ),
    {
        let tok = match self.next_token() {
            Some(t) => t,
            None => {
                return Err(
                    ParseErr {
                        message: String::from_str("parse_var: Ident expected but EOI found."),
                    },
                );
            },
        };
        match tok {
            Token::Identifier(s) => Ok(LetLangExp::new_var_exp(s)),
            _ => Err(
                ParseErr { message: String::from_str("parse_var: Identifier token expected.") },
            ),
        }
    }

    /// Takes the next token, which must be an identifier, and gives its
    /// name.
    fn get_string(&mut self) -> (r: Result<String, ParseErr>)
        requires
            old(self).pos <= old(self).tokens.len(),
        ensures
            final(self).follows(old(self)),
            match name_at(old(self).input(), old(self).pos as int) {
                Ok(v) => r is Ok && r->Ok_0@ == v && final(self).pos == old(self).pos + 1,
                Err(f) => r is Err && r->Err_0@ == f.message && final(self).pos == f.next,
            },
    {
        let tok = match self.next_token() {
            Some(token) => token,
            None => {
                return Err(ParseErr { message: String::from_str("get_string1: Unexpected EOI") });
            },
        };
        match tok {
            Token::Identifier(s) => Ok(s.clone()),
            _ => Err(ParseErr { message: String::from_str("get_string2: Unexpected token type") }),
        }
    }

    /// Takes the next token, which must be `tok`.
    fn match_token(&mut self, tok: &Token) -> (r: Result<Option<LetLangExp>, ParseErr>)
        requires
            old(self).pos <= old(self).tokens.len(),
        ensures
            final(self).follows(old(self)),
            match expect(old(self).input(), old(self).pos as int, tok@) {
                None => r is Ok && r->Ok_0 is None && final(self).pos == old(self).pos + 1,
                Some(f) => r is Err && r->Err_0@ == f.message && final(self).pos == f.next,
            },
    {
        match self.next_token() {
            Some(tok2) => {
                if *tok == *tok2 {
                    Ok(None)
                } else {
                    let mut message = String::from_str("Expected ");
                    let expected = tok.debug_string();
                    message.append(expected.as_str());
                    message.append(" but found ");
                    let found = tok2.debug_string();
                    message.append(found.as_str());
                    assert(message@ =~= expected_but_found(tok@, tok2@));
                    Err(ParseErr { message })
                }
            },
            None => {
                let mut message = String::from_str("Expected ");
                let expected = tok.debug_string();
                message.append(expected.as_str());
                message.append(" but found EOI");
                assert(message@ =~= expected_but_end(tok@));
                Err(ParseErr { message })
            },
        }
    }

    fn parse_diff(&mut self) -> (r: Result<LetLangExp, ParseErr>)
        requires
            old(self).pos <= old(self).tokens.len(),
        ensures
            final(self).follows(old(self)),
            outcome(
                diff_at(old(self).input(), old(self).pos as int),
                old(self).pos as int,
                r,
                final(self).pos as int,
            ),
        decreases old(self).tokens.len() - old(self).pos, 0int,
    {
        self.match_token(&Token::Minus)?;
        self.match_token(&Token::Lparen)?;
        let e1 = self.parse_let_lang_exp()?;
        self.match_token(&Token::Comma)?;
        let e2 = self.parse_let_lang_exp()?;
        self.match_token(&Token::Rparen)?;
        Ok(LetLangExp::new_diff_exp(&e1, &e2))
    }

    fn parse_iszero(&mut self) -> (r: Result<LetLangExp, ParseErr>)
        requires
            old(self).pos <= old(self).tokens.len(),
        ensures
            final(self).follows(old(self)),
            outcome(
                iszero_at(old(self).input(), old(self).pos as int),
                old(self).pos as int,
                r,
                final(self).pos as int,
            ),
        decreases old(self).tokens.len() - old(self).pos, 0int,
    {
        self.match_token(&Token::IsZero)?;
        self.match_token(&Token::Lparen)?;
        let e = self.parse_let_lang_exp()?;
        self.match_token(&Token::Rparen)?;
        Ok(LetLangExp::new_iszero(&e))
    }

    fn parse_if_then_else(&mut self) -> (r: Result<LetLangExp, ParseErr>)
        requires
            old(self).pos <= old(self).tokens.len(),
        ensures
            final(self).follows(old(self)),
            outcome(
                if_at(old(self).input(), old(self).pos as int),
                old(self).pos as int,
                r,
                final(self).pos as int,
            ),
        decreases old(self).tokens.len() - old(self).pos, 0int,
    {
        self.match_token(&Token::If)?;
        let e1 = self.parse_let_lang_exp()?;
        self.match_token(&Token::Then)?;
        let e2 = self.parse_let_lang_exp()?;
        self.match_token(&Token::Else)?;
        let e3 = self.parse_let_lang_exp()?;
        Ok(LetLangExp::new_if_exp(&e1, &e2, &e3))
    }

    fn parse_let_in(&mut self) -> (r: Result<LetLangExp, ParseErr>)
        requires
            old(self).pos <= old(self).tokens.len(),
        ensures
            final(self).follows(old(self)),
            outcome(
                let_at(old(self).input(), old(self).pos as int),
                old(self).pos as int,
                r,
                final(self).pos as int,
            ),
        decreases old(self).tokens.len() - old(self).pos, 0int,
    {
        self.match_token(&Token::Let)?;
        let s = self.get_string()?;
        self.match_token(&Token::Assign)?;
        let e1 = self.parse_let_lang_exp()?;
        self.match_token(&Token::In)?;
        let e2 = self.parse_let_lang_exp()?;
        Ok(LetLangExp::new_let_exp(&s, &e1, &e2))
    }
}

/// Parses the tokens, all of them, as one expression.
pub fn parse(tokens: &Vec<Token>) -> (r: Result<LetLangExp, ParseErr>)
    ensures
        match parse_tokens(token_models(tokens@)) {
            Ok(e) => r is Ok && r->Ok_0@ == e,
            Err(m) => r is Err && r->Err_0@ == m,
        },
{
    Parser::parse(tokens)
}

} // verus!
