//! The scanner: from source text to tokens.

use vstd::prelude::*;
use crate::text::{
    blank, bool_text, bool_to_string, decimal, digit, digits_value, i32_to_string, is_digit,
    is_letter, is_whitespace, letter, push_decimal,
};

verus! {

/// A lexical unit of the language.
#[derive(Debug)]
pub enum Token {
    Lparen,
    Rparen,
    Comma,
    Minus,
    Assign,
    IsZero,
    If,
    Then,
    Else,
    Let,
    In,
    Identifier(String),
    Integer(i32),
    Boolean(bool),
}

/// What a token stands for: the same alphabet, with the name of an
/// identifier as a sequence of characters.
pub enum TokenModel {
    Lparen,
    Rparen,
    Comma,
    Minus,
    Assign,
    IsZero,
    If,
    Then,
    Else,
    Let,
    In,
    Identifier(Seq<char>),
    Integer(i32),
    Boolean(bool),
}

impl Token {
    pub open spec fn view(&self) -> TokenModel {
        match self {
            Token::Lparen => TokenModel::Lparen,
            Token::Rparen => TokenModel::Rparen,
            Token::Comma => TokenModel::Comma,
            Token::Minus => TokenModel::Minus,
            Token::Assign => TokenModel::Assign,
            Token::IsZero => TokenModel::IsZero,
            Token::If => TokenModel::If,
            Token::Then => TokenModel::Then,
            Token::Else => TokenModel::Else,
            Token::Let => TokenModel::Let,
            Token::In => TokenModel::In,
            Token::Identifier(s) => TokenModel::Identifier(s@),
            Token::Integer(n) => TokenModel::Integer(*n),
            Token::Boolean(b) => TokenModel::Boolean(*b),
        }
    }
}

impl Clone for Token {
    fn clone(&self) -> (r: Token)
        ensures
            r@ == self@,
    {
        match self {
            Token::Lparen => Token::Lparen,
            Token::Rparen => Token::Rparen,
            Token::Comma => Token::Comma,
            Token::Minus => Token::Minus,
            Token::Assign => Token::Assign,
            Token::IsZero => Token::IsZero,
            Token::If => Token::If,
            Token::Then => Token::Then,
            Token::Else => Token::Else,
            Token::Let => Token::Let,
            Token::In => Token::In,
            Token::Identifier(s) => Token::Identifier(s.clone()),
            Token::Integer(n) => Token::Integer(*n),
            Token::Boolean(b) => Token::Boolean(*b),
        }
    }
}

impl PartialEq for Token {
    fn eq(&self, other: &Token) -> (r: bool) {
        match (self, other) {
            (Token::Lparen, Token::Lparen) => true,
            (Token::Rparen, Token::Rparen) => true,
            (Token::Comma, Token::Comma) => true,
            (Token::Minus, Token::Minus) => true,
            (Token::Assign, Token::Assign) => true,
            (Token::IsZero, Token::IsZero) => true,
            (Token::If, Token::If) => true,
            (Token::Then, Token::Then) => true,
            (Token::Else, Token::Else) => true,
            (Token::Let, Token::Let) => true,
            (Token::In, Token::In) => true,
            (Token::Identifier(a), Token::Identifier(b)) => *a == *b,
            (Token::Integer(a), Token::Integer(b)) => *a == *b,
            (Token::Boolean(a), Token::Boolean(b)) => *a == *b,
            _ => false,
        }
    }
}

impl vstd::std_specs::cmp::PartialEqSpecImpl for Token {
    open spec fn obeys_eq_spec() -> bool {
        true
    }

    /// Two tokens are equal when they stand for the same thing.
    open spec fn eq_spec(&self, other: &Token) -> bool {
        self@ == other@
    }
}

/// The models of a sequence of tokens, in order.
pub open spec fn token_models(tokens: Seq<Token>) -> Seq<TokenModel> {
    Seq::new(tokens.len(), |i: int| tokens[i]@)
}

/// What formatting a string with `{:?}` gives: the string between double
/// quotes, with the characters that cannot stand there as they are written
/// as escapes. The standard library defines it by tables over all of
/// Unicode; every use of it here goes through this name.
pub uninterp spec fn quoted(s: Seq<char>) -> Seq<char>;

/// Formats a string with `{:?}`, as the standard library's `Debug` for
/// strings does: the result is `quoted` of the string's characters.
#[verifier::external_body]
fn quote(s: &String) -> (r: String)
    ensures
        r@ == quoted(s@),
{
    format!("{:?}", s)
}

impl TokenModel {
    /// The token as diagnostics show it: the variant's name, and behind it
    /// in parentheses what the token carries.
    pub open spec fn debug_text(self) -> Seq<char> {
        match self {
            TokenModel::Lparen => "Lparen"@,
            TokenModel::Rparen => "Rparen"@,
            TokenModel::Comma => "Comma"@,
            TokenModel::Minus => "Minus"@,
            TokenModel::Assign => "Assign"@,
            TokenModel::IsZero => "IsZero"@,
            TokenModel::If => "If"@,
            TokenModel::Then => "Then"@,
            TokenModel::Else => "Else"@,
            TokenModel::Let => "Let"@,
            TokenModel::In => "In"@,
            TokenModel::Identifier(s) => "Identifier("@ + quoted(s) + ")"@,
            TokenModel::Integer(n) => "Integer("@ + decimal(n as int) + ")"@,
            TokenModel::Boolean(b) => "Boolean("@ + bool_text(b) + ")"@,
        }
    }
}

/// An identifier as diagnostics show it, made from its name as already
/// quoted.
pub fn identifier_debug_string(quoted_name: &str) -> (r: String)
    ensures
        r@ == "Identifier("@ + quoted_name@ + ")"@,
{
    let mut r = String::from_str("Identifier(");
    r.append(quoted_name);
    r.append(")");
    r
}

impl Token {
    /// The token as diagnostics show it.
    pub fn debug_string(&self) -> (r: String)
        ensures
            r@ == self@.debug_text(),
    {
        match self {
            Token::Lparen => String::from_str("Lparen"),
            Token::Rparen => String::from_str("Rparen"),
            Token::Comma => String::from_str("Comma"),
            Token::Minus => String::from_str("Minus"),
            Token::Assign => String::from_str("Assign"),
            Token::IsZero => String::from_str("IsZero"),
            Token::If => String::from_str("If"),
            Token::Then => String::from_str("Then"),
            Token::Else => String::from_str("Else"),
            Token::Let => String::from_str("Let"),
            Token::In => String::from_str("In"),
            Token::Identifier(s) => {
                let q = quote(s);
                identifier_debug_string(q.as_str())
            },
            Token::Integer(n) => {
                let mut r = String::from_str("Integer(");
                let d = i32_to_string(*n);
                r.append(d.as_str());
                r.append(")");
                r
            },
            Token::Boolean(b) => {
                let mut r = String::from_str("Boolean(");
                let d = bool_to_string(*b);
                r.append(d.as_str());
                r.append(")");
                r
            },
        }
    }
}

/// The number of letters that stand in `s` from position `i` on, up to the
/// first character that is no letter.
pub open spec fn letter_run(s: Seq<char>, i: int) -> nat
    decreases s.len() - i,
{
    if 0 <= i < s.len() && letter(s[i]) {
        1 + letter_run(s, i + 1)
    } else {
        0
    }
}

/// The number of digits that stand in `s` from position `i` on, up to the
/// first character that is no digit.
pub open spec fn digit_run(s: Seq<char>, i: int) -> nat
    decreases s.len() - i,
{
    if 0 <= i < s.len() && digit(s[i]) {
        1 + digit_run(s, i + 1)
    } else {
        0
    }
}

/// The token that a run of letters makes: a keyword, a boolean literal, or
/// else an identifier.
pub open spec fn word_token(w: Seq<char>) -> TokenModel {
    if w == "iszero"@ {
        TokenModel::IsZero
    } else if w == "minus"@ {
        TokenModel::Minus
    } else if w == "if"@ {
        TokenModel::If
    } else if w == "then"@ {
        TokenModel::Then
    } else if w == "else"@ {
        TokenModel::Else
    } else if w == "let"@ {
        TokenModel::Let
    } else if w == "in"@ {
        TokenModel::In
    } else if w == "true"@ {
        TokenModel::Boolean(true)
    } else if w == "false"@ {
        TokenModel::Boolean(false)
    } else {
        TokenModel::Identifier(w)
    }
}

/// Whether a word or a number may end before position `j`: at the end of
/// the text, or before white space, a parenthesis or a comma.
pub open spec fn separated(s: Seq<char>, j: int) -> bool {
    j >= s.len() || blank(s[j]) || s[j] == '(' || s[j] == ')' || s[j] == ','
}

/// Why the scanner stopped, and at which character of the text.
pub struct LexFault {
    pub message: Seq<char>,
    pub at: int,
}

/// The message for a character that starts no token.
pub open spec fn unexpected_character(c: char) -> Seq<char> {
    "Unexpected character: "@.push(c)
}

/// The message for a plus sign that no digit follows.
pub open spec fn isolated_plus() -> Seq<char> {
    "Isolated plus: "@.push('+')
}

/// The message for a run of digits that denotes no 32-bit integer; it shows
/// the character after the run, if there is one.
pub open spec fn not_a_number(s: Seq<char>, j: int) -> Seq<char> {
    if 0 <= j < s.len() {
        "Not a number: "@.push(s[j])
    } else {
        "Not a number: "@
    }
}

/// The message for a character that is glued to the word or number
/// before it.
pub open spec fn expected_whitespace(c: char) -> Seq<char> {
    "Unexpected char, expected whitespace: "@.push(c)
}

/// What the scanner finds at one position of the text.
pub enum Lexeme {
    /// White space, which yields no token.
    Gap,
    /// A token, and the position just after its text.
    Found(TokenModel, int),
    /// No token can be read here.
    Fault(LexFault),
}

/// A word or a number that ends before `j` is a token only if it is
/// separated from what follows.
pub open spec fn closed_at(s: Seq<char>, t: TokenModel, j: int) -> Lexeme {
    if separated(s, j) {
        Lexeme::Found(t, j)
    } else {
        Lexeme::Fault(LexFault { message: expected_whitespace(s[j]), at: j })
    }
}

/// The word that starts at `i`: the longest run of letters.
pub open spec fn word_at(s: Seq<char>, i: int) -> Lexeme {
    let j = i + letter_run(s, i);
    closed_at(s, word_token(s.subrange(i, j)), j)
}

/// Whether the longest run of digits from `i` on is a numeral of a 32-bit
/// integer that is not negative: the run is not empty, and its value fits.
pub open spec fn numeral_at(s: Seq<char>, i: int) -> bool {
    let j = i + digit_run(s, i);
    j > i && digits_value(s.subrange(i, j)) <= i32::MAX
}

/// The integer literal whose digits start at `i`: the longest run of
/// digits, negated where a minus sign stood before it.
pub open spec fn number_at(s: Seq<char>, i: int, negative: bool) -> Lexeme {
    let j = i + digit_run(s, i);
    let v = digits_value(s.subrange(i, j));
    if !numeral_at(s, i) {
        Lexeme::Fault(LexFault { message: not_a_number(s, j), at: j })
    } else if negative {
        closed_at(s, TokenModel::Integer((-v) as i32), j)
    } else {
        closed_at(s, TokenModel::Integer(v as i32), j)
    }
}

/// What stands at position `i` of `s`, for `i` inside the text.
pub open spec fn lexeme_at(s: Seq<char>, i: int) -> Lexeme {
    let c = s[i];
    if blank(c) {
        Lexeme::Gap
    } else if c == '(' {
        Lexeme::Found(TokenModel::Lparen, i + 1)
    } else if c == ')' {
        Lexeme::Found(TokenModel::Rparen, i + 1)
    } else if c == ',' {
        Lexeme::Found(TokenModel::Comma, i + 1)
    } else if c == '=' {
        Lexeme::Found(TokenModel::Assign, i + 1)
    } else if letter(c) {
        word_at(s, i)
    } else if c == '-' {
        if i + 1 < s.len() && digit(s[i + 1]) {
            number_at(s, i + 1, true)
        } else {
            Lexeme::Found(TokenModel::Minus, i + 1)
        }
    } else if c == '+' {
        if i + 1 < s.len() && digit(s[i + 1]) {
            number_at(s, i + 1, false)
        } else {
            Lexeme::Fault(LexFault { message: isolated_plus(), at: i })
        }
    } else if digit(c) {
        number_at(s, i, false)
    } else {
        Lexeme::Fault(LexFault { message: unexpected_character(c), at: i })
    }
}

/// A run of letters or digits ends inside the text or at its end.
pub proof fn lemma_runs_end(s: Seq<char>, i: int)
    requires
        0 <= i <= s.len(),
    ensures
        i + letter_run(s, i) <= s.len(),
        i + digit_run(s, i) <= s.len(),
        i < s.len() && letter(s[i]) ==> letter_run(s, i) >= 1,
        i < s.len() && digit(s[i]) ==> digit_run(s, i) >= 1,
    decreases s.len() - i,
{
    if i < s.len() {
        lemma_runs_end(s, i + 1);
    }
}

/// A token's text is not empty and lies inside the text.
pub proof fn lemma_lexeme_advances(s: Seq<char>, i: int)
    requires
        0 <= i < s.len(),
    ensures
        match lexeme_at(s, i) {
            Lexeme::Found(_, j) => i < j <= s.len(),
            Lexeme::Fault(f) => i <= f.at <= s.len(),
            Lexeme::Gap => true,
        },
{
    lemma_runs_end(s, i);
    lemma_runs_end(s, i + 1);
}

/// A token before what the rest of the text yields.
pub open spec fn emit(t: TokenModel, rest: Result<Seq<TokenModel>, LexFault>) -> Result<
    Seq<TokenModel>,
    LexFault,
> {
    match rest {
        Ok(ts) => Ok(seq![t] + ts),
        Err(f) => Err(f),
    }
}

/// The tokens of `s` from position `i` on, or the first fault.
#[verifier::opaque]
pub open spec fn scan_from(s: Seq<char>, i: int) -> Result<Seq<TokenModel>, LexFault>
    decreases s.len() - i,
{
    if i < 0 || i >= s.len() {
        Ok(Seq::empty())
    } else {
        proof {
            lemma_lexeme_advances(s, i);
        }
        match lexeme_at(s, i) {
            Lexeme::Gap => scan_from(s, i + 1),
            Lexeme::Found(t, j) => emit(t, scan_from(s, j)),
            Lexeme::Fault(f) => Err(f),
        }
    }
}

/// One step of the scan: nothing at the end of the text; else no token for
/// white space, the token that stands there before the tokens of the rest,
/// or the fault.
pub proof fn lemma_scan_step(s: Seq<char>, i: int)
    ensures
        scan_from(s, i) == if i < 0 || i >= s.len() {
            Ok::<Seq<TokenModel>, LexFault>(Seq::empty())
        } else {
            match lexeme_at(s, i) {
                Lexeme::Gap => scan_from(s, i + 1),
                Lexeme::Found(t, j) => emit(t, scan_from(s, j)),
                Lexeme::Fault(f) => Err(f),
            }
        },
{
    reveal(scan_from);
}

/// The line of position `i`, counted from 1: one more than the number of
/// line feeds before it.
pub open spec fn line_at(s: Seq<char>, i: int) -> int
    decreases i,
{
    if i <= 0 || i > s.len() {
        1
    } else if s[i - 1] == '\n' {
        line_at(s, i - 1) + 1
    } else {
        line_at(s, i - 1)
    }
}

/// The column of position `i`, counted from 1 after the last line feed
/// before it.
pub open spec fn column_at(s: Seq<char>, i: int) -> int
    decreases i,
{
    if i <= 0 || i > s.len() {
        1
    } else if s[i - 1] == '\n' {
        1
    } else {
        column_at(s, i - 1) + 1
    }
}

/// What a scanner error says: the message, and the line and column of the
/// offending character.
pub struct LexErrModel {
    pub message: Seq<char>,
    pub line: int,
    pub column: int,
}

/// The error that reports a fault in the text `s`.
pub open spec fn fault_report(s: Seq<char>, f: LexFault) -> LexErrModel {
    LexErrModel { message: f.message, line: line_at(s, f.at), column: column_at(s, f.at) }
}

/// The tokens of a text, or the error that the first fault gives.
pub open spec fn lex(s: Seq<char>) -> Result<Seq<TokenModel>, LexErrModel> {
    match scan_from(s, 0) {
        Ok(ts) => Ok(ts),
        Err(f) => Err(fault_report(s, f)),
    }
}

/// A scanner error: what was wrong, and where in the text.
#[derive(Debug)]
pub struct LexErr {
    message: String,
    line: u32,
    column: u32,
}

impl LexErrModel {
    /// The error as one line of text.
    pub open spec fn text(self) -> Seq<char> {
        "LexError: "@ + self.message + " (line: "@ + decimal(self.line) + ", column: "@ + decimal(
            self.column,
        ) + ")"@
    }
}

impl LexErr {
    pub closed spec fn view(&self) -> LexErrModel {
        LexErrModel {
            message: self.message@,
            line: self.line as int,
            column: self.column as int,
        }
    }

    pub fn message(&self) -> (r: &String)
        ensures
            r@ == self@.message,
    {
        &self.message
    }

    pub fn line(&self) -> (r: u32)
        ensures
            r == self@.line,
    {
        self.line
    }

    pub fn column(&self) -> (r: u32)
        ensures
            r == self@.column,
    {
        self.column
    }

    pub fn to_string(&self) -> (r: String)
        ensures
            r@ == self@.text(),
    {
        let mut r = String::from_str("LexError: ");
        r.append(self.message.as_str());
        r.append(" (line: ");
        push_decimal(&mut r, self.line);
        r.append(", column: ");
        push_decimal(&mut r, self.column);
        r.append(")");
        r
    }
}

/// The characters of a string, in order.
pub fn chars_of(s: &str) -> (v: Vec<char>)
    ensures
        v@ == s@,
{
    let mut v: Vec<char> = Vec::new();
    for c in it: s.chars()
        invariant
            v@ == it.seq().take(it.index()),
    {
        v.push(c);
    }
    v
}

/// Whether a string reads as the given word.
fn is_word(s: &String, w: &str) -> (b: bool)
    ensures
        b == (s@ == w@),
{
    let k = String::from_str(w);
    *s == k
}

/// The tokens `pre`, then what the rest of the text yields.
pub open spec fn after(pre: Seq<TokenModel>, rest: Result<Seq<TokenModel>, LexFault>) -> Result<
    Seq<TokenModel>,
    LexFault,
> {
    match rest {
        Ok(ts) => Ok(pre + ts),
        Err(f) => Err(f),
    }
}

proof fn lemma_after_emit(pre: Seq<TokenModel>, t: TokenModel, rest: Result<Seq<TokenModel>, LexFault>)
    ensures
        after(pre.push(t), rest) == after(pre, emit(t, rest)),
{
    if let Ok(ts) = rest {
        assert(pre.push(t) + ts =~= pre + (seq![t] + ts));
    }
}

proof fn lemma_models_push(tokens: Seq<Token>, t: Token)
    ensures
        token_models(tokens.push(t)) == token_models(tokens).push(t@),
{
    assert(token_models(tokens.push(t)) =~= token_models(tokens).push(t@));
}

/// The token of a parenthesis or a comma.
pub open spec fn punctuation(c: char) -> TokenModel {
    if c == '(' {
        TokenModel::Lparen
    } else if c == ')' {
        TokenModel::Rparen
    } else {
        TokenModel::Comma
    }
}

/// The state of a scan: the text, the position of the current character,
/// its line and column, and the tokens found before it.
struct Lexer {
    chars: Vec<char>,
    pos: usize,
    tokens: Vec<Token>,
    line: u32,
    column: u32,
}

impl Lexer {
    /// The position is inside the text or at its end, and line and column
    /// are those of the position.
    spec fn wf(&self) -> bool {
        &&& self.pos <= self.chars.len() < u32::MAX
        &&& self.line == line_at(self.chars@, self.pos as int)
        &&& self.column == column_at(self.chars@, self.pos as int)
        &&& 1 <= self.line <= self.pos + 1
        &&& 1 <= self.column <= self.pos + 1
    }

    /// The same text, the same tokens: only the position may differ.
    spec fn moved_from(&self, before: &Lexer) -> bool {
        &&& self.wf()
        &&& self.chars == before.chars
        &&& self.tokens == before.tokens
    }

    fn tokenize(s: &str) -> (r: Result<Vec<Token>, LexErr>)
        requires
            s@.len() < u32::MAX,
        ensures
            match lex(s@) {
                Ok(ts) => r is Ok && token_models(r->Ok_0@) == ts,
                Err(e) => r is Err && r->Err_0@ == e,
            },
    {
        let mut lexer = Lexer { chars: chars_of(s), pos: 0, tokens: Vec::new(), line: 1, column: 1 };
        assert(token_models(lexer.tokens@) =~= Seq::empty());
        match lexer.scan() {
            Ok(()) => {
                proof {
                    let ts = scan_from(s@, 0)->Ok_0;
                    assert(Seq::<TokenModel>::empty() + ts =~= ts);
                }
                Ok(lexer.tokens)
            },
            Err(e) => Err(e),
        }
    }

    fn current(&self) -> (r: Option<char>)
        requires
            self.pos <= self.chars.len(),
        ensures
            r == if self.pos < self.chars.len() {
                Some(self.chars[self.pos as int])
            } else {
                None::<char>
            },
    {
        if self.pos < self.chars.len() {
            Some(self.chars[self.pos])
        } else {
            None
        }
    }

    fn advance(&mut self)
        requires
            old(self).wf(),
            old(self).pos < old(self).chars.len(),
        ensures
            final(self).moved_from(old(self)),
            final(self).pos == old(self).pos + 1,
    {
        if self.chars[self.pos] == '\n' {
            self.line += 1;
            self.column = 1;
        } else {
            self.column += 1;
        }
        self.pos += 1;
    }

    fn peek(&self) -> (r: Option<char>)
        requires
            self.pos <= self.chars.len(),
        ensures
            r == if self.pos + 1 < self.chars.len() {
                Some(self.chars[self.pos + 1])
            } else {
                None::<char>
            },
    {
        if self.pos < self.chars.len() && self.pos + 1 < self.chars.len() {
            Some(self.chars[self.pos + 1])
        } else {
            None
        }
    }

    /// Whether the character after the current one is a digit.
    fn digit_follows(&self) -> (b: bool)
        requires
            self.pos <= self.chars.len(),
        ensures
            b == (self.pos + 1 < self.chars.len() && digit(self.chars[self.pos + 1])),
    {
        match self.peek() {
            Some(d) => is_digit(d),
            None => false,
        }
    }

    /// An error with the given message at the current position.
    fn fault(&self, message: String) -> (e: LexErr)
        requires
            self.wf(),
        ensures
            e@ == fault_report(self.chars@, LexFault { message: message@, at: self.pos as int }),
    {
        LexErr { message, line: self.line, column: self.column }
    }

    fn scan(&mut self) -> (r: Result<(), LexErr>)
        requires
            old(self).wf(),
        ensures
            final(self).chars == old(self).chars,
            match scan_from(old(self).chars@, old(self).pos as int) {
                Ok(ts) => r is Ok && final(self).wf() && token_models(final(self).tokens@)
                    == token_models(old(self).tokens@) + ts,
                Err(f) => r is Err && r->Err_0@ == fault_report(old(self).chars@, f),
            },
    {
        let ghost goal = after(
            token_models(self.tokens@),
            scan_from(self.chars@, self.pos as int),
        );
        loop
            invariant
                self.wf(),
                self.chars == old(self).chars,
                goal == after(
                    token_models(old(self).tokens@),
                    scan_from(old(self).chars@, old(self).pos as int),
                ),
                goal == after(token_models(self.tokens@), scan_from(self.chars@, self.pos as int)),
            ensures
                self.wf(),
                self.chars == old(self).chars,
                self.pos == self.chars.len(),
                goal == after(token_models(self.tokens@), scan_from(self.chars@, self.pos as int)),
            decreases self.chars.len() - self.pos,
        {
            let ghost before = *self;
            let ghost i = self.pos as int;
            proof {
                lemma_scan_step(self.chars@, i);
                if i < self.chars.len() {
                    lemma_lexeme_advances(self.chars@, i);
                    lemma_runs_end(self.chars@, i);
                    lemma_runs_end(self.chars@, i + 1);
                }
            }
            match self.current() {
                Some(c) => {
                    if is_whitespace(c) {
                        self.advance();
                    } else if c == '(' {
                        self.push_token(Token::Lparen);
                        self.advance();
                    } else if c == ')' {
                        self.push_token(Token::Rparen);
                        self.advance();
                    } else if c == ',' {
                        self.push_token(Token::Comma);
                        self.advance();
                    } else if c == '=' {
                        self.push_token(Token::Assign);
                        self.advance();
                    } else if is_letter(c) {
                        let tok = self.scan_keywrd_ident_bool()?;
                        self.push_token(tok);
                        self.parse_whitespace_paren_or_eoi()?;
                    } else if c == '-' {
                        if self.digit_follows() {
                            self.advance();
                            let val = self.parse_number()?;
                            self.push_token(Token::Integer(-1 * val));
                            self.parse_whitespace_paren_or_eoi()?;
                        } else {
                            self.push_token(Token::Minus);
                            self.advance();
                        }
                    } else if c == '+' {
                        if self.digit_follows() {
                            self.advance();
                            let val = self.parse_number()?;
                            self.push_token(Token::Integer(val));
                            self.parse_whitespace_paren_or_eoi()?;
                        } else {
                            let mut message = String::from_str("Isolated plus: ");
                            message.push(c);
                            return Err(self.fault(message));
                        }
                    } else if is_digit(c) {
                        let val = self.parse_number()?;
                        self.push_token(Token::Integer(val));
                        self.parse_whitespace_paren_or_eoi()?;
                    } else {
                        let mut message = String::from_str("Unexpected character: ");
                        message.push(c);
                        return Err(self.fault(message));
                    }
                },
                None => break ,
            }
            proof {
                let text = self.chars@;
                let found = token_models(before.tokens@);
                if let Lexeme::Found(t, j) = lexeme_at(text, i) {
                    lemma_after_emit(found, t, scan_from(text, j));
                    if self.pos > j {
                        lemma_scan_step(text, j);
                        lemma_after_emit(
                            found.push(t),
                            punctuation(text[j]),
                            scan_from(text, j + 1),
                        );
                    }
                }
            }
        }
        proof {
            lemma_scan_step(self.chars@, self.pos as int);
            assert(token_models(self.tokens@) + Seq::<TokenModel>::empty() =~= token_models(
                self.tokens@,
            ));
        }
        Ok(())
    }

    /// Adds a token to those found.
    fn push_token(&mut self, tok: Token)
        requires
            old(self).wf(),
        ensures
            final(self).wf(),
            final(self).chars == old(self).chars,
            final(self).pos == old(self).pos,
            token_models(final(self).tokens@) == token_models(old(self).tokens@).push(tok@),
    {
        proof {
            lemma_models_push(self.tokens@, tok);
        }
        self.tokens.push(tok);
    }

    /// Reads the longest run of letters from the current position on, and
    /// gives the keyword, boolean or identifier that it spells.
    fn scan_keywrd_ident_bool(&mut self) -> (r: Result<Token, LexErr>)
        requires
            old(self).wf(),
        ensures
            final(self).moved_from(old(self)),
            final(self).pos == old(self).pos + letter_run(old(self).chars@, old(self).pos as int),
            r is Ok,
            r->Ok_0@ == word_token(
                old(self).chars@.subrange(old(self).pos as int, final(self).pos as int),
            ),
    {
        let mut s = String::new();
        let ghost start = self.pos as int;
        loop
            invariant
                self.moved_from(old(self)),
                start == old(self).pos,
                start <= self.pos,
                s@ == self.chars@.subrange(start, self.pos as int),
                self.pos + letter_run(self.chars@, self.pos as int) == start + letter_run(
                    self.chars@,
                    start,
                ),
            ensures
                self.moved_from(old(self)),
                s@ == self.chars@.subrange(start, self.pos as int),
                self.pos == start + letter_run(self.chars@, start),
            decreases self.chars.len() - self.pos,
        {
            match self.current() {
                Some(c) => {
                    if is_letter(c) {
                        proof {
                            assert(self.chars@.subrange(start, self.pos as int).push(c)
                                =~= self.chars@.subrange(start, self.pos as int + 1));
                        }
                        s.push(c);
                        self.advance();
                    } else {
                        break ;
                    }
                },
                None => break ,
            }
        }
        if is_word(&s, "iszero") {
            Ok(Token::IsZero)
        } else if is_word(&s, "minus") {
            Ok(Token::Minus)
        } else if is_word(&s, "if") {
            Ok(Token::If)
        } else if is_word(&s, "then") {
            Ok(Token::Then)
        } else if is_word(&s, "else") {
            Ok(Token::Else)
        } else if is_word(&s, "let") {
            Ok(Token::Let)
        } else if is_word(&s, "in") {
            Ok(Token::In)
        } else if is_word(&s, "true") {
            Ok(Token::Boolean(true))
        } else if is_word(&s, "false") {
            Ok(Token::Boolean(false))
        } else {
            Ok(Token::Identifier(s))
        }
    }

    /// Reads the longest run of digits from the current position on, and
    /// gives its value; fails where the run is empty or its value does not
    /// fit.
    fn parse_number(&mut self) -> (r: Result<i32, LexErr>)
        requires
            old(self).wf(),
        ensures
            final(self).moved_from(old(self)),
            final(self).pos == old(self).pos + digit_run(old(self).chars@, old(self).pos as int),
            r is Ok <==> numeral_at(old(self).chars@, old(self).pos as int),
            r is Ok ==> r->Ok_0 == digits_value(
                old(self).chars@.subrange(old(self).pos as int, final(self).pos as int),
            ),
            r is Err ==> r->Err_0@ == fault_report(
                old(self).chars@,
                LexFault {
                    message: not_a_number(old(self).chars@, final(self).pos as int),
                    at: final(self).pos as int,
                },
            ),
    {
        let ghost start = self.pos as int;
        let mut value: u32 = 0;
        let mut fits = true;
        let mut empty = true;
        loop
            invariant
                self.moved_from(old(self)),
                start == old(self).pos,
                start <= self.pos,
                empty == (self.pos == start),
                self.pos + digit_run(self.chars@, self.pos as int) == start + digit_run(
                    self.chars@,
                    start,
                ),
                value <= i32::MAX,
                fits ==> value == digits_value(self.chars@.subrange(start, self.pos as int)),
                !fits ==> digits_value(self.chars@.subrange(start, self.pos as int)) > i32::MAX,
            ensures
                self.moved_from(old(self)),
                empty == (self.pos == start),
                self.pos == start + digit_run(self.chars@, start),
                value <= i32::MAX,
                fits ==> value == digits_value(self.chars@.subrange(start, self.pos as int)),
                !fits ==> digits_value(self.chars@.subrange(start, self.pos as int)) > i32::MAX,
            decreases self.chars.len() - self.pos,
        {
            match self.current() {
                Some(c) => {
                    if is_digit(c) {
                        let d: u32 = c as u32 - 48;
                        proof {
                            let run = self.chars@.subrange(start, self.pos as int + 1);
                            assert(run.drop_last() =~= self.chars@.subrange(start, self.pos as int));
                            assert(run.last() == c);
                        }
                        if fits && value <= (2147483647 - d) / 10 {
                            value = value * 10 + d;
                        } else {
                            fits = false;
                        }
                        empty = false;
                        self.advance();
                    } else {
                        break ;
                    }
                },
                None => break ,
            }
        }
        if fits && !empty {
            Ok(value as i32)
        } else {
            let mut message = String::from_str("Not a number: ");
            match self.current() {
                Some(c) => {
                    message.push(c);
                },
                None => {},
            }
            Err(self.fault(message))
        }
    }

    /// Checks that the token just read is separated from what follows. A
    /// parenthesis or a comma is taken as a token at once; white space is
    /// left where it is.
    fn parse_whitespace_paren_or_eoi(&mut self) -> (r: Result<(), LexErr>)
        requires
            old(self).wf(),
        ensures
            final(self).wf(),
            final(self).chars == old(self).chars,
            r is Ok <==> separated(old(self).chars@, old(self).pos as int),
            r is Ok ==> if old(self).pos < old(self).chars.len() && !blank(
                old(self).chars[old(self).pos as int],
            ) {
                &&& final(self).pos == old(self).pos + 1
                &&& token_models(final(self).tokens@) == token_models(old(self).tokens@).push(
                    punctuation(old(self).chars[old(self).pos as int]),
                )
            } else {
                &&& final(self).pos == old(self).pos
                &&& final(self).tokens == old(self).tokens
            },
            r is Err ==> final(self).pos == old(self).pos && final(self).tokens == old(
                self,
            ).tokens && r->Err_0@ == fault_report(
                old(self).chars@,
                LexFault {
                    message: expected_whitespace(old(self).chars[old(self).pos as int]),
                    at: old(self).pos as int,
                },
            ),
    {
        match self.current() {
            Some(c) => {
                if is_whitespace(c) {
                } else if c == '(' {
                    self.push_token(Token::Lparen);
                    self.advance();
                } else if c == ')' {
                    self.push_token(Token::Rparen);
                    self.advance();
                } else if c == ',' {
                    self.push_token(Token::Comma);
                    self.advance();
                } else {
                    let mut message = String::from_str("Unexpected char, expected whitespace: ");
                    message.push(c);
                    return Err(self.fault(message));
                }
            },
            None => {},
        };
        Ok(())
    }
}

/// Scans a text into its tokens. Fails at the first character that starts
/// no token or is glued to the token before it, with the line and column of
/// that character.
pub fn tokenize(s: &str) -> (r: Result<Vec<Token>, LexErr>)
    requires
        s@.len() < u32::MAX,
    ensures
        match lex(s@) {
            Ok(ts) => r is Ok && token_models(r->Ok_0@) == ts,
            Err(e) => r is Err && r->Err_0@ == e,
        },
{
    Lexer::tokenize(s)
}

} // verus!
