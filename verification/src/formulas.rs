//! The skin formula language (`(#W# * #Scale#) + 10`, `Round(14.7)`,
//! `(a > b) ? 1 : 0`).
//!
//! A formula is read in two verified stages: `tokenize` turns the text into
//! tokens, and `compile_tokens` turns the tokens into a postfix program,
//! following operator precedence. The program lists the operations in the
//! order in which a left-to-right evaluation meets them, and ends in the
//! syntax fault that stopped the reading, if any. Running the program on
//! numbers is left to the caller, which owns the floating-point values.
use crate::text::{
    eq_str, is_ascii_char, is_ascii_letter, is_digit, is_whitespace, is_ws, lower, lower_range,
    string_of, to_chars, trim, trim_str,
};
use crate::variables::char_alphanumeric;
use vstd::prelude::*;

verus! {

/// Why a formula could not be evaluated.
#[derive(Debug, Clone, PartialEq)]
pub enum FormulaError {
    SyntaxError(String),
    UnknownVariable(String),
    UnknownFunction(String),
    InvalidArguments { func: String, expected: usize, got: usize },
    DivisionByZero,
    EmptyExpression,
}

/// What `char::is_alphabetic` returns: whether the character has the
/// Unicode `Alphabetic` property.
pub uninterp spec fn char_alphabetic(c: char) -> bool;

/// `char::is_alphabetic` depends on the character alone; its answer is the
/// Unicode property table, which is left as a name beyond ASCII. Within
/// ASCII the `Alphabetic` characters are exactly the letters.
pub assume_specification[ char::is_alphabetic ](c: char) -> (r: bool)
    ensures
        r == char_alphabetic(c),
        is_ascii_char(c) ==> (r <==> is_ascii_letter(c)),
;

/// Whether a character starts a name: an ASCII letter, or beyond ASCII
/// whatever `char::is_alphabetic` accepts.
pub open spec fn name_start(c: char) -> bool {
    if is_ascii_char(c) {
        is_ascii_letter(c)
    } else {
        char_alphabetic(c)
    }
}

/// Whether a character continues a name: an ASCII letter or digit, or
/// beyond ASCII whatever `char::is_alphanumeric` accepts.
pub open spec fn name_char(c: char) -> bool {
    if is_ascii_char(c) {
        is_ascii_letter(c) || is_digit(c)
    } else {
        char_alphanumeric(c)
    }
}

/// Operator and punctuation tokens.
#[derive(Debug, Clone, Copy, PartialEq, Eq, Structural)]
pub enum Symbol {
    Plus,
    Minus,
    Star,
    Slash,
    Percent,
    Power,
    Eq,
    Ne,
    Lt,
    Le,
    Gt,
    Ge,
    And,
    Or,
    Not,
    Question,
    Colon,
    LParen,
    RParen,
    Comma,
    Eof,
}

/// One token of a formula. A number keeps its digits as written.
#[derive(Debug, Clone)]
pub enum Token {
    Number(String),
    Ident(String),
    Var(String),
    Sym(Symbol),
}

/// The mathematical value of a token.
pub enum Lexeme {
    Number(Seq<char>),
    Ident(Seq<char>),
    Var(Seq<char>),
    Sym(Symbol),
}

impl View for Token {
    type V = Lexeme;

    open spec fn view(&self) -> Lexeme {
        match self {
            Token::Number(s) => Lexeme::Number(s@),
            Token::Ident(s) => Lexeme::Ident(s@),
            Token::Var(s) => Lexeme::Var(s@),
            Token::Sym(y) => Lexeme::Sym(*y),
        }
    }
}

/// The views of a token sequence.
pub open spec fn lexemes(v: Seq<Token>) -> Seq<Lexeme> {
    v.map_values(|t: Token| t@)
}

/// Why the text of a formula could not be split into tokens.
pub enum LexFault {
    /// A `#` with no closing `#`.
    Unclosed,
    /// A character that starts no token.
    Unexpected(char),
}

/// End of the number whose digits continue at `j`: digits, and one dot
/// unless one was seen already.
pub open spec fn number_end(s: Seq<char>, j: int, seen_dot: bool) -> int
    decreases s.len() - j,
{
    if 0 <= j < s.len() && (is_digit(s[j]) || (s[j] == '.' && !seen_dot)) {
        number_end(s, j + 1, seen_dot || s[j] == '.')
    } else {
        j
    }
}

/// End of the identifier whose letters continue at `j`.
pub open spec fn ident_end(s: Seq<char>, j: int) -> int
    decreases s.len() - j,
{
    if 0 <= j < s.len() && (name_char(s[j]) || s[j] == '_') {
        ident_end(s, j + 1)
    } else {
        j
    }
}

/// First `#` at or after `j`, or the length if there is none.
pub open spec fn hash_end(s: Seq<char>, j: int) -> int
    decreases s.len() - j,
{
    if 0 <= j < s.len() && s[j] != '#' {
        hash_end(s, j + 1)
    } else {
        j
    }
}

/// Whether the character after `i` is `c`.
pub open spec fn next_is(s: Seq<char>, i: int, c: char) -> bool {
    i + 1 < s.len() && s[i + 1] == c
}

/// The operator or punctuation at `i`, with its width in characters.
pub open spec fn symbol_at(s: Seq<char>, i: int) -> Option<(Symbol, int)> {
    let c = s[i];
    if c == '+' {
        Some((Symbol::Plus, 1))
    } else if c == '-' {
        Some((Symbol::Minus, 1))
    } else if c == '*' {
        if next_is(s, i, '*') {
            Some((Symbol::Power, 2))
        } else {
            Some((Symbol::Star, 1))
        }
    } else if c == '/' {
        Some((Symbol::Slash, 1))
    } else if c == '%' {
        Some((Symbol::Percent, 1))
    } else if c == '^' {
        Some((Symbol::Power, 1))
    } else if c == '(' {
        Some((Symbol::LParen, 1))
    } else if c == ')' {
        Some((Symbol::RParen, 1))
    } else if c == ',' {
        Some((Symbol::Comma, 1))
    } else if c == '?' {
        Some((Symbol::Question, 1))
    } else if c == ':' {
        Some((Symbol::Colon, 1))
    } else if c == '<' {
        if next_is(s, i, '>') {
            Some((Symbol::Ne, 2))
        } else if next_is(s, i, '=') {
            Some((Symbol::Le, 2))
        } else {
            Some((Symbol::Lt, 1))
        }
    } else if c == '>' {
        if next_is(s, i, '=') {
            Some((Symbol::Ge, 2))
        } else {
            Some((Symbol::Gt, 1))
        }
    } else if c == '=' {
        if next_is(s, i, '=') {
            Some((Symbol::Eq, 2))
        } else {
            Some((Symbol::Eq, 1))
        }
    } else if c == '!' {
        if next_is(s, i, '=') {
            Some((Symbol::Ne, 2))
        } else {
            Some((Symbol::Not, 1))
        }
    } else if c == '&' {
        if next_is(s, i, '&') {
            Some((Symbol::And, 2))
        } else {
            Some((Symbol::And, 1))
        }
    } else if c == '|' {
        if next_is(s, i, '|') {
            Some((Symbol::Or, 2))
        } else {
            Some((Symbol::Or, 1))
        }
    } else {
        None
    }
}

/// Puts a token in front of the tokens of the rest of the text.
pub open spec fn prepend(x: Lexeme, r: Result<Seq<Lexeme>, LexFault>) -> Result<
    Seq<Lexeme>,
    LexFault,
> {
    match r {
        Ok(ts) => Ok(seq![x] + ts),
        Err(e) => Err(e),
    }
}

/// Puts several tokens in front of the tokens of the rest of the text.
pub open spec fn prepend_all(p: Seq<Lexeme>, r: Result<Seq<Lexeme>, LexFault>) -> Result<
    Seq<Lexeme>,
    LexFault,
> {
    match r {
        Ok(ts) => Ok(p + ts),
        Err(e) => Err(e),
    }
}

/// The tokens of `s` from `i` on, ending in `Eof`, or the first fault.
pub open spec fn lex(s: Seq<char>, i: int) -> Result<Seq<Lexeme>, LexFault>
    decreases s.len() - i,
{
    if i < 0 || i >= s.len() {
        Ok(seq![Lexeme::Sym(Symbol::Eof)])
    } else if is_ws(s[i]) {
        lex(s, i + 1)
    } else if is_digit(s[i]) || (s[i] == '.' && i + 1 < s.len() && is_digit(s[i + 1])) {
        let j = number_end(s, i + 1, s[i] == '.');
        if i < j <= s.len() {
            prepend(Lexeme::Number(s.subrange(i, j)), lex(s, j))
        } else {
            Err(LexFault::Unclosed)
        }
    } else if s[i] == '#' {
        let e = hash_end(s, i + 1);
        if e >= s.len() || e <= i {
            Err(LexFault::Unclosed)
        } else {
            prepend(Lexeme::Var(s.subrange(i + 1, e)), lex(s, e + 1))
        }
    } else if name_start(s[i]) || s[i] == '_' {
        let j = ident_end(s, i + 1);
        if i < j <= s.len() {
            prepend(Lexeme::Ident(s.subrange(i, j)), lex(s, j))
        } else {
            Err(LexFault::Unclosed)
        }
    } else {
        match symbol_at(s, i) {
            Some((y, w)) => if 0 < w && i + w <= s.len() {
                prepend(Lexeme::Sym(y), lex(s, i + w))
            } else {
                Err(LexFault::Unclosed)
            },
            None => Err(LexFault::Unexpected(s[i])),
        }
    }
}

proof fn lemma_number_end(s: Seq<char>, j: int, seen_dot: bool)
    requires
        0 <= j <= s.len(),
    ensures
        j <= number_end(s, j, seen_dot) <= s.len(),
    decreases s.len() - j,
{
    if j < s.len() && (is_digit(s[j]) || (s[j] == '.' && !seen_dot)) {
        lemma_number_end(s, j + 1, seen_dot || s[j] == '.');
    }
}

proof fn lemma_ident_end(s: Seq<char>, j: int)
    requires
        0 <= j <= s.len(),
    ensures
        j <= ident_end(s, j) <= s.len(),
    decreases s.len() - j,
{
    if j < s.len() && (name_char(s[j]) || s[j] == '_') {
        lemma_ident_end(s, j + 1);
    }
}

proof fn lemma_hash_end(s: Seq<char>, j: int)
    requires
        0 <= j <= s.len(),
    ensures
        j <= hash_end(s, j) <= s.len(),
        hash_end(s, j) < s.len() ==> s[hash_end(s, j)] == '#',
    decreases s.len() - j,
{
    if j < s.len() && s[j] != '#' {
        lemma_hash_end(s, j + 1);
    }
}

/// The message of a lexical fault.
pub open spec fn lex_message(f: LexFault) -> Seq<char> {
    match f {
        LexFault::Unclosed => "Unclosed variable macro '#' in formula"@,
        LexFault::Unexpected(c) => "Unexpected character: '"@ + seq![c] + "'"@,
    }
}

fn is_ascii_digit(c: char) -> (r: bool)
    ensures
        r == is_digit(c),
{
    '0' <= c && c <= '9'
}

fn next_char_is(chars: &Vec<char>, i: usize, d: char) -> (r: bool)
    ensures
        r == next_is(chars@, i as int, d),
{
    i < chars.len() && chars.len() - i > 1 && chars[i + 1] == d
}

proof fn lemma_prepend_step(p: Seq<Lexeme>, x: Lexeme, r: Result<Seq<Lexeme>, LexFault>)
    ensures
        prepend_all(p, prepend(x, r)) == prepend_all(p.push(x), r),
{
    match r {
        Ok(ts) => {
            assert(p + (seq![x] + ts) =~= p.push(x) + ts);
        },
        Err(_) => {},
    }
}

proof fn lemma_lexemes_push(v: Seq<Token>, t: Token)
    ensures
        lexemes(v.push(t)) == lexemes(v).push(t@),
{
    assert(lexemes(v.push(t)) =~= lexemes(v).push(t@));
}

/// The fault message `SyntaxError` carries for a character that starts no
/// token.
fn unexpected_char_message(c: char) -> (r: String)
    ensures
        r@ == lex_message(LexFault::Unexpected(c)),
{
    let mut m = "Unexpected character: '".to_string();
    m.push(c);
    m.push('\'');
    proof {
        reveal_strlit("Unexpected character: '");
        reveal_strlit("'");
        assert(m@ =~= lex_message(LexFault::Unexpected(c)));
    }
    m
}

/// The operator or punctuation starting at `i`, if any, with its width.
fn symbol_exec(chars: &Vec<char>, i: usize) -> (r: Option<(Symbol, usize)>)
    requires
        i < chars@.len(),
    ensures
        match symbol_at(chars@, i as int) {
            Some((y, w)) => r == Some((y, w as usize)) && 1 <= w <= 2,
            None => r is None,
        },
{
    let c = chars[i];
    if c == '+' {
        Some((Symbol::Plus, 1))
    } else if c == '-' {
        Some((Symbol::Minus, 1))
    } else if c == '*' {
        if next_char_is(chars, i, '*') {
            Some((Symbol::Power, 2))
        } else {
            Some((Symbol::Star, 1))
        }
    } else if c == '/' {
        Some((Symbol::Slash, 1))
    } else if c == '%' {
        Some((Symbol::Percent, 1))
    } else if c == '^' {
        Some((Symbol::Power, 1))
    } else if c == '(' {
        Some((Symbol::LParen, 1))
    } else if c == ')' {
        Some((Symbol::RParen, 1))
    } else if c == ',' {
        Some((Symbol::Comma, 1))
    } else if c == '?' {
        Some((Symbol::Question, 1))
    } else if c == ':' {
        Some((Symbol::Colon, 1))
    } else if c == '<' {
        if next_char_is(chars, i, '>') {
            Some((Symbol::Ne, 2))
        } else if next_char_is(chars, i, '=') {
            Some((Symbol::Le, 2))
        } else {
            Some((Symbol::Lt, 1))
        }
    } else if c == '>' {
        if next_char_is(chars, i, '=') {
            Some((Symbol::Ge, 2))
        } else {
            Some((Symbol::Gt, 1))
        }
    } else if c == '=' {
        if next_char_is(chars, i, '=') {
            Some((Symbol::Eq, 2))
        } else {
            Some((Symbol::Eq, 1))
        }
    } else if c == '!' {
        if next_char_is(chars, i, '=') {
            Some((Symbol::Ne, 2))
        } else {
            Some((Symbol::Not, 1))
        }
    } else if c == '&' {
        if next_char_is(chars, i, '&') {
            Some((Symbol::And, 2))
        } else {
            Some((Symbol::And, 1))
        }
    } else if c == '|' {
        if next_char_is(chars, i, '|') {
            Some((Symbol::Or, 2))
        } else {
            Some((Symbol::Or, 1))
        }
    } else {
        None
    }
}

/// Splits a formula into tokens, ending in `Eof`.
pub fn tokenize(expr: &str) -> (r: Result<Vec<Token>, FormulaError>)
    ensures
        match lex(expr@, 0) {
            Ok(ts) => r matches Ok(v) && lexemes(v@) == ts,
            Err(f) => r matches Err(FormulaError::SyntaxError(m)) && m@ == lex_message(f),
        },
{
    let chars = to_chars(expr);
    let ghost s = chars@;
    let len = chars.len();
    let mut tokens: Vec<Token> = Vec::new();
    let mut i: usize = 0;
    assert(lexemes(tokens@) =~= Seq::<Lexeme>::empty());
    assert(prepend_all(Seq::<Lexeme>::empty(), lex(s, 0)) == lex(s, 0)) by {
        match lex(s, 0) {
            Ok(ts) => assert(Seq::<Lexeme>::empty() + ts =~= ts),
            Err(_) => {},
        }
    }
    while i < len
        invariant
            s == chars@,
            s == expr@,
            len == s.len(),
            i <= len,
            lex(s, 0) == prepend_all(lexemes(tokens@), lex(s, i as int)),
        decreases len - i,
    {
        let ghost before = lexemes(tokens@);
        let ghost t0 = tokens@;
        let c = chars[i];
        if is_whitespace(c) {
            i = i + 1;
            continue;
        }
        if is_ascii_digit(c) || (c == '.' && i + 1 < len && is_ascii_digit(chars[i + 1])) {
            let start = i;
            let mut seen_dot = c == '.';
            i = i + 1;
            while i < len
                invariant
                    s == chars@,
                    len == s.len(),
                    start < i <= len,
                    number_end(s, i as int, seen_dot) == number_end(
                        s,
                        start + 1,
                        s[start as int] == '.',
                    ),
                ensures
                    start < i <= len,
                    number_end(s, i as int, seen_dot) == i,
                    number_end(s, i as int, seen_dot) == number_end(
                        s,
                        start + 1,
                        s[start as int] == '.',
                    ),
                decreases len - i,
            {
                let ch = chars[i];
                if is_ascii_digit(ch) {
                    i = i + 1;
                } else if ch == '.' && !seen_dot {
                    seen_dot = true;
                    i = i + 1;
                } else {
                    break;
                }
            }
            let text = string_of(&chars, start, i);
            let tok = Token::Number(text);
            proof {
                lemma_number_end(s, start + 1, s[start as int] == '.');
                assert(lex(s, start as int) == prepend(tok@, lex(s, i as int)));
                lemma_prepend_step(before, tok@, lex(s, i as int));
                lemma_lexemes_push(t0, tok);
            }
            tokens.push(tok);
            continue;
        }
        if c == '#' {
            let start = i + 1;
            let mut end = start;
            while end < len && chars[end] != '#'
                invariant
                    s == chars@,
                    len == s.len(),
                    start <= end <= len,
                    hash_end(s, end as int) == hash_end(s, start as int),
                decreases len - end,
            {
                end = end + 1;
            }
            if end >= len {
                return Err(
                    FormulaError::SyntaxError("Unclosed variable macro '#' in formula".to_string()),
                );
            }
            let name = string_of(&chars, start, end);
            let tok = Token::Var(name);
            proof {
                lemma_prepend_step(before, tok@, lex(s, end + 1));
                lemma_lexemes_push(t0, tok);
            }
            tokens.push(tok);
            i = end + 1;
            continue;
        }
        if c.is_alphabetic() || c == '_' {
            let start = i;
            i = i + 1;
            while i < len && (chars[i].is_alphanumeric() || chars[i] == '_')
                invariant
                    s == chars@,
                    len == s.len(),
                    start < i <= len,
                    ident_end(s, i as int) == ident_end(s, start + 1),
                decreases len - i,
            {
                i = i + 1;
            }
            let text = string_of(&chars, start, i);
            let tok = Token::Ident(text);
            proof {
                lemma_ident_end(s, start + 1);
                assert(lex(s, start as int) == prepend(tok@, lex(s, i as int)));
                lemma_prepend_step(before, tok@, lex(s, i as int));
                lemma_lexemes_push(t0, tok);
            }
            tokens.push(tok);
            continue;
        }
        match symbol_exec(&chars, i) {
            Some((y, w)) => {
                let tok = Token::Sym(y);
                proof {
                    lemma_prepend_step(before, tok@, lex(s, i + w));
                    lemma_lexemes_push(t0, tok);
                }
                tokens.push(tok);
                i = i + w;
            },
            None => {
                return Err(FormulaError::SyntaxError(unexpected_char_message(c)));
            },
        }
    }
    let tok = Token::Sym(Symbol::Eof);
    proof {
        lemma_lexemes_push(tokens@, tok);
        assert(lexemes(tokens@) + seq![tok@] =~= lexemes(tokens@).push(tok@));
    }
    tokens.push(tok);
    Ok(tokens)
}

/// Binary operators of the formula language.
#[derive(Debug, Clone, Copy, PartialEq, Eq, Structural)]
pub enum BinOp {
    Add,
    Sub,
    Mul,
    Div,
    Mod,
    Pow,
    Eq,
    Ne,
    Lt,
    Le,
    Gt,
    Ge,
    And,
    Or,
}

/// One operation of a compiled formula, run on a stack of numbers.
#[derive(Debug, Clone)]
pub enum Step {
    /// Push the number written with these digits.
    Num(String),
    /// Push the value of a variable, or fail with `UnknownVariable`.
    Lookup(String),
    /// Pop this many arguments and push the function's value.
    Call(String, usize),
    /// Negate the top value.
    Neg,
    /// Replace the top value by 1 if it is 0, else by 0.
    Not,
    /// Pop the right, then the left operand, and push the result.
    Apply(BinOp),
    /// Pop the value if false, the value if true and the condition, and
    /// push the chosen value.
    Select,
}

/// The mathematical value of a step.
pub enum StepView {
    Num(Seq<char>),
    Lookup(Seq<char>),
    Call(Seq<char>, nat),
    Neg,
    Not,
    Apply(BinOp),
    Select,
}

impl View for Step {
    type V = StepView;

    open spec fn view(&self) -> StepView {
        match self {
            Step::Num(s) => StepView::Num(s@),
            Step::Lookup(s) => StepView::Lookup(s@),
            Step::Call(s, n) => StepView::Call(s@, *n as nat),
            Step::Neg => StepView::Neg,
            Step::Not => StepView::Not,
            Step::Apply(o) => StepView::Apply(*o),
            Step::Select => StepView::Select,
        }
    }
}

/// The views of a step sequence.
pub open spec fn steps_of(v: Seq<Step>) -> Seq<StepView> {
    v.map_values(|s: Step| s@)
}

/// Why the tokens of a formula do not form an expression.
#[derive(Debug, Clone)]
pub enum ParseFault {
    /// The expression ended where an operand was due.
    Empty,
    /// A token that cannot start an operand.
    Unexpected(Token),
    /// The symbol that was due, and the token found in its place.
    Expected(Symbol, Token),
    /// A token left over after a whole expression.
    Trailing(Token),
}

/// The mathematical value of a parse fault.
pub enum FaultView {
    Empty,
    Unexpected(Lexeme),
    Expected(Symbol, Lexeme),
    Trailing(Lexeme),
}

impl View for ParseFault {
    type V = FaultView;

    open spec fn view(&self) -> FaultView {
        match self {
            ParseFault::Empty => FaultView::Empty,
            ParseFault::Unexpected(t) => FaultView::Unexpected(t@),
            ParseFault::Expected(y, t) => FaultView::Expected(*y, t@),
            ParseFault::Trailing(t) => FaultView::Trailing(t@),
        }
    }
}

/// The view of an optional fault.
pub open spec fn fault_of(f: Option<ParseFault>) -> Option<FaultView> {
    match f {
        Some(x) => Some(x@),
        None => None,
    }
}

/// The token at `p`; `Eof` past either end.
pub open spec fn tok_at(t: Seq<Lexeme>, p: int) -> Lexeme {
    if 0 <= p < t.len() {
        t[p]
    } else {
        Lexeme::Sym(Symbol::Eof)
    }
}

/// The operator a binary or ternary infix token stands for.
pub enum Infix {
    Bin(BinOp),
    Ternary,
}

/// Binding powers (left, right) and operator of an infix token.
pub open spec fn infix_of(x: Lexeme) -> Option<(int, int, Infix)> {
    match x {
        Lexeme::Sym(y) => match y {
            Symbol::Question => Some((1, 1, Infix::Ternary)),
            Symbol::Or => Some((2, 3, Infix::Bin(BinOp::Or))),
            Symbol::And => Some((3, 4, Infix::Bin(BinOp::And))),
            Symbol::Eq => Some((4, 5, Infix::Bin(BinOp::Eq))),
            Symbol::Ne => Some((4, 5, Infix::Bin(BinOp::Ne))),
            Symbol::Lt => Some((4, 5, Infix::Bin(BinOp::Lt))),
            Symbol::Le => Some((4, 5, Infix::Bin(BinOp::Le))),
            Symbol::Gt => Some((4, 5, Infix::Bin(BinOp::Gt))),
            Symbol::Ge => Some((4, 5, Infix::Bin(BinOp::Ge))),
            Symbol::Plus => Some((5, 6, Infix::Bin(BinOp::Add))),
            Symbol::Minus => Some((5, 6, Infix::Bin(BinOp::Sub))),
            Symbol::Star => Some((6, 7, Infix::Bin(BinOp::Mul))),
            Symbol::Slash => Some((6, 7, Infix::Bin(BinOp::Div))),
            Symbol::Percent => Some((6, 7, Infix::Bin(BinOp::Mod))),
            Symbol::Power => Some((8, 7, Infix::Bin(BinOp::Pow))),
            _ => None,
        },
        _ => None,
    }
}

/// What reading an expression gives: the steps in evaluation order, the
/// position after it, and the fault that stopped it, if any.
pub struct Parsed {
    pub steps: Seq<StepView>,
    pub pos: int,
    pub fault: Option<FaultView>,
}

/// `r` with `pre` run before its steps.
pub open spec fn after(pre: Seq<StepView>, r: Parsed) -> Parsed {
    Parsed { steps: pre + r.steps, pos: r.pos, fault: r.fault }
}

/// A fault at `p`, after the steps `pre`.
pub open spec fn fail(pre: Seq<StepView>, p: int, f: FaultView) -> Parsed {
    Parsed { steps: pre, pos: p, fault: Some(f) }
}

/// The step a prefix operator adds after its operand.
pub open spec fn prefix_steps(y: Symbol) -> Seq<StepView> {
    if y == Symbol::Minus {
        seq![StepView::Neg]
    } else if y == Symbol::Not {
        seq![StepView::Not]
    } else {
        seq![]
    }
}

/// Reads an expression at `p` whose operators bind at least as tightly as
/// `bp` (a Pratt parser).
pub open spec fn parse_expr(t: Seq<Lexeme>, p: int, bp: int) -> Parsed
    decreases t.len() - p, 0int,
{
    if p < 0 || p >= t.len() {
        fail(seq![], p, FaultView::Empty)
    } else {
        match t[p] {
            Lexeme::Number(n) => after(seq![StepView::Num(n)], infix(t, p + 1, bp)),
            Lexeme::Var(n) => after(seq![StepView::Lookup(n)], infix(t, p + 1, bp)),
            Lexeme::Ident(n) => if tok_at(t, p + 1) == Lexeme::Sym(Symbol::LParen) {
                if tok_at(t, p + 2) == Lexeme::Sym(Symbol::RParen) {
                    after(seq![StepView::Call(n, 0)], infix(t, p + 3, bp))
                } else {
                    args(t, p + 2, bp, n, 0)
                }
            } else {
                after(seq![StepView::Lookup(n)], infix(t, p + 1, bp))
            },
            Lexeme::Sym(y) => if y == Symbol::Plus || y == Symbol::Minus || y == Symbol::Not {
                let a = parse_expr(t, p + 1, 8);
                if a.fault is Some || !(p < a.pos <= t.len()) {
                    a
                } else {
                    after(a.steps + prefix_steps(y), infix(t, a.pos, bp))
                }
            } else if y == Symbol::LParen {
                let a = parse_expr(t, p + 1, 0);
                if a.fault is Some || !(p < a.pos <= t.len()) {
                    a
                } else if tok_at(t, a.pos) == Lexeme::Sym(Symbol::RParen) {
                    after(a.steps, infix(t, a.pos + 1, bp))
                } else {
                    fail(a.steps, a.pos, FaultView::Expected(Symbol::RParen, tok_at(t, a.pos)))
                }
            } else if y == Symbol::Eof {
                fail(seq![], p + 1, FaultView::Empty)
            } else {
                fail(seq![], p + 1, FaultView::Unexpected(t[p]))
            },
        }
    }
}

/// Reads the arguments of a call to `name` from `p`, `n` of them read
/// already, then the operators that follow the call.
pub open spec fn args(t: Seq<Lexeme>, p: int, bp: int, name: Seq<char>, n: nat) -> Parsed
    decreases t.len() - p, 1int,
{
    if p < 0 || p > t.len() {
        fail(seq![], p, FaultView::Empty)
    } else {
        let a = parse_expr(t, p, 0);
        if a.fault is Some || !(p < a.pos <= t.len()) {
            a
        } else if tok_at(t, a.pos) == Lexeme::Sym(Symbol::Comma) {
            after(a.steps, args(t, a.pos + 1, bp, name, n + 1))
        } else if tok_at(t, a.pos) == Lexeme::Sym(Symbol::RParen) {
            after(a.steps + seq![StepView::Call(name, n + 1)], infix(t, a.pos + 1, bp))
        } else {
            fail(a.steps, a.pos, FaultView::Expected(Symbol::RParen, tok_at(t, a.pos)))
        }
    }
}

/// Reads the infix operators at `p` that bind at least as tightly as `bp`,
/// each with its right operand; the left operand is already read.
pub open spec fn infix(t: Seq<Lexeme>, p: int, bp: int) -> Parsed
    decreases t.len() - p, 0int,
{
    if p < 0 || p >= t.len() {
        Parsed { steps: seq![], pos: p, fault: None }
    } else {
        match infix_of(t[p]) {
            None => Parsed { steps: seq![], pos: p, fault: None },
            Some((l, r, op)) => if l < bp {
                Parsed { steps: seq![], pos: p, fault: None }
            } else {
                match op {
                    Infix::Bin(o) => {
                        let b = parse_expr(t, p + 1, r);
                        if b.fault is Some || !(p < b.pos <= t.len()) {
                            b
                        } else {
                            after(b.steps + seq![StepView::Apply(o)], infix(t, b.pos, bp))
                        }
                    },
                    Infix::Ternary => {
                        let a = parse_expr(t, p + 1, 0);
                        if a.fault is Some || !(p < a.pos <= t.len()) {
                            a
                        } else if tok_at(t, a.pos) != Lexeme::Sym(Symbol::Colon) {
                            fail(
                                a.steps,
                                a.pos,
                                FaultView::Expected(Symbol::Colon, tok_at(t, a.pos)),
                            )
                        } else {
                            let b = parse_expr(t, a.pos + 1, 1);
                            if b.fault is Some || !(p < b.pos <= t.len()) {
                                after(a.steps, b)
                            } else {
                                after(
                                    a.steps + b.steps + seq![StepView::Select],
                                    infix(t, b.pos, bp),
                                )
                            }
                        }
                    },
                }
            },
        }
    }
}

/// The program of a whole token sequence: its steps, and the fault that
/// ends it, a left-over token included.
pub open spec fn compile(t: Seq<Lexeme>) -> (Seq<StepView>, Option<FaultView>) {
    let r = parse_expr(t, 0, 0);
    if r.fault is Some {
        (r.steps, r.fault)
    } else if tok_at(t, r.pos) != Lexeme::Sym(Symbol::Eof) {
        (r.steps, Some(FaultView::Trailing(tok_at(t, r.pos))))
    } else {
        (r.steps, None)
    }
}

proof fn lemma_steps_push(v: Seq<Step>, x: Step)
    ensures
        steps_of(v.push(x)) == steps_of(v).push(x@),
{
    assert(steps_of(v.push(x)) =~= steps_of(v).push(x@));
}

/// A copy of a token.
fn copy_token(x: &Token) -> (r: Token)
    ensures
        r@ == x@,
{
    match x {
        Token::Number(s) => Token::Number(s.clone()),
        Token::Ident(s) => Token::Ident(s.clone()),
        Token::Var(s) => Token::Var(s.clone()),
        Token::Sym(y) => Token::Sym(*y),
    }
}

/// A copy of the token at `p`; `Eof` past the end.
fn token_at(t: &Vec<Token>, p: usize) -> (r: Token)
    ensures
        r@ == tok_at(lexemes(t@), p as int),
{
    if p < t.len() {
        copy_token(&t[p])
    } else {
        Token::Sym(Symbol::Eof)
    }
}

/// Whether the token at `p` is the symbol `y` (`Eof` past the end).
fn sym_is(t: &Vec<Token>, p: usize, y: Symbol) -> (r: bool)
    ensures
        r == (tok_at(lexemes(t@), p as int) == Lexeme::Sym(y)),
{
    if p < t.len() {
        match &t[p] {
            Token::Sym(z) => *z == y,
            _ => false,
        }
    } else {
        y == Symbol::Eof
    }
}

/// The binding powers and operator of the token at `p`, if it is infix.
fn infix_at(t: &Vec<Token>, p: usize) -> (r: Option<(u8, u8, Option<BinOp>)>)
    requires
        p < t@.len(),
    ensures
        match infix_of(lexemes(t@)[p as int]) {
            None => r is None,
            Some((l, rb, op)) => r matches Some((l2, r2, o2)) && l2 == l && r2 == rb && match op {
                Infix::Bin(o) => o2 == Some(o),
                Infix::Ternary => o2 is None,
            },
        },
{
    match &t[p] {
        Token::Sym(y) => match y {
            Symbol::Question => Some((1, 1, None)),
            Symbol::Or => Some((2, 3, Some(BinOp::Or))),
            Symbol::And => Some((3, 4, Some(BinOp::And))),
            Symbol::Eq => Some((4, 5, Some(BinOp::Eq))),
            Symbol::Ne => Some((4, 5, Some(BinOp::Ne))),
            Symbol::Lt => Some((4, 5, Some(BinOp::Lt))),
            Symbol::Le => Some((4, 5, Some(BinOp::Le))),
            Symbol::Gt => Some((4, 5, Some(BinOp::Gt))),
            Symbol::Ge => Some((4, 5, Some(BinOp::Ge))),
            Symbol::Plus => Some((5, 6, Some(BinOp::Add))),
            Symbol::Minus => Some((5, 6, Some(BinOp::Sub))),
            Symbol::Star => Some((6, 7, Some(BinOp::Mul))),
            Symbol::Slash => Some((6, 7, Some(BinOp::Div))),
            Symbol::Percent => Some((6, 7, Some(BinOp::Mod))),
            Symbol::Power => Some((8, 7, Some(BinOp::Pow))),
            _ => None,
        },
        _ => None,
    }
}

/// Appends one step to the program.
fn emit(out: &mut Vec<Step>, x: Step)
    ensures
        steps_of(final(out)@) == steps_of(old(out)@) + seq![x@],
{
    proof {
        lemma_steps_push(old(out)@, x);
        assert(steps_of(old(out)@).push(x@) =~= steps_of(old(out)@) + seq![x@]);
    }
    out.push(x);
}

/// Reads an expression at `p`, appending its steps to `out`; returns the
/// position after it and the fault that stopped it, if any.
fn parse_expr_exec(t: &Vec<Token>, p: usize, bp: u8, out: &mut Vec<Step>) -> (r: (
    usize,
    Option<ParseFault>,
))
    requires
        p <= t@.len(),
    ensures
        ({
            let e = parse_expr(lexemes(t@), p as int, bp as int);
            &&& steps_of(final(out)@) == steps_of(old(out)@) + e.steps
            &&& r.0 == e.pos
            &&& fault_of(r.1) == e.fault
            &&& e.fault is None ==> p < r.0 <= t@.len()
        }),
    decreases t@.len() - p, 1int,
{
    let ghost ts = lexemes(t@);
    let ghost o0 = steps_of(out@);
    if p >= t.len() {
        proof {
            assert(o0 + seq![] =~= o0);
        }
        return (p, Some(ParseFault::Empty));
    }
    assert(ts[p as int] == t@[p as int]@);
    match &t[p] {
        Token::Number(n) => {
            emit(out, Step::Num(n.clone()));
            let r = infix_exec(t, p + 1, bp, out);
            proof {
                let i = infix(ts, p + 1, bp as int);
                assert(o0 + seq![StepView::Num(n@)] + i.steps =~= o0 + (seq![StepView::Num(n@)] + i.steps));
            }
            r
        },
        Token::Var(n) => {
            emit(out, Step::Lookup(n.clone()));
            let r = infix_exec(t, p + 1, bp, out);
            proof {
                let i = infix(ts, p + 1, bp as int);
                assert(o0 + seq![StepView::Lookup(n@)] + i.steps =~= o0 + (seq![StepView::Lookup(n@)] + i.steps));
            }
            r
        },
        Token::Ident(n) => {
            if sym_is(t, p + 1, Symbol::LParen) {
                if sym_is(t, p + 2, Symbol::RParen) {
                    emit(out, Step::Call(n.clone(), 0));
                    let r = infix_exec(t, p + 3, bp, out);
                    proof {
                        let i = infix(ts, p + 3, bp as int);
                        assert(o0 + seq![StepView::Call(n@, 0)] + i.steps =~= o0 + (seq![StepView::Call(n@, 0)] + i.steps));
                    }
                    r
                } else {
                    args_exec(t, p + 2, bp, n, 0, out)
                }
            } else {
                emit(out, Step::Lookup(n.clone()));
                let r = infix_exec(t, p + 1, bp, out);
                proof {
                    let i = infix(ts, p + 1, bp as int);
                    assert(o0 + seq![StepView::Lookup(n@)] + i.steps =~= o0 + (seq![StepView::Lookup(n@)] + i.steps));
                }
                r
            }
        },
        Token::Sym(y) => sym_operand_exec(t, p, *y, bp, out),
    }
}

/// Reads an expression at `p` that starts with the symbol `y`.
fn sym_operand_exec(t: &Vec<Token>, p: usize, y: Symbol, bp: u8, out: &mut Vec<Step>) -> (r: (
    usize,
    Option<ParseFault>,
))
    requires
        p < t@.len(),
        t@[p as int]@ == Lexeme::Sym(y),
    ensures
        ({
            let e = parse_expr(lexemes(t@), p as int, bp as int);
            &&& steps_of(final(out)@) == steps_of(old(out)@) + e.steps
            &&& r.0 == e.pos
            &&& fault_of(r.1) == e.fault
            &&& e.fault is None ==> p < r.0 <= t@.len()
        }),
    decreases t@.len() - p, 0int,
{
    let ghost ts = lexemes(t@);
    let ghost o0 = steps_of(out@);
    let len = t.len();
    assert(ts.len() == len);
    assert(ts[p as int] == t@[p as int]@);
    if y == Symbol::Plus || y == Symbol::Minus || y == Symbol::Not {
        let a = parse_expr_exec(t, p + 1, 8, out);
        if a.1.is_some() {
            return a;
        }
        let ghost o1 = steps_of(out@);
        if y == Symbol::Minus {
            emit(out, Step::Neg);
        } else if y == Symbol::Not {
            emit(out, Step::Not);
        } else {
            assert(o1 + prefix_steps(y) =~= o1);
        }
        let r = infix_exec(t, a.0, bp, out);
        proof {
            let ea = parse_expr(ts, p + 1, 8);
            let i = infix(ts, a.0 as int, bp as int);
            assert(o0 + ea.steps + prefix_steps(y) + i.steps =~= o0 + (ea.steps + prefix_steps(y) + i.steps));
        }
        r
    } else if y == Symbol::LParen {
        let a = parse_expr_exec(t, p + 1, 0, out);
        if a.1.is_some() {
            return a;
        }
        if sym_is(t, a.0, Symbol::RParen) {
            let r = infix_exec(t, a.0 + 1, bp, out);
            proof {
                let ea = parse_expr(ts, p + 1, 0);
                let i = infix(ts, a.0 + 1, bp as int);
                assert(o0 + ea.steps + i.steps =~= o0 + (ea.steps + i.steps));
            }
            r
        } else {
            (a.0, Some(ParseFault::Expected(Symbol::RParen, token_at(t, a.0))))
        }
    } else if y == Symbol::Eof {
        proof {
            assert(o0 + seq![] =~= o0);
        }
        (p + 1, Some(ParseFault::Empty))
    } else {
        proof {
            assert(o0 + seq![] =~= o0);
        }
        (p + 1, Some(ParseFault::Unexpected(Token::Sym(y))))
    }
}

/// Reads the arguments of a call to `name` from `p`, `n` of them read
/// already, then the operators after the call.
fn args_exec(t: &Vec<Token>, p: usize, bp: u8, name: &String, n: usize, out: &mut Vec<Step>) -> (r: (
    usize,
    Option<ParseFault>,
))
    requires
        p <= t@.len(),
        n < p,
    ensures
        ({
            let e = args(lexemes(t@), p as int, bp as int, name@, n as nat);
            &&& steps_of(final(out)@) == steps_of(old(out)@) + e.steps
            &&& r.0 == e.pos
            &&& fault_of(r.1) == e.fault
            &&& e.fault is None ==> p < r.0 <= t@.len()
        }),
    decreases t@.len() - p, 2int,
{
    let ghost ts = lexemes(t@);
    let ghost o0 = steps_of(out@);
    let a = parse_expr_exec(t, p, 0, out);
    if a.1.is_some() {
        return a;
    }
    let ghost ea = parse_expr(ts, p as int, 0);
    let len = t.len();
    assert(ts.len() == len);
    if sym_is(t, a.0, Symbol::Comma) {
        let r = args_exec(t, a.0 + 1, bp, name, n + 1, out);
        proof {
            let rest = args(ts, a.0 + 1, bp as int, name@, (n + 1) as nat);
            assert(o0 + ea.steps + rest.steps =~= o0 + (ea.steps + rest.steps));
        }
        r
    } else if sym_is(t, a.0, Symbol::RParen) {
        emit(out, Step::Call(name.clone(), n + 1));
        let r = infix_exec(t, a.0 + 1, bp, out);
        proof {
            let i = infix(ts, a.0 + 1, bp as int);
            let c = seq![StepView::Call(name@, (n + 1) as nat)];
            assert(o0 + ea.steps + c + i.steps =~= o0 + (ea.steps + c + i.steps));
        }
        r
    } else {
        (a.0, Some(ParseFault::Expected(Symbol::RParen, token_at(t, a.0))))
    }
}

/// Reads the infix operators at `p` that bind at least as tightly as `bp`.
fn infix_exec(t: &Vec<Token>, p: usize, bp: u8, out: &mut Vec<Step>) -> (r: (
    usize,
    Option<ParseFault>,
))
    requires
        p <= t@.len(),
    ensures
        ({
            let e = infix(lexemes(t@), p as int, bp as int);
            &&& steps_of(final(out)@) == steps_of(old(out)@) + e.steps
            &&& r.0 == e.pos
            &&& fault_of(r.1) == e.fault
            &&& e.fault is None ==> p <= r.0 <= t@.len()
        }),
    decreases t@.len() - p, 0int,
{
    let ghost ts = lexemes(t@);
    let ghost o0 = steps_of(out@);
    if p >= t.len() {
        assert(o0 + seq![] =~= o0);
        return (p, None);
    }
    assert(ts[p as int] == t@[p as int]@);
    match infix_at(t, p) {
        None => {
            assert(o0 + seq![] =~= o0);
            (p, None)
        },
        Some((l, rb, op)) => {
            if l < bp {
                assert(o0 + seq![] =~= o0);
                return (p, None);
            }
            match op {
                Some(o) => {
                    let b = parse_expr_exec(t, p + 1, rb, out);
                    if b.1.is_some() {
                        return b;
                    }
                    emit(out, Step::Apply(o));
                    let r = infix_exec(t, b.0, bp, out);
                    proof {
                        let eb = parse_expr(ts, p + 1, rb as int);
                        let i = infix(ts, b.0 as int, bp as int);
                        let c = seq![StepView::Apply(o)];
                        assert(o0 + eb.steps + c + i.steps =~= o0 + (eb.steps + c + i.steps));
                    }
                    r
                },
                None => {
                    let a = parse_expr_exec(t, p + 1, 0, out);
                    if a.1.is_some() {
                        return a;
                    }
                    if !sym_is(t, a.0, Symbol::Colon) {
                        return (a.0, Some(ParseFault::Expected(Symbol::Colon, token_at(t, a.0))));
                    }
                    let ghost o1 = steps_of(out@);
                    let b = parse_expr_exec(t, a.0 + 1, 1, out);
                    let ghost ea = parse_expr(ts, p + 1, 0);
                    let ghost eb = parse_expr(ts, a.0 + 1, 1);
                    if b.1.is_some() {
                        assert(o0 + ea.steps + eb.steps =~= o0 + (ea.steps + eb.steps));
                        return b;
                    }
                    emit(out, Step::Select);
                    let r = infix_exec(t, b.0, bp, out);
                    proof {
                        let i = infix(ts, b.0 as int, bp as int);
                        let c = seq![StepView::Select];
                        assert(o0 + ea.steps + eb.steps + c + i.steps =~= o0 + (ea.steps + eb.steps + c + i.steps));
                    }
                    r
                },
            }
        },
    }
}

/// A compiled formula: the steps to run in order, then the fault that
/// ended the reading, if any.
#[derive(Debug, Clone)]
pub struct FormulaProgram {
    pub steps: Vec<Step>,
    pub fault: Option<ParseFault>,
}

/// Compiles a token sequence (ending in `Eof`) into a program.
pub fn compile_tokens(t: &Vec<Token>) -> (r: FormulaProgram)
    ensures
        (steps_of(r.steps@), fault_of(r.fault)) == compile(lexemes(t@)),
{
    let mut out: Vec<Step> = Vec::new();
    let ghost o0 = steps_of(out@);
    let (pos, fault) = parse_expr_exec(t, 0, 0, &mut out);
    proof {
        assert(o0 =~= Seq::<StepView>::empty());
        assert(steps_of(out@) =~= parse_expr(lexemes(t@), 0, 0).steps);
    }
    if fault.is_some() {
        return FormulaProgram { steps: out, fault };
    }
    if sym_is(t, pos, Symbol::Eof) {
        FormulaProgram { steps: out, fault: None }
    } else {
        FormulaProgram { steps: out, fault: Some(ParseFault::Trailing(token_at(t, pos))) }
    }
}

/// Reads a formula. A formula that is empty once trimmed is an
/// `EmptyExpression`; text that does not split into tokens is a
/// `SyntaxError`; otherwise the tokens are compiled.
pub fn compile_formula(expr: &str) -> (r: Result<FormulaProgram, FormulaError>)
    ensures
        trim(expr@).len() == 0 ==> r matches Err(FormulaError::EmptyExpression),
        trim(expr@).len() > 0 ==> match lex(trim(expr@), 0) {
            Err(f) => r matches Err(FormulaError::SyntaxError(m)) && m@ == lex_message(f),
            Ok(ts) => r matches Ok(prog) && (steps_of(prog.steps@), fault_of(prog.fault))
                == compile(ts),
        },
{
    let trimmed = trim_str(expr);
    if trimmed.unicode_len() == 0 {
        return Err(FormulaError::EmptyExpression);
    }
    match tokenize(trimmed.as_str()) {
        Err(e) => Err(e),
        Ok(tokens) => Ok(compile_tokens(&tokens)),
    }
}

/// The functions a formula may call.
#[derive(Debug, Clone, Copy, PartialEq, Eq, Structural)]
pub enum MathFn {
    Round,
    Trunc,
    Abs,
    Min,
    Max,
    Clamp,
    Sin,
    Cos,
    Tan,
    Asin,
    Acos,
    Atan,
    Atan2,
    Floor,
    Ceil,
    Sqrt,
    Ln,
    Log10,
    Exp,
    Rad,
    Deg,
    Sgn,
    Frac,
}

/// The function a (lower-case) name calls.
pub open spec fn math_fn_named(s: Seq<char>) -> Option<MathFn> {
    if s == "round"@ {
        Some(MathFn::Round)
    } else if s == "trunc"@ {
        Some(MathFn::Trunc)
    } else if s == "abs"@ {
        Some(MathFn::Abs)
    } else if s == "min"@ {
        Some(MathFn::Min)
    } else if s == "max"@ {
        Some(MathFn::Max)
    } else if s == "clamp"@ {
        Some(MathFn::Clamp)
    } else if s == "sin"@ {
        Some(MathFn::Sin)
    } else if s == "cos"@ {
        Some(MathFn::Cos)
    } else if s == "tan"@ {
        Some(MathFn::Tan)
    } else if s == "asin"@ {
        Some(MathFn::Asin)
    } else if s == "acos"@ {
        Some(MathFn::Acos)
    } else if s == "atan"@ {
        Some(MathFn::Atan)
    } else if s == "atan2"@ {
        Some(MathFn::Atan2)
    } else if s == "floor"@ {
        Some(MathFn::Floor)
    } else if s == "ceil"@ {
        Some(MathFn::Ceil)
    } else if s == "sqrt"@ {
        Some(MathFn::Sqrt)
    } else if s == "log"@ || s == "ln"@ {
        Some(MathFn::Ln)
    } else if s == "log10"@ {
        Some(MathFn::Log10)
    } else if s == "exp"@ {
        Some(MathFn::Exp)
    } else if s == "rad"@ {
        Some(MathFn::Rad)
    } else if s == "deg"@ {
        Some(MathFn::Deg)
    } else if s == "sgn"@ || s == "sign"@ {
        Some(MathFn::Sgn)
    } else if s == "frac"@ {
        Some(MathFn::Frac)
    } else {
        None
    }
}

/// The (expected, got) counts of a call with the wrong number of
/// arguments, or `None` when the count is accepted.
pub open spec fn arity_error(f: MathFn, n: nat) -> Option<(nat, nat)> {
    match f {
        MathFn::Round => if n == 0 || n > 2 {
            Some((1, n))
        } else {
            None
        },
        MathFn::Min | MathFn::Max => if n == 0 {
            Some((2, 0))
        } else {
            None
        },
        MathFn::Clamp => if n != 3 {
            Some((3, n))
        } else {
            None
        },
        MathFn::Atan2 => if n != 2 {
            Some((2, n))
        } else {
            None
        },
        _ => if n != 1 {
            Some((1, n))
        } else {
            None
        },
    }
}

fn math_fn_exec(v: &Vec<char>) -> (r: Option<MathFn>)
    ensures
        r == math_fn_named(v@),
{
    if eq_str(&v, "round") {
        Some(MathFn::Round)
    } else if eq_str(&v, "trunc") {
        Some(MathFn::Trunc)
    } else if eq_str(&v, "abs") {
        Some(MathFn::Abs)
    } else if eq_str(&v, "min") {
        Some(MathFn::Min)
    } else if eq_str(&v, "max") {
        Some(MathFn::Max)
    } else if eq_str(&v, "clamp") {
        Some(MathFn::Clamp)
    } else if eq_str(&v, "sin") {
        Some(MathFn::Sin)
    } else if eq_str(&v, "cos") {
        Some(MathFn::Cos)
    } else if eq_str(&v, "tan") {
        Some(MathFn::Tan)
    } else if eq_str(&v, "asin") {
        Some(MathFn::Asin)
    } else if eq_str(&v, "acos") {
        Some(MathFn::Acos)
    } else if eq_str(&v, "atan") {
        Some(MathFn::Atan)
    } else if eq_str(&v, "atan2") {
        Some(MathFn::Atan2)
    } else if eq_str(&v, "floor") {
        Some(MathFn::Floor)
    } else if eq_str(&v, "ceil") {
        Some(MathFn::Ceil)
    } else if eq_str(&v, "sqrt") {
        Some(MathFn::Sqrt)
    } else if eq_str(&v, "log") || eq_str(&v, "ln") {
        Some(MathFn::Ln)
    } else if eq_str(&v, "log10") {
        Some(MathFn::Log10)
    } else if eq_str(&v, "exp") {
        Some(MathFn::Exp)
    } else if eq_str(&v, "rad") {
        Some(MathFn::Rad)
    } else if eq_str(&v, "deg") {
        Some(MathFn::Deg)
    } else if eq_str(&v, "sgn") || eq_str(&v, "sign") {
        Some(MathFn::Sgn)
    } else if eq_str(&v, "frac") {
        Some(MathFn::Frac)
    } else {
        None
    }
}

/// Finds the function a call names (ignoring ASCII case) and checks the
/// number of arguments: `UnknownFunction` for a name that is none of them,
/// `InvalidArguments` with the expected and given counts for a wrong count.
pub fn resolve_function(name: &str, argc: usize) -> (r: Result<MathFn, FormulaError>)
    ensures
        match math_fn_named(lower(name@)) {
            None => r matches Err(FormulaError::UnknownFunction(m)) && m@ == name@,
            Some(f) => match arity_error(f, argc as nat) {
                None => r matches Ok(g) && g == f,
                Some((e, n)) => r matches Err(
                    FormulaError::InvalidArguments { func, expected, got },
                ) && func@ == name@ && expected == e && got == n,
            },
        },
{
    let chars = to_chars(name);
    let v = lower_range(&chars, 0, chars.len());
    proof {
        assert(chars@.subrange(0, chars@.len() as int) =~= chars@);
    }
    match math_fn_exec(&v) {
        None => Err(FormulaError::UnknownFunction(name.to_string())),
        Some(f) => {
            let bad: Option<usize> = match f {
                MathFn::Round => if argc == 0 || argc > 2 {
                    Some(1)
                } else {
                    None
                },
                MathFn::Min | MathFn::Max => if argc == 0 {
                    Some(2)
                } else {
                    None
                },
                MathFn::Clamp => if argc != 3 {
                    Some(3)
                } else {
                    None
                },
                MathFn::Atan2 => if argc != 2 {
                    Some(2)
                } else {
                    None
                },
                _ => if argc != 1 {
                    Some(1)
                } else {
                    None
                },
            };
            match bad {
                None => Ok(f),
                Some(e) => Err(
                    FormulaError::InvalidArguments { func: name.to_string(), expected: e, got: argc },
                ),
            }
        },
    }
}

/// How many values a step takes from the stack; each step then leaves
/// one value in their place.
pub open spec fn pops(x: StepView) -> int {
    match x {
        StepView::Num(_) => 0,
        StepView::Lookup(_) => 0,
        StepView::Call(_, n) => n as int,
        StepView::Neg => 1,
        StepView::Not => 1,
        StepView::Apply(_) => 2,
        StepView::Select => 3,
    }
}

/// The stack depth after running `steps` from depth `d`, or `None` if a
/// step would find too few values.
pub open spec fn stack_after(steps: Seq<StepView>, d: int) -> Option<int>
    decreases steps.len(),
{
    if steps.len() == 0 {
        Some(d)
    } else if d < pops(steps[0]) {
        None
    } else {
        stack_after(steps.drop_first(), d - pops(steps[0]) + 1)
    }
}

proof fn lemma_stack_concat(a: Seq<StepView>, b: Seq<StepView>, d: int)
    ensures
        stack_after(a + b, d) == match stack_after(a, d) {
            Some(x) => stack_after(b, x),
            None => None,
        },
    decreases a.len(),
{
    if a.len() == 0 {
        assert(a + b =~= b);
    } else {
        assert((a + b).drop_first() =~= a.drop_first() + b);
        assert((a + b)[0] == a[0]);
        lemma_stack_concat(a.drop_first(), b, d - pops(a[0]) + 1);
    }
}

proof fn lemma_stack_one(x: StepView, d: int)
    requires
        d >= pops(x),
    ensures
        stack_after(seq![x], d) == Some(d - pops(x) + 1),
{
    let e = Seq::<StepView>::empty();
    assert(seq![x].drop_first() =~= e);
    assert(stack_after(e, d - pops(x) + 1) == Some(d - pops(x) + 1));
}

proof fn lemma_expr_stack(t: Seq<Lexeme>, p: int, bp: int, d: int)
    requires
        0 <= p <= t.len(),
        d >= 0,
    ensures
        parse_expr(t, p, bp).fault is None ==> p < parse_expr(t, p, bp).pos <= t.len()
            && stack_after(parse_expr(t, p, bp).steps, d) == Some(d + 1),
        stack_after(parse_expr(t, p, bp).steps, d) is Some,
    decreases t.len() - p, 1int,
{
    if p < t.len() {
        match t[p] {
            Lexeme::Number(n) => {
                lemma_infix_stack(t, p + 1, bp, d + 1);
                lemma_stack_one(StepView::Num(n), d);
                lemma_stack_concat(seq![StepView::Num(n)], infix(t, p + 1, bp).steps, d);
            },
            Lexeme::Var(n) => {
                lemma_infix_stack(t, p + 1, bp, d + 1);
                lemma_stack_one(StepView::Lookup(n), d);
                lemma_stack_concat(seq![StepView::Lookup(n)], infix(t, p + 1, bp).steps, d);
            },
            Lexeme::Ident(n) => {
                if tok_at(t, p + 1) == Lexeme::Sym(Symbol::LParen) {
                    if tok_at(t, p + 2) == Lexeme::Sym(Symbol::RParen) {
                        lemma_infix_stack(t, p + 3, bp, d + 1);
                        lemma_stack_one(StepView::Call(n, 0), d);
                        lemma_stack_concat(
                            seq![StepView::Call(n, 0)],
                            infix(t, p + 3, bp).steps,
                            d,
                        );
                    } else {
                        lemma_args_stack(t, p + 2, bp, n, 0, d);
                    }
                } else {
                    lemma_infix_stack(t, p + 1, bp, d + 1);
                    lemma_stack_one(StepView::Lookup(n), d);
                    lemma_stack_concat(seq![StepView::Lookup(n)], infix(t, p + 1, bp).steps, d);
                }
            },
            Lexeme::Sym(y) => {
                if y == Symbol::Plus || y == Symbol::Minus || y == Symbol::Not {
                    lemma_expr_stack(t, p + 1, 8, d);
                    let a = parse_expr(t, p + 1, 8);
                    if a.fault is None {
                        lemma_infix_stack(t, a.pos, bp, d + 1);
                        let i = infix(t, a.pos, bp);
                        assert(stack_after(prefix_steps(y), d + 1) == Some(d + 1)) by {
                            if y == Symbol::Minus {
                                lemma_stack_one(StepView::Neg, d + 1);
                            } else if y == Symbol::Not {
                                lemma_stack_one(StepView::Not, d + 1);
                            }
                        }
                        lemma_stack_concat(a.steps, prefix_steps(y), d);
                        lemma_stack_concat(a.steps + prefix_steps(y), i.steps, d);
                    }
                } else if y == Symbol::LParen {
                    lemma_expr_stack(t, p + 1, 0, d);
                    let a = parse_expr(t, p + 1, 0);
                    if a.fault is None && tok_at(t, a.pos) == Lexeme::Sym(Symbol::RParen) {
                        lemma_infix_stack(t, a.pos + 1, bp, d + 1);
                        lemma_stack_concat(a.steps, infix(t, a.pos + 1, bp).steps, d);
                    }
                }
            },
        }
    }
}

proof fn lemma_args_stack(t: Seq<Lexeme>, p: int, bp: int, name: Seq<char>, n: nat, d: int)
    requires
        0 <= p <= t.len(),
        d >= n,
    ensures
        args(t, p, bp, name, n).fault is None ==> p < args(t, p, bp, name, n).pos <= t.len()
            && stack_after(args(t, p, bp, name, n).steps, d) == Some(d - n + 1),
        stack_after(args(t, p, bp, name, n).steps, d) is Some,
    decreases t.len() - p, 2int,
{
    lemma_expr_stack(t, p, 0, d);
    let a = parse_expr(t, p, 0);
    if a.fault is None {
        if tok_at(t, a.pos) == Lexeme::Sym(Symbol::Comma) {
            lemma_args_stack(t, a.pos + 1, bp, name, n + 1, d + 1);
            lemma_stack_concat(a.steps, args(t, a.pos + 1, bp, name, n + 1).steps, d);
        } else if tok_at(t, a.pos) == Lexeme::Sym(Symbol::RParen) {
            let c = seq![StepView::Call(name, n + 1)];
            lemma_infix_stack(t, a.pos + 1, bp, d - n + 1);
            lemma_stack_one(StepView::Call(name, n + 1), d + 1);
            lemma_stack_concat(a.steps, c, d);
            lemma_stack_concat(a.steps + c, infix(t, a.pos + 1, bp).steps, d);
        }
    }
}

proof fn lemma_infix_stack(t: Seq<Lexeme>, p: int, bp: int, d: int)
    requires
        0 <= p <= t.len(),
        d >= 1,
    ensures
        infix(t, p, bp).fault is None ==> p <= infix(t, p, bp).pos <= t.len() && stack_after(
            infix(t, p, bp).steps,
            d,
        ) == Some(d),
        stack_after(infix(t, p, bp).steps, d) is Some,
    decreases t.len() - p, 0int,
{
    if p < t.len() {
        match infix_of(t[p]) {
            None => {},
            Some((l, r, op)) => {
                if l >= bp {
                    match op {
                        Infix::Bin(o) => {
                            lemma_expr_stack(t, p + 1, r, d);
                            let b = parse_expr(t, p + 1, r);
                            if b.fault is None {
                                let c = seq![StepView::Apply(o)];
                                lemma_infix_stack(t, b.pos, bp, d);
                                lemma_stack_one(StepView::Apply(o), d + 1);
                                lemma_stack_concat(b.steps, c, d);
                                lemma_stack_concat(b.steps + c, infix(t, b.pos, bp).steps, d);
                            }
                        },
                        Infix::Ternary => {
                            lemma_expr_stack(t, p + 1, 0, d);
                            let a = parse_expr(t, p + 1, 0);
                            if a.fault is None && tok_at(t, a.pos) == Lexeme::Sym(Symbol::Colon) {
                                lemma_expr_stack(t, a.pos + 1, 1, d + 1);
                                let b = parse_expr(t, a.pos + 1, 1);
                                lemma_stack_concat(a.steps, b.steps, d);
                                if b.fault is None {
                                    let c = seq![StepView::Select];
                                    lemma_infix_stack(t, b.pos, bp, d);
                                    lemma_stack_one(StepView::Select, d + 2);
                                    lemma_stack_concat(a.steps + b.steps, c, d);
                                    lemma_stack_concat(
                                        a.steps + b.steps + c,
                                        infix(t, b.pos, bp).steps,
                                        d,
                                    );
                                }
                            }
                        },
                    }
                }
            },
        }
    }
}

/// Running a compiled program never finds too few values on the stack,
/// and a program read without a fault leaves exactly one value: the
/// formula's result.
pub proof fn law_program_leaves_one_value(t: Seq<Lexeme>)
    ensures
        stack_after(compile(t).0, 0) is Some,
        compile(t).1 is None ==> stack_after(compile(t).0, 0) == Some(1int),
{
    lemma_expr_stack(t, 0, 0, 0);
}

/// The tokens of `a y b` for two numbers `a` and `b`, ending in `Eof`.
pub open spec fn binary_tokens(a: Seq<char>, y: Symbol, b: Seq<char>) -> Seq<Lexeme> {
    seq![Lexeme::Number(a), Lexeme::Sym(y), Lexeme::Number(b), Lexeme::Sym(Symbol::Eof)]
}

/// The tokens of `c ? x : y` for three numbers, ending in `Eof`.
pub open spec fn ternary_tokens(c: Seq<char>, x: Seq<char>, y: Seq<char>) -> Seq<Lexeme> {
    seq![
        Lexeme::Number(c),
        Lexeme::Sym(Symbol::Question),
        Lexeme::Number(x),
        Lexeme::Sym(Symbol::Colon),
        Lexeme::Number(y),
        Lexeme::Sym(Symbol::Eof),
    ]
}

/// The tokens of `(a y b) ? x : z`, ending in `Eof`.
pub open spec fn test_tokens(a: Seq<char>, y: Symbol, b: Seq<char>, x: Seq<char>, z: Seq<char>) -> Seq<Lexeme> {
    seq![
        Lexeme::Sym(Symbol::LParen),
        Lexeme::Number(a),
        Lexeme::Sym(y),
        Lexeme::Number(b),
        Lexeme::Sym(Symbol::RParen),
        Lexeme::Sym(Symbol::Question),
        Lexeme::Number(x),
        Lexeme::Sym(Symbol::Colon),
        Lexeme::Number(z),
        Lexeme::Sym(Symbol::Eof),
    ]
}

/// A number at `p` followed by a token that is no infix operator reads as
/// that number alone.
proof fn lemma_lone_number(t: Seq<Lexeme>, p: int, bp: int)
    requires
        0 <= p,
        p + 1 < t.len(),
        t[p] is Number,
        infix_of(t[p + 1]) is None,
    ensures
        parse_expr(t, p, bp) == (Parsed { steps: seq![StepView::Num(t[p]->Number_0)], pos: p + 1, fault: None }),
{
    assert(infix(t, p + 1, bp) == (Parsed { steps: seq![], pos: p + 1, fault: None }));
    assert(seq![StepView::Num(t[p]->Number_0)] + Seq::<StepView>::empty() =~= seq![StepView::Num(t[p]->Number_0)]);
}

proof fn lemma_binary(a: Seq<char>, y: Symbol, b: Seq<char>)
    requires
        infix_of(Lexeme::Sym(y)) matches Some((l, r, Infix::Bin(_))) && l >= 0,
    ensures
        infix_of(Lexeme::Sym(y)) matches Some((_, _, Infix::Bin(o))) && compile(binary_tokens(a, y, b)) == (
            seq![StepView::Num(a), StepView::Num(b), StepView::Apply(o)],
            None::<FaultView>,
        ),
{
    let t = binary_tokens(a, y, b);
    let (l, r, op) = infix_of(Lexeme::Sym(y)).unwrap();
    let o = op->Bin_0;
    lemma_lone_number(t, 2, r);
    assert(infix(t, 3, 0) == (Parsed { steps: seq![], pos: 3, fault: None }));
    let tail = seq![StepView::Num(b), StepView::Apply(o)];
    assert(seq![StepView::Num(b)] + seq![StepView::Apply(o)] =~= tail);
    assert(tail + Seq::<StepView>::empty() =~= tail);
    assert(infix(t, 1, 0) == (Parsed { steps: tail, pos: 3, fault: None }));
    assert(seq![StepView::Num(a)] + tail =~= seq![StepView::Num(a), StepView::Num(b), StepView::Apply(o)]);
    assert(parse_expr(t, 0, 0) == (Parsed {
        steps: seq![StepView::Num(a), StepView::Num(b), StepView::Apply(o)],
        pos: 3,
        fault: None,
    }));
}

/// Law: each operator symbol between two numbers compiles to the operator
/// of the same name, applied after both operands: `a < b` is
/// `[a, b, Lt]`, `a <= b` is `[a, b, Le]`, `a > b` is `[a, b, Gt]`,
/// `a >= b` is `[a, b, Ge]`, and so on for `==`, `!=`, `+`, `-`, `*`, `/`,
/// `%`, `^`, `&&` and `||`.
pub proof fn law_operators_compile_to_their_names(a: Seq<char>, b: Seq<char>)
    ensures
        compile(binary_tokens(a, Symbol::Lt, b)) == (seq![StepView::Num(a), StepView::Num(b), StepView::Apply(BinOp::Lt)], None::<FaultView>),
        compile(binary_tokens(a, Symbol::Le, b)) == (seq![StepView::Num(a), StepView::Num(b), StepView::Apply(BinOp::Le)], None::<FaultView>),
        compile(binary_tokens(a, Symbol::Gt, b)) == (seq![StepView::Num(a), StepView::Num(b), StepView::Apply(BinOp::Gt)], None::<FaultView>),
        compile(binary_tokens(a, Symbol::Ge, b)) == (seq![StepView::Num(a), StepView::Num(b), StepView::Apply(BinOp::Ge)], None::<FaultView>),
        compile(binary_tokens(a, Symbol::Eq, b)) == (seq![StepView::Num(a), StepView::Num(b), StepView::Apply(BinOp::Eq)], None::<FaultView>),
        compile(binary_tokens(a, Symbol::Ne, b)) == (seq![StepView::Num(a), StepView::Num(b), StepView::Apply(BinOp::Ne)], None::<FaultView>),
        compile(binary_tokens(a, Symbol::Plus, b)) == (seq![StepView::Num(a), StepView::Num(b), StepView::Apply(BinOp::Add)], None::<FaultView>),
        compile(binary_tokens(a, Symbol::Minus, b)) == (seq![StepView::Num(a), StepView::Num(b), StepView::Apply(BinOp::Sub)], None::<FaultView>),
        compile(binary_tokens(a, Symbol::Star, b)) == (seq![StepView::Num(a), StepView::Num(b), StepView::Apply(BinOp::Mul)], None::<FaultView>),
        compile(binary_tokens(a, Symbol::Slash, b)) == (seq![StepView::Num(a), StepView::Num(b), StepView::Apply(BinOp::Div)], None::<FaultView>),
        compile(binary_tokens(a, Symbol::Percent, b)) == (seq![StepView::Num(a), StepView::Num(b), StepView::Apply(BinOp::Mod)], None::<FaultView>),
        compile(binary_tokens(a, Symbol::Power, b)) == (seq![StepView::Num(a), StepView::Num(b), StepView::Apply(BinOp::Pow)], None::<FaultView>),
        compile(binary_tokens(a, Symbol::And, b)) == (seq![StepView::Num(a), StepView::Num(b), StepView::Apply(BinOp::And)], None::<FaultView>),
        compile(binary_tokens(a, Symbol::Or, b)) == (seq![StepView::Num(a), StepView::Num(b), StepView::Apply(BinOp::Or)], None::<FaultView>),
{
    lemma_binary(a, Symbol::Lt, b);
    lemma_binary(a, Symbol::Le, b);
    lemma_binary(a, Symbol::Gt, b);
    lemma_binary(a, Symbol::Ge, b);
    lemma_binary(a, Symbol::Eq, b);
    lemma_binary(a, Symbol::Ne, b);
    lemma_binary(a, Symbol::Plus, b);
    lemma_binary(a, Symbol::Minus, b);
    lemma_binary(a, Symbol::Star, b);
    lemma_binary(a, Symbol::Slash, b);
    lemma_binary(a, Symbol::Percent, b);
    lemma_binary(a, Symbol::Power, b);
    lemma_binary(a, Symbol::And, b);
    lemma_binary(a, Symbol::Or, b);
}

/// `a y b` at `p`, before a token that is no infix operator, reads as the
/// two numbers and the operator of `y`.
proof fn lemma_binary_at(t: Seq<Lexeme>, p: int, bp: int)
    requires
        0 <= p,
        p + 3 < t.len(),
        t[p] is Number,
        t[p + 2] is Number,
        infix_of(t[p + 1]) matches Some((l, r, Infix::Bin(_))) && l >= bp,
        infix_of(t[p + 3]) is None,
    ensures
        infix_of(t[p + 1]) matches Some((_, _, Infix::Bin(o))) && parse_expr(t, p, bp) == (Parsed {
            steps: seq![StepView::Num(t[p]->Number_0), StepView::Num(t[p + 2]->Number_0), StepView::Apply(o)],
            pos: p + 3,
            fault: None,
        }),
{
    let (l, r, op) = infix_of(t[p + 1]).unwrap();
    let o = op->Bin_0;
    let a = t[p]->Number_0;
    let b = t[p + 2]->Number_0;
    lemma_lone_number(t, p + 2, r);
    assert(infix(t, p + 3, bp) == (Parsed { steps: seq![], pos: p + 3, fault: None }));
    let tail = seq![StepView::Num(b), StepView::Apply(o)];
    assert(seq![StepView::Num(b)] + seq![StepView::Apply(o)] =~= tail);
    assert(tail + Seq::<StepView>::empty() =~= tail);
    assert(infix(t, p + 1, bp) == (Parsed { steps: tail, pos: p + 3, fault: None }));
    assert(seq![StepView::Num(a)] + tail =~= seq![StepView::Num(a), StepView::Num(b), StepView::Apply(o)]);
}

proof fn lemma_test(a: Seq<char>, y: Symbol, b: Seq<char>, x: Seq<char>, z: Seq<char>)
    requires
        infix_of(Lexeme::Sym(y)) matches Some((l, r, Infix::Bin(_))) && l >= 0,
    ensures
        infix_of(Lexeme::Sym(y)) matches Some((_, _, Infix::Bin(o))) && compile(test_tokens(a, y, b, x, z)) == (
            seq![
                StepView::Num(a),
                StepView::Num(b),
                StepView::Apply(o),
                StepView::Num(x),
                StepView::Num(z),
                StepView::Select,
            ],
            None::<FaultView>,
        ),
{
    let t = test_tokens(a, y, b, x, z);
    let o = infix_of(Lexeme::Sym(y)).unwrap().2->Bin_0;
    lemma_binary_at(t, 1, 0);
    lemma_lone_number(t, 6, 0);
    lemma_lone_number(t, 8, 1);
    assert(infix(t, 9, 0) == (Parsed { steps: seq![], pos: 9, fault: None }));
    let sel = seq![StepView::Num(x)] + seq![StepView::Num(z)] + seq![StepView::Select];
    assert(sel + Seq::<StepView>::empty() =~= sel);
    assert(infix(t, 5, 0) == (Parsed { steps: sel, pos: 9, fault: None }));
    let cond = seq![StepView::Num(a), StepView::Num(b), StepView::Apply(o)];
    assert(cond + sel =~= seq![
        StepView::Num(a),
        StepView::Num(b),
        StepView::Apply(o),
        StepView::Num(x),
        StepView::Num(z),
        StepView::Select,
    ]);
    assert(parse_expr(t, 0, 0).steps == cond + sel);
}

/// Law: a parenthesised comparison chooses between two numbers: `(a < b) ?
/// x : z` compiles to `[a, b, Lt, x, z, Select]` (the comparison first,
/// then both choices, then the choice), and likewise with `<=` (`Le`), `>`
/// (`Gt`), `>=` (`Ge`), `==` (`Eq`) and `!=` (`Ne`).
pub proof fn law_comparison_chooses(a: Seq<char>, b: Seq<char>, x: Seq<char>, z: Seq<char>)
    ensures
        compile(test_tokens(a, Symbol::Lt, b, x, z)) == (seq![StepView::Num(a), StepView::Num(b), StepView::Apply(BinOp::Lt), StepView::Num(x), StepView::Num(z), StepView::Select], None::<FaultView>),
        compile(test_tokens(a, Symbol::Le, b, x, z)) == (seq![StepView::Num(a), StepView::Num(b), StepView::Apply(BinOp::Le), StepView::Num(x), StepView::Num(z), StepView::Select], None::<FaultView>),
        compile(test_tokens(a, Symbol::Gt, b, x, z)) == (seq![StepView::Num(a), StepView::Num(b), StepView::Apply(BinOp::Gt), StepView::Num(x), StepView::Num(z), StepView::Select], None::<FaultView>),
        compile(test_tokens(a, Symbol::Ge, b, x, z)) == (seq![StepView::Num(a), StepView::Num(b), StepView::Apply(BinOp::Ge), StepView::Num(x), StepView::Num(z), StepView::Select], None::<FaultView>),
        compile(test_tokens(a, Symbol::Eq, b, x, z)) == (seq![StepView::Num(a), StepView::Num(b), StepView::Apply(BinOp::Eq), StepView::Num(x), StepView::Num(z), StepView::Select], None::<FaultView>),
        compile(test_tokens(a, Symbol::Ne, b, x, z)) == (seq![StepView::Num(a), StepView::Num(b), StepView::Apply(BinOp::Ne), StepView::Num(x), StepView::Num(z), StepView::Select], None::<FaultView>),
{
    lemma_test(a, Symbol::Lt, b, x, z);
    lemma_test(a, Symbol::Le, b, x, z);
    lemma_test(a, Symbol::Gt, b, x, z);
    lemma_test(a, Symbol::Ge, b, x, z);
    lemma_test(a, Symbol::Eq, b, x, z);
    lemma_test(a, Symbol::Ne, b, x, z);
}

/// The digits of a number run from `j` to `k`, where a character that is
/// neither a digit nor a dot (or the end) stops them.
proof fn lemma_number_run(s: Seq<char>, j: int, k: int, seen_dot: bool)
    requires
        0 <= j <= k <= s.len(),
        forall|q: int| j <= q < k ==> is_digit(#[trigger] s[q]),
        k == s.len() || (!is_digit(s[k]) && s[k] != '.'),
    ensures
        number_end(s, j, seen_dot) == k,
    decreases k - j,
{
    if j < k {
        lemma_number_run(s, j + 1, k, seen_dot);
    }
}

/// Digits up to the end read as one number, then the end.
proof fn lemma_lex_number_tail(s: Seq<char>, i: int)
    requires
        0 <= i < s.len(),
        forall|q: int| i <= q < s.len() ==> is_digit(#[trigger] s[q]),
    ensures
        lex(s, i) == Ok::<Seq<Lexeme>, LexFault>(seq![Lexeme::Number(s.subrange(i, s.len() as int)), Lexeme::Sym(Symbol::Eof)]),
{
    assert(is_digit(s[i]));
    assert(!is_ws(s[i]));
    assert(s[i] != '.');
    lemma_number_run(s, i + 1, s.len() as int, false);
    assert(lex(s, s.len() as int) == Ok::<Seq<Lexeme>, LexFault>(seq![Lexeme::Sym(Symbol::Eof)]));
    assert(seq![Lexeme::Number(s.subrange(i, s.len() as int))] + seq![Lexeme::Sym(Symbol::Eof)] =~= seq![
        Lexeme::Number(s.subrange(i, s.len() as int)),
        Lexeme::Sym(Symbol::Eof),
    ]);
}

/// `d1 op d2` for two digit strings lexes as a number, the symbol of
/// `op`, a number and the end.
proof fn lemma_lex_binary(d1: Seq<char>, op: Seq<char>, d2: Seq<char>, y: Symbol)
    requires
        d1.len() > 0,
        d2.len() > 0,
        crate::text::all_digits(d1),
        crate::text::all_digits(d2),
        1 <= op.len() <= 2,
        forall|q: int| 0 <= q < op.len() ==> !is_digit(#[trigger] op[q]) && op[q] != '.',
        !is_ws(op[0]),
        op[0] != '#',
        op[0] != '_',
        is_ascii_char(op[0]),
        !is_ascii_letter(op[0]),
        symbol_at(d1 + op + d2, d1.len() as int) == Some((y, op.len() as int)),
    ensures
        lex(d1 + op + d2, 0) == Ok::<Seq<Lexeme>, LexFault>(binary_tokens(d1, y, d2)),
{
    let s = d1 + op + d2;
    let n1 = d1.len() as int;
    let n2 = n1 + op.len();
    assert forall|q: int| 0 <= q < n1 implies is_digit(#[trigger] s[q]) by {
        assert(s[q] == d1[q]);
    }
    assert forall|q: int| n2 <= q < s.len() implies is_digit(#[trigger] s[q]) by {
        assert(s[q] == d2[q - n2]);
    }
    assert(s[n1] == op[0]);
    lemma_number_run(s, 1, n1, false);
    assert(s.subrange(0, n1) =~= d1);
    lemma_lex_number_tail(s, n2);
    assert(s.subrange(n2, s.len() as int) =~= d2);
    assert(is_digit(s[0]));
    assert(!is_ws(s[0]));
    assert(s[0] != '.');
    assert(!is_digit(s[n1]));
    assert(!is_ws(s[n1]));
    assert(!name_start(s[n1]));
    assert(s[n1] != '.');
    assert(s[n1] != '#');
    assert(lex(s, n2) == Ok::<Seq<Lexeme>, LexFault>(seq![Lexeme::Number(d2), Lexeme::Sym(Symbol::Eof)]));
    assert(seq![Lexeme::Sym(y)] + seq![Lexeme::Number(d2), Lexeme::Sym(Symbol::Eof)] =~= seq![
        Lexeme::Sym(y),
        Lexeme::Number(d2),
        Lexeme::Sym(Symbol::Eof),
    ]);
    assert(lex(s, n1) == Ok::<Seq<Lexeme>, LexFault>(seq![Lexeme::Sym(y), Lexeme::Number(d2), Lexeme::Sym(Symbol::Eof)]));
    assert(seq![Lexeme::Number(d1)] + seq![Lexeme::Sym(y), Lexeme::Number(d2), Lexeme::Sym(Symbol::Eof)] =~= binary_tokens(d1, y, d2));
}

/// Law: between two numbers each operator text lexes as the symbol it
/// spells: `+`, `-`, `*`, `/`, `%`, `^` and `**` (power), `=` and `==`,
/// `!=` and `<>`, `<`, `<=`, `>`, `>=`, `&` and `&&`, `|` and `||`. With
/// `law_operators_compile_to_their_names` this fixes the program of every
/// `a op b` formula.
pub proof fn law_operator_texts_lex(d1: Seq<char>, d2: Seq<char>)
    requires
        d1.len() > 0,
        d2.len() > 0,
        crate::text::all_digits(d1),
        crate::text::all_digits(d2),
    ensures
        lex(d1 + "+"@ + d2, 0) == Ok::<Seq<Lexeme>, LexFault>(binary_tokens(d1, Symbol::Plus, d2)),
        lex(d1 + "-"@ + d2, 0) == Ok::<Seq<Lexeme>, LexFault>(binary_tokens(d1, Symbol::Minus, d2)),
        lex(d1 + "*"@ + d2, 0) == Ok::<Seq<Lexeme>, LexFault>(binary_tokens(d1, Symbol::Star, d2)),
        lex(d1 + "/"@ + d2, 0) == Ok::<Seq<Lexeme>, LexFault>(binary_tokens(d1, Symbol::Slash, d2)),
        lex(d1 + "%"@ + d2, 0) == Ok::<Seq<Lexeme>, LexFault>(binary_tokens(d1, Symbol::Percent, d2)),
        lex(d1 + "^"@ + d2, 0) == Ok::<Seq<Lexeme>, LexFault>(binary_tokens(d1, Symbol::Power, d2)),
        lex(d1 + "**"@ + d2, 0) == Ok::<Seq<Lexeme>, LexFault>(binary_tokens(d1, Symbol::Power, d2)),
        lex(d1 + "="@ + d2, 0) == Ok::<Seq<Lexeme>, LexFault>(binary_tokens(d1, Symbol::Eq, d2)),
        lex(d1 + "=="@ + d2, 0) == Ok::<Seq<Lexeme>, LexFault>(binary_tokens(d1, Symbol::Eq, d2)),
        lex(d1 + "!="@ + d2, 0) == Ok::<Seq<Lexeme>, LexFault>(binary_tokens(d1, Symbol::Ne, d2)),
        lex(d1 + "<>"@ + d2, 0) == Ok::<Seq<Lexeme>, LexFault>(binary_tokens(d1, Symbol::Ne, d2)),
        lex(d1 + "<"@ + d2, 0) == Ok::<Seq<Lexeme>, LexFault>(binary_tokens(d1, Symbol::Lt, d2)),
        lex(d1 + "<="@ + d2, 0) == Ok::<Seq<Lexeme>, LexFault>(binary_tokens(d1, Symbol::Le, d2)),
        lex(d1 + ">"@ + d2, 0) == Ok::<Seq<Lexeme>, LexFault>(binary_tokens(d1, Symbol::Gt, d2)),
        lex(d1 + ">="@ + d2, 0) == Ok::<Seq<Lexeme>, LexFault>(binary_tokens(d1, Symbol::Ge, d2)),
        lex(d1 + "&"@ + d2, 0) == Ok::<Seq<Lexeme>, LexFault>(binary_tokens(d1, Symbol::And, d2)),
        lex(d1 + "&&"@ + d2, 0) == Ok::<Seq<Lexeme>, LexFault>(binary_tokens(d1, Symbol::And, d2)),
        lex(d1 + "|"@ + d2, 0) == Ok::<Seq<Lexeme>, LexFault>(binary_tokens(d1, Symbol::Or, d2)),
        lex(d1 + "||"@ + d2, 0) == Ok::<Seq<Lexeme>, LexFault>(binary_tokens(d1, Symbol::Or, d2)),
{
    assert(is_digit(d2[0]));
    reveal_strlit("+");
    assert((d1 + "+"@ + d2)[d1.len() as int] == "+"@[0]);
    assert((d1 + "+"@ + d2)[d1.len() as int + 1] == d2[0]);
    lemma_lex_binary(d1, "+"@, d2, Symbol::Plus);
    reveal_strlit("-");
    assert((d1 + "-"@ + d2)[d1.len() as int] == "-"@[0]);
    assert((d1 + "-"@ + d2)[d1.len() as int + 1] == d2[0]);
    lemma_lex_binary(d1, "-"@, d2, Symbol::Minus);
    reveal_strlit("*");
    assert((d1 + "*"@ + d2)[d1.len() as int] == "*"@[0]);
    assert((d1 + "*"@ + d2)[d1.len() as int + 1] == d2[0]);
    lemma_lex_binary(d1, "*"@, d2, Symbol::Star);
    reveal_strlit("/");
    assert((d1 + "/"@ + d2)[d1.len() as int] == "/"@[0]);
    assert((d1 + "/"@ + d2)[d1.len() as int + 1] == d2[0]);
    lemma_lex_binary(d1, "/"@, d2, Symbol::Slash);
    reveal_strlit("%");
    assert((d1 + "%"@ + d2)[d1.len() as int] == "%"@[0]);
    assert((d1 + "%"@ + d2)[d1.len() as int + 1] == d2[0]);
    lemma_lex_binary(d1, "%"@, d2, Symbol::Percent);
    reveal_strlit("^");
    assert((d1 + "^"@ + d2)[d1.len() as int] == "^"@[0]);
    assert((d1 + "^"@ + d2)[d1.len() as int + 1] == d2[0]);
    lemma_lex_binary(d1, "^"@, d2, Symbol::Power);
    reveal_strlit("**");
    assert((d1 + "**"@ + d2)[d1.len() as int] == "**"@[0]);
    assert((d1 + "**"@ + d2)[d1.len() as int + 1] == "**"@[1]);
    lemma_lex_binary(d1, "**"@, d2, Symbol::Power);
    reveal_strlit("=");
    assert((d1 + "="@ + d2)[d1.len() as int] == "="@[0]);
    assert((d1 + "="@ + d2)[d1.len() as int + 1] == d2[0]);
    lemma_lex_binary(d1, "="@, d2, Symbol::Eq);
    reveal_strlit("==");
    assert((d1 + "=="@ + d2)[d1.len() as int] == "=="@[0]);
    assert((d1 + "=="@ + d2)[d1.len() as int + 1] == "=="@[1]);
    lemma_lex_binary(d1, "=="@, d2, Symbol::Eq);
    reveal_strlit("!=");
    assert((d1 + "!="@ + d2)[d1.len() as int] == "!="@[0]);
    assert((d1 + "!="@ + d2)[d1.len() as int + 1] == "!="@[1]);
    lemma_lex_binary(d1, "!="@, d2, Symbol::Ne);
    reveal_strlit("<>");
    assert((d1 + "<>"@ + d2)[d1.len() as int] == "<>"@[0]);
    assert((d1 + "<>"@ + d2)[d1.len() as int + 1] == "<>"@[1]);
    lemma_lex_binary(d1, "<>"@, d2, Symbol::Ne);
    reveal_strlit("<");
    assert((d1 + "<"@ + d2)[d1.len() as int] == "<"@[0]);
    assert((d1 + "<"@ + d2)[d1.len() as int + 1] == d2[0]);
    lemma_lex_binary(d1, "<"@, d2, Symbol::Lt);
    reveal_strlit("<=");
    assert((d1 + "<="@ + d2)[d1.len() as int] == "<="@[0]);
    assert((d1 + "<="@ + d2)[d1.len() as int + 1] == "<="@[1]);
    lemma_lex_binary(d1, "<="@, d2, Symbol::Le);
    reveal_strlit(">");
    assert((d1 + ">"@ + d2)[d1.len() as int] == ">"@[0]);
    assert((d1 + ">"@ + d2)[d1.len() as int + 1] == d2[0]);
    lemma_lex_binary(d1, ">"@, d2, Symbol::Gt);
    reveal_strlit(">=");
    assert((d1 + ">="@ + d2)[d1.len() as int] == ">="@[0]);
    assert((d1 + ">="@ + d2)[d1.len() as int + 1] == ">="@[1]);
    lemma_lex_binary(d1, ">="@, d2, Symbol::Ge);
    reveal_strlit("&");
    assert((d1 + "&"@ + d2)[d1.len() as int] == "&"@[0]);
    assert((d1 + "&"@ + d2)[d1.len() as int + 1] == d2[0]);
    lemma_lex_binary(d1, "&"@, d2, Symbol::And);
    reveal_strlit("&&");
    assert((d1 + "&&"@ + d2)[d1.len() as int] == "&&"@[0]);
    assert((d1 + "&&"@ + d2)[d1.len() as int + 1] == "&&"@[1]);
    lemma_lex_binary(d1, "&&"@, d2, Symbol::And);
    reveal_strlit("|");
    assert((d1 + "|"@ + d2)[d1.len() as int] == "|"@[0]);
    assert((d1 + "|"@ + d2)[d1.len() as int + 1] == d2[0]);
    lemma_lex_binary(d1, "|"@, d2, Symbol::Or);
    reveal_strlit("||");
    assert((d1 + "||"@ + d2)[d1.len() as int] == "||"@[0]);
    assert((d1 + "||"@ + d2)[d1.len() as int + 1] == "||"@[1]);
    lemma_lex_binary(d1, "||"@, d2, Symbol::Or);
}

/// The tokens of `a y b z c` for three numbers, ending in `Eof`.
pub open spec fn chain_tokens(a: Seq<char>, y: Symbol, b: Seq<char>, z: Symbol, c: Seq<char>) -> Seq<Lexeme> {
    seq![
        Lexeme::Number(a),
        Lexeme::Sym(y),
        Lexeme::Number(b),
        Lexeme::Sym(z),
        Lexeme::Number(c),
        Lexeme::Sym(Symbol::Eof),
    ]
}

/// When the second operator binds tighter than the first lets its right
/// operand go, it takes `b` and `c` first: `a y (b z c)`.
proof fn lemma_chain_right(a: Seq<char>, y: Symbol, b: Seq<char>, z: Symbol, c: Seq<char>)
    requires
        infix_of(Lexeme::Sym(y)) matches Some((l1, r1, Infix::Bin(_))) && l1 >= 0,
        infix_of(Lexeme::Sym(z)) matches Some((l2, r2, Infix::Bin(_))) && l2 >= infix_of(Lexeme::Sym(y)).unwrap().1,
    ensures
        compile(chain_tokens(a, y, b, z, c)) == (
            seq![
                StepView::Num(a),
                StepView::Num(b),
                StepView::Num(c),
                StepView::Apply(infix_of(Lexeme::Sym(z)).unwrap().2->Bin_0),
                StepView::Apply(infix_of(Lexeme::Sym(y)).unwrap().2->Bin_0),
            ],
            None::<FaultView>,
        ),
{
    let t = chain_tokens(a, y, b, z, c);
    let (l1, r1, op1) = infix_of(Lexeme::Sym(y)).unwrap();
    let o1 = op1->Bin_0;
    let o2 = infix_of(Lexeme::Sym(z)).unwrap().2->Bin_0;
    lemma_binary_at(t, 2, r1);
    assert(infix(t, 5, 0) == (Parsed { steps: seq![], pos: 5, fault: None }));
    let tail = seq![StepView::Num(b), StepView::Num(c), StepView::Apply(o2), StepView::Apply(o1)];
    assert(seq![StepView::Num(b), StepView::Num(c), StepView::Apply(o2)] + seq![StepView::Apply(o1)] =~= tail);
    assert(tail + Seq::<StepView>::empty() =~= tail);
    assert(infix(t, 1, 0) == (Parsed { steps: tail, pos: 5, fault: None }));
    assert(seq![StepView::Num(a)] + tail =~= seq![
        StepView::Num(a),
        StepView::Num(b),
        StepView::Num(c),
        StepView::Apply(o2),
        StepView::Apply(o1),
    ]);
}

/// When the second operator binds less tightly than the first lets its
/// right operand go, `a y b` is done first: `(a y b) z c`.
proof fn lemma_chain_left(a: Seq<char>, y: Symbol, b: Seq<char>, z: Symbol, c: Seq<char>)
    requires
        infix_of(Lexeme::Sym(y)) matches Some((l1, r1, Infix::Bin(_))) && l1 >= 0,
        infix_of(Lexeme::Sym(z)) matches Some((l2, r2, Infix::Bin(_))) && l2 < infix_of(Lexeme::Sym(y)).unwrap().1
            && l2 >= 0,
    ensures
        compile(chain_tokens(a, y, b, z, c)) == (
            seq![
                StepView::Num(a),
                StepView::Num(b),
                StepView::Apply(infix_of(Lexeme::Sym(y)).unwrap().2->Bin_0),
                StepView::Num(c),
                StepView::Apply(infix_of(Lexeme::Sym(z)).unwrap().2->Bin_0),
            ],
            None::<FaultView>,
        ),
{
    let t = chain_tokens(a, y, b, z, c);
    let (l1, r1, op1) = infix_of(Lexeme::Sym(y)).unwrap();
    let o1 = op1->Bin_0;
    let (l2, r2, op2) = infix_of(Lexeme::Sym(z)).unwrap();
    let o2 = op2->Bin_0;
    assert(infix(t, 3, r1) == (Parsed { steps: seq![], pos: 3, fault: None }));
    assert(seq![StepView::Num(b)] + Seq::<StepView>::empty() =~= seq![StepView::Num(b)]);
    assert(parse_expr(t, 2, r1) == (Parsed { steps: seq![StepView::Num(b)], pos: 3, fault: None }));
    lemma_lone_number(t, 4, r2);
    assert(infix(t, 5, 0) == (Parsed { steps: seq![], pos: 5, fault: None }));
    let t2 = seq![StepView::Num(c), StepView::Apply(o2)];
    assert(seq![StepView::Num(c)] + seq![StepView::Apply(o2)] =~= t2);
    assert(t2 + Seq::<StepView>::empty() =~= t2);
    assert(infix(t, 3, 0) == (Parsed { steps: t2, pos: 5, fault: None }));
    let tail = seq![StepView::Num(b), StepView::Apply(o1), StepView::Num(c), StepView::Apply(o2)];
    assert(seq![StepView::Num(b)] + seq![StepView::Apply(o1)] + t2 =~= tail);
    assert(infix(t, 1, 0) == (Parsed { steps: tail, pos: 5, fault: None }));
    assert(seq![StepView::Num(a)] + tail =~= seq![
        StepView::Num(a),
        StepView::Num(b),
        StepView::Apply(o1),
        StepView::Num(c),
        StepView::Apply(o2),
    ]);
}

/// Law: operator precedence and grouping. `*` binds tighter than `+`
/// (`a + b * c` is `[a, b, c, Mul, Add]` and `a * b + c` is
/// `[a, b, Mul, c, Add]`); `+` tighter than `<` (`a < b + c` is
/// `[a, b, c, Add, Lt]`); `<` tighter than `&&`, and `&&` tighter than
/// `||`; `-` groups to the left (`a - b - c` is `[a, b, Sub, c, Sub]`) and
/// `^` to the right (`a ^ b ^ c` is `[a, b, c, Pow, Pow]`).
pub proof fn law_operator_precedence(a: Seq<char>, b: Seq<char>, c: Seq<char>)
    ensures
        compile(chain_tokens(a, Symbol::Plus, b, Symbol::Star, c)) == (seq![StepView::Num(a), StepView::Num(b), StepView::Num(c), StepView::Apply(BinOp::Mul), StepView::Apply(BinOp::Add)], None::<FaultView>),
        compile(chain_tokens(a, Symbol::Star, b, Symbol::Plus, c)) == (seq![StepView::Num(a), StepView::Num(b), StepView::Apply(BinOp::Mul), StepView::Num(c), StepView::Apply(BinOp::Add)], None::<FaultView>),
        compile(chain_tokens(a, Symbol::Lt, b, Symbol::Plus, c)) == (seq![StepView::Num(a), StepView::Num(b), StepView::Num(c), StepView::Apply(BinOp::Add), StepView::Apply(BinOp::Lt)], None::<FaultView>),
        compile(chain_tokens(a, Symbol::Lt, b, Symbol::And, c)) == (seq![StepView::Num(a), StepView::Num(b), StepView::Apply(BinOp::Lt), StepView::Num(c), StepView::Apply(BinOp::And)], None::<FaultView>),
        compile(chain_tokens(a, Symbol::Or, b, Symbol::And, c)) == (seq![StepView::Num(a), StepView::Num(b), StepView::Num(c), StepView::Apply(BinOp::And), StepView::Apply(BinOp::Or)], None::<FaultView>),
        compile(chain_tokens(a, Symbol::Minus, b, Symbol::Minus, c)) == (seq![StepView::Num(a), StepView::Num(b), StepView::Apply(BinOp::Sub), StepView::Num(c), StepView::Apply(BinOp::Sub)], None::<FaultView>),
        compile(chain_tokens(a, Symbol::Power, b, Symbol::Power, c)) == (seq![StepView::Num(a), StepView::Num(b), StepView::Num(c), StepView::Apply(BinOp::Pow), StepView::Apply(BinOp::Pow)], None::<FaultView>),
{
    lemma_chain_right(a, Symbol::Plus, b, Symbol::Star, c);
    lemma_chain_left(a, Symbol::Star, b, Symbol::Plus, c);
    lemma_chain_right(a, Symbol::Lt, b, Symbol::Plus, c);
    lemma_chain_left(a, Symbol::Lt, b, Symbol::And, c);
    lemma_chain_right(a, Symbol::Or, b, Symbol::And, c);
    lemma_chain_left(a, Symbol::Minus, b, Symbol::Minus, c);
    lemma_chain_right(a, Symbol::Power, b, Symbol::Power, c);
}

/// Law: calls, prefixes and operands. `f()` is `[Call(f, 0)]`, `f(x)` is
/// `[x, Call(f, 1)]` and `f(x, y)` is `[x, y, Call(f, 2)]` (arguments in
/// order, then the call with their count); `-x` is `[x, Neg]` and `!x` is
/// `[x, Not]`; `#v#` and a bare name `v` read the variable `v`.
pub proof fn law_calls_prefixes_and_operands(f: Seq<char>, x: Seq<char>, y: Seq<char>, v: Seq<char>)
    ensures
        compile(seq![Lexeme::Ident(f), Lexeme::Sym(Symbol::LParen), Lexeme::Sym(Symbol::RParen), Lexeme::Sym(Symbol::Eof)])
            == (seq![StepView::Call(f, 0)], None::<FaultView>),
        compile(seq![Lexeme::Ident(f), Lexeme::Sym(Symbol::LParen), Lexeme::Number(x), Lexeme::Sym(Symbol::RParen), Lexeme::Sym(Symbol::Eof)])
            == (seq![StepView::Num(x), StepView::Call(f, 1)], None::<FaultView>),
        compile(seq![Lexeme::Ident(f), Lexeme::Sym(Symbol::LParen), Lexeme::Number(x), Lexeme::Sym(Symbol::Comma), Lexeme::Number(y), Lexeme::Sym(Symbol::RParen), Lexeme::Sym(Symbol::Eof)])
            == (seq![StepView::Num(x), StepView::Num(y), StepView::Call(f, 2)], None::<FaultView>),
        compile(seq![Lexeme::Sym(Symbol::Minus), Lexeme::Number(x), Lexeme::Sym(Symbol::Eof)])
            == (seq![StepView::Num(x), StepView::Neg], None::<FaultView>),
        compile(seq![Lexeme::Sym(Symbol::Not), Lexeme::Number(x), Lexeme::Sym(Symbol::Eof)])
            == (seq![StepView::Num(x), StepView::Not], None::<FaultView>),
        compile(seq![Lexeme::Var(v), Lexeme::Sym(Symbol::Eof)]) == (seq![StepView::Lookup(v)], None::<FaultView>),
        compile(seq![Lexeme::Ident(v), Lexeme::Sym(Symbol::Eof)]) == (seq![StepView::Lookup(v)], None::<FaultView>),
{
    let e = Seq::<StepView>::empty();
    let t0 = seq![Lexeme::Ident(f), Lexeme::Sym(Symbol::LParen), Lexeme::Sym(Symbol::RParen), Lexeme::Sym(Symbol::Eof)];
    assert(infix(t0, 3, 0) == (Parsed { steps: e, pos: 3, fault: None }));
    assert(seq![StepView::Call(f, 0)] + e =~= seq![StepView::Call(f, 0)]);

    let t1 = seq![Lexeme::Ident(f), Lexeme::Sym(Symbol::LParen), Lexeme::Number(x), Lexeme::Sym(Symbol::RParen), Lexeme::Sym(Symbol::Eof)];
    lemma_lone_number(t1, 2, 0);
    assert(infix(t1, 4, 0) == (Parsed { steps: e, pos: 4, fault: None }));
    assert(seq![StepView::Num(x)] + seq![StepView::Call(f, 1)] + e =~= seq![StepView::Num(x), StepView::Call(f, 1)]);
    assert(args(t1, 2, 0, f, 0) == (Parsed { steps: seq![StepView::Num(x), StepView::Call(f, 1)], pos: 4, fault: None }));

    let t2 = seq![Lexeme::Ident(f), Lexeme::Sym(Symbol::LParen), Lexeme::Number(x), Lexeme::Sym(Symbol::Comma), Lexeme::Number(y), Lexeme::Sym(Symbol::RParen), Lexeme::Sym(Symbol::Eof)];
    lemma_lone_number(t2, 2, 0);
    lemma_lone_number(t2, 4, 0);
    assert(infix(t2, 6, 0) == (Parsed { steps: e, pos: 6, fault: None }));
    assert(seq![StepView::Num(y)] + seq![StepView::Call(f, 2)] + e =~= seq![StepView::Num(y), StepView::Call(f, 2)]);
    assert(args(t2, 4, 0, f, 1) == (Parsed { steps: seq![StepView::Num(y), StepView::Call(f, 2)], pos: 6, fault: None }));
    assert(seq![StepView::Num(x)] + seq![StepView::Num(y), StepView::Call(f, 2)] =~= seq![StepView::Num(x), StepView::Num(y), StepView::Call(f, 2)]);
    assert(args(t2, 2, 0, f, 0) == (Parsed { steps: seq![StepView::Num(x), StepView::Num(y), StepView::Call(f, 2)], pos: 6, fault: None }));

    let t3 = seq![Lexeme::Sym(Symbol::Minus), Lexeme::Number(x), Lexeme::Sym(Symbol::Eof)];
    lemma_lone_number(t3, 1, 8);
    assert(infix(t3, 2, 0) == (Parsed { steps: e, pos: 2, fault: None }));
    assert(seq![StepView::Num(x)] + prefix_steps(Symbol::Minus) + e =~= seq![StepView::Num(x), StepView::Neg]);

    let t4 = seq![Lexeme::Sym(Symbol::Not), Lexeme::Number(x), Lexeme::Sym(Symbol::Eof)];
    lemma_lone_number(t4, 1, 8);
    assert(infix(t4, 2, 0) == (Parsed { steps: e, pos: 2, fault: None }));
    assert(seq![StepView::Num(x)] + prefix_steps(Symbol::Not) + e =~= seq![StepView::Num(x), StepView::Not]);

    let t5 = seq![Lexeme::Var(v), Lexeme::Sym(Symbol::Eof)];
    assert(infix(t5, 1, 0) == (Parsed { steps: e, pos: 1, fault: None }));
    assert(seq![StepView::Lookup(v)] + e =~= seq![StepView::Lookup(v)]);
    let t6 = seq![Lexeme::Ident(v), Lexeme::Sym(Symbol::Eof)];
    assert(infix(t6, 1, 0) == (Parsed { steps: e, pos: 1, fault: None }));
}

/// The name of a variable reference runs from `j` to the next `#`.
proof fn lemma_hash_run(s: Seq<char>, j: int, k: int)
    requires
        0 <= j <= k < s.len(),
        forall|q: int| j <= q < k ==> #[trigger] s[q] != '#',
        s[k] == '#',
    ensures
        hash_end(s, j) == k,
    decreases k - j,
{
    if j < k {
        lemma_hash_run(s, j + 1, k);
    }
}

/// A name runs from `j` to the end when every character continues it.
proof fn lemma_ident_run(s: Seq<char>, j: int)
    requires
        0 <= j <= s.len(),
        forall|q: int| j <= q < s.len() ==> name_char(#[trigger] s[q]),
    ensures
        ident_end(s, j) == s.len(),
    decreases s.len() - j,
{
    if j < s.len() {
        lemma_ident_run(s, j + 1);
    }
}

/// Law: how operands are written. `#v#` (with no `#` inside) is the
/// variable `v`; a word of ASCII letters and digits that starts with a
/// letter is a name; digits with one dot among them are one number.
pub proof fn law_operand_texts(v: Seq<char>, w: Seq<char>, d1: Seq<char>, d2: Seq<char>)
    requires
        v.len() > 0,
        forall|q: int| 0 <= q < v.len() ==> #[trigger] v[q] != '#',
        w.len() > 0,
        is_ascii_letter(w[0]),
        forall|q: int| 0 <= q < w.len() ==> is_ascii_letter(#[trigger] w[q]) || is_digit(w[q]),
        d1.len() > 0,
        crate::text::all_digits(d1),
        crate::text::all_digits(d2),
    ensures
        lex(seq!['#'] + v + seq!['#'], 0) == Ok::<Seq<Lexeme>, LexFault>(seq![Lexeme::Var(v), Lexeme::Sym(Symbol::Eof)]),
        lex(w, 0) == Ok::<Seq<Lexeme>, LexFault>(seq![Lexeme::Ident(w), Lexeme::Sym(Symbol::Eof)]),
        lex(d1 + seq!['.'] + d2, 0) == Ok::<Seq<Lexeme>, LexFault>(seq![Lexeme::Number(d1 + seq!['.'] + d2), Lexeme::Sym(Symbol::Eof)]),
{
    // `#v#`
    let s = seq!['#'] + v + seq!['#'];
    let k = v.len() as int + 1;
    assert forall|q: int| 1 <= q < k implies #[trigger] s[q] != '#' by {
        assert(s[q] == v[q - 1]);
    }
    lemma_hash_run(s, 1, k);
    assert(s.subrange(1, k) =~= v);
    assert(!is_ws('#') && !is_digit('#'));
    assert(lex(s, k + 1) == Ok::<Seq<Lexeme>, LexFault>(seq![Lexeme::Sym(Symbol::Eof)]));
    assert(seq![Lexeme::Var(v)] + seq![Lexeme::Sym(Symbol::Eof)] =~= seq![Lexeme::Var(v), Lexeme::Sym(Symbol::Eof)]);
    // a name
    assert forall|q: int| 1 <= q < w.len() implies name_char(#[trigger] w[q]) by {
        assert(is_ascii_letter(w[q]) || is_digit(w[q]));
    }
    lemma_ident_run(w, 1);
    assert(!is_ws(w[0]) && !is_digit(w[0]) && w[0] != '#' && w[0] != '.');
    assert(name_start(w[0]));
    assert(w.subrange(0, w.len() as int) =~= w);
    assert(lex(w, w.len() as int) == Ok::<Seq<Lexeme>, LexFault>(seq![Lexeme::Sym(Symbol::Eof)]));
    assert(seq![Lexeme::Ident(w)] + seq![Lexeme::Sym(Symbol::Eof)] =~= seq![Lexeme::Ident(w), Lexeme::Sym(Symbol::Eof)]);
    // a number with a dot
    let n = d1 + seq!['.'] + d2;
    let dot = d1.len() as int;
    assert forall|q: int| 0 <= q < n.len() && q != dot implies is_digit(#[trigger] n[q]) by {
        if q < dot {
            assert(n[q] == d1[q]);
        } else {
            assert(n[q] == d2[q - dot - 1]);
        }
    }
    assert(n[dot] == '.');
    lemma_number_run(n, dot + 1, n.len() as int, true);
    lemma_number_dot(n, 1, dot);
    assert(is_digit(n[0]) && !is_ws(n[0]) && n[0] != '.');
    assert(n.subrange(0, n.len() as int) =~= n);
    assert(lex(n, n.len() as int) == Ok::<Seq<Lexeme>, LexFault>(seq![Lexeme::Sym(Symbol::Eof)]));
    assert(seq![Lexeme::Number(n)] + seq![Lexeme::Sym(Symbol::Eof)] =~= seq![Lexeme::Number(n), Lexeme::Sym(Symbol::Eof)]);
}

/// Digits before the dot keep the number going through the dot.
proof fn lemma_number_dot(n: Seq<char>, j: int, dot: int)
    requires
        0 <= j <= dot < n.len(),
        n[dot] == '.',
        forall|q: int| j <= q < dot ==> is_digit(#[trigger] n[q]),
    ensures
        number_end(n, j, false) == number_end(n, dot + 1, true),
    decreases dot - j,
{
    if j < dot {
        lemma_number_dot(n, j + 1, dot);
    }
}

} // verus!
