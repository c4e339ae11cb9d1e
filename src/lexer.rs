//! The indentation-sensitive lexer. `lex` states the token stream as a
//! function of the source; `Lexer::tokenize` computes it.
use vstd::prelude::*;
use crate::ast::BinaryOperator;
use crate::text::{ident_start, ident_char, is_digit, is_ident_start, is_ident_char, push_char, chars_of, string_of, spells};
use crate::token::{Token, TypeName, SpannedToken, Tok, TokAt, toks_view, push_token};

verus! {

/// The longest source, in characters, that the lexer takes: indentation
/// widths and positions then fit in `usize`.
pub const MAX_INPUT: usize = usize::MAX / 8;

#[derive(Debug, Clone, Copy, PartialEq, Eq, Structural)]
pub enum LexErrorKind {
    UnknownCharacter(char),
    UnterminatedString,
    MultipleDecimalPoints,
    IntegerOverflow,
    UnindentMismatch,
}

/// A lexical error, at the first character of the offending lexeme.
#[derive(Debug, PartialEq)]
pub struct LexerError {
    pub kind: LexErrorKind,
    pub message: String,
    pub line: usize,
    pub column: usize,
}

/// The model of a lexical error.
pub struct LexErr {
    pub kind: LexErrorKind,
    pub line: int,
    pub col: int,
}

impl LexerError {
    pub open spec fn view(&self) -> LexErr {
        LexErr { kind: self.kind, line: self.line as int, col: self.column as int }
    }
}

pub open spec fn lex_message(k: LexErrorKind) -> Seq<char> {
    match k {
        LexErrorKind::UnknownCharacter(c) => "Unknown character: "@.push(c),
        LexErrorKind::UnterminatedString => "Unterminated string literal"@,
        LexErrorKind::MultipleDecimalPoints => "Invalid number: multiple decimal points"@,
        LexErrorKind::IntegerOverflow => "Invalid integer: out of range"@,
        LexErrorKind::UnindentMismatch => "Unindent does not match any outer indentation level"@,
    }
}

/// Line and column (both from 1) of offset `p`.
pub open spec fn line_col(input: Seq<char>, p: int) -> (int, int)
    decreases p,
{
    if p <= 0 {
        (1, 1)
    } else {
        let lc = line_col(input, p - 1);
        if input[p - 1] == '\n' {
            (lc.0 + 1, 1)
        } else {
            (lc.0, lc.1 + 1)
        }
    }
}

pub open spec fn tok_at(input: Seq<char>, p: int, t: Tok) -> TokAt {
    TokAt { tok: t, line: line_col(input, p).0, col: line_col(input, p).1 }
}

pub open spec fn err_at(input: Seq<char>, p: int, k: LexErrorKind) -> LexErr {
    LexErr { kind: k, line: line_col(input, p).0, col: line_col(input, p).1 }
}

/// The character at `i`, or NUL past either end.
pub open spec fn peek(input: Seq<char>, i: int) -> char {
    if 0 <= i < input.len() {
        input[i]
    } else {
        '\0'
    }
}

pub open spec fn at_line_start(input: Seq<char>, p: int) -> bool {
    p == 0 || (0 < p <= input.len() && input[p - 1] == '\n')
}

/// End of the run of spaces and tabs from `i`, and its width (tab = 4).
pub open spec fn indent_scan(input: Seq<char>, i: int) -> (int, int)
    decreases input.len() - i,
{
    if 0 <= i < input.len() && (input[i] == ' ' || input[i] == '\t') {
        let r = indent_scan(input, i + 1);
        (r.0, r.1 + (if input[i] == ' ' { 1int } else { 4int }))
    } else {
        (i, 0)
    }
}

/// A line whose indentation is followed by nothing that counts.
pub open spec fn blank_at(input: Seq<char>, q: int) -> bool {
    q >= input.len() || input[q] == '\n' || input[q] == '\r' || input[q] == '#'
}

/// Pops every level wider than `w`; the stack left and how many were popped.
pub open spec fn pop_to(stack: Seq<int>, w: int) -> (Seq<int>, nat)
    decreases stack.len(),
{
    if stack.len() > 0 && w < stack.last() {
        let r = pop_to(stack.drop_last(), w);
        (r.0, r.1 + 1)
    } else {
        (stack, 0)
    }
}

pub open spec fn dedents(input: Seq<char>, p: int, n: nat) -> Seq<TokAt> {
    Seq::new(n, |_i: int| tok_at(input, p, Tok::Dedent))
}

/// Offset, indentation stack and tokens so far.
pub struct LexState {
    pub pos: int,
    pub stack: Seq<int>,
    pub toks: Seq<TokAt>,
}

pub open spec fn moved(st: LexState, p: int) -> LexState {
    LexState { pos: p, stack: st.stack, toks: st.toks }
}

pub open spec fn emit(input: Seq<char>, st: LexState, t: Tok, p: int) -> Result<LexState, LexErr> {
    Ok(LexState { pos: p, stack: st.stack, toks: st.toks.push(tok_at(input, st.pos, t)) })
}

/// Indentation at the start of a line: Indent, Dedents, or an error.
pub open spec fn indent_phase(input: Seq<char>, st: LexState) -> Result<LexState, LexErr> {
    if at_line_start(input, st.pos) {
        let (q, w) = indent_scan(input, st.pos);
        if blank_at(input, q) {
            Ok(moved(st, q))
        } else if w > st.stack.last() {
            Ok(LexState { pos: q, stack: st.stack.push(w), toks: st.toks.push(tok_at(input, st.pos, Tok::Indent)) })
        } else {
            let (s2, n) = pop_to(st.stack, w);
            if s2.len() == 0 || s2.last() != w {
                Err(err_at(input, st.pos, LexErrorKind::UnindentMismatch))
            } else {
                Ok(LexState { pos: q, stack: s2, toks: st.toks + dedents(input, st.pos, n) })
            }
        }
    } else {
        Ok(st)
    }
}

/// End of the comment that starts at `i`: the next newline, or the end.
pub open spec fn line_end(input: Seq<char>, i: int) -> int
    decreases input.len() - i,
{
    if 0 <= i < input.len() && input[i] != '\n' {
        line_end(input, i + 1)
    } else {
        i
    }
}

/// End of the identifier characters from `i`.
pub open spec fn ident_end(input: Seq<char>, i: int) -> int
    decreases input.len() - i,
{
    if 0 <= i < input.len() && ident_char(input[i]) {
        ident_end(input, i + 1)
    } else {
        i
    }
}

pub open spec fn escaped(c: char) -> char {
    if c == 'n' {
        '\n'
    } else if c == 't' {
        '\t'
    } else if c == 'r' {
        '\r'
    } else {
        c
    }
}

/// The text of a string body from `i`, and the offset of its closing quote;
/// `None` if it is not closed.
pub open spec fn str_scan(input: Seq<char>, i: int) -> Option<(Seq<char>, int)>
    decreases input.len() - i,
{
    if i < 0 || i >= input.len() {
        None
    } else if input[i] == '"' {
        Some((Seq::empty(), i))
    } else if input[i] == '\\' {
        if i + 1 >= input.len() {
            None
        } else {
            match str_scan(input, i + 2) {
                Some(r) => Some((seq![escaped(input[i + 1])] + r.0, r.1)),
                None => None,
            }
        }
    } else {
        match str_scan(input, i + 1) {
            Some(r) => Some((seq![input[i]] + r.0, r.1)),
            None => None,
        }
    }
}

/// End of a number from `i`, and whether it has a decimal point; `Err` on a
/// second point. `..` ends a number.
pub open spec fn num_scan(input: Seq<char>, i: int, dot: bool) -> Result<(int, bool), ()>
    decreases input.len() - i,
{
    if 0 <= i < input.len() && is_digit(input[i]) {
        num_scan(input, i + 1, dot)
    } else if 0 <= i < input.len() && input[i] == '.' && peek(input, i + 1) != '.' {
        if dot {
            Err(())
        } else {
            num_scan(input, i + 1, true)
        }
    } else {
        Ok((i, dot))
    }
}

pub open spec fn digit_value(c: char) -> int {
    (c as u32) as int - 48
}

/// The value of a run of decimal digits.
pub open spec fn digits_value(s: Seq<char>) -> int
    decreases s.len(),
{
    if s.len() == 0 {
        0
    } else {
        digits_value(s.drop_last()) * 10 + digit_value(s.last())
    }
}

/// Keyword, type name or identifier.
pub open spec fn word_token(w: Seq<char>) -> Tok {
    if w == seq!['v', 'a', 'r'] {
        Tok::Var
    } else if w == seq!['v', 'a', 'l'] {
        Tok::Val
    } else if w == seq!['d', 'e', 'f'] {
        Tok::Def
    } else if w == seq!['p', 'u', 'b'] {
        Tok::Pub
    } else if w == seq!['p', 'r', 'i', 'n', 't'] {
        Tok::Print
    } else if w == seq!['r', 'e', 't', 'u', 'r', 'n'] {
        Tok::Return
    } else if w == seq!['i', 'f'] {
        Tok::If
    } else if w == seq!['e', 'l', 's', 'e'] {
        Tok::Else
    } else if w == seq!['t', 'r', 'u', 'e'] {
        Tok::True
    } else if w == seq!['f', 'a', 'l', 's', 'e'] {
        Tok::False
    } else if w == seq!['w', 'h', 'i', 'l', 'e'] {
        Tok::While
    } else if w == seq!['f', 'o', 'r'] {
        Tok::For
    } else if w == seq!['i', 'n'] {
        Tok::In
    } else if w == seq!['i', 'm', 'p', 'o', 'r', 't'] {
        Tok::Import
    } else if w == seq!['c', 'l', 'a', 's', 's'] {
        Tok::Class
    } else if w == seq!['t', 'h', 'i', 's'] {
        Tok::This
    } else if w == seq!['t', 'r', 'y'] {
        Tok::Try
    } else if w == seq!['c', 'a', 't', 'c', 'h'] {
        Tok::Catch
    } else if w == seq!['n', 'e', 'w'] {
        Tok::New
    } else if w == seq!['b', 'r', 'e', 'a', 'k'] {
        Tok::Break
    } else if w == seq!['c', 'o', 'n', 't', 'i', 'n', 'u', 'e'] {
        Tok::Continue
    } else if w == seq!['i', 'n', 't'] {
        Tok::Type(TypeName::Int)
    } else if w == seq!['f', 'l', 'o', 'a', 't'] {
        Tok::Type(TypeName::Float)
    } else if w == seq!['s', 't', 'r', 'i', 'n', 'g'] {
        Tok::Type(TypeName::String)
    } else if w == seq!['b', 'o', 'o', 'l'] {
        Tok::Type(TypeName::Bool)
    } else if w == seq!['l', 'i', 's', 't'] {
        Tok::Type(TypeName::List)
    } else if w == seq!['v', 'o', 'i', 'd'] {
        Tok::Type(TypeName::Void)
    } else if w == seq!['d', 'i', 'c', 't'] {
        Tok::Type(TypeName::Dict)
    } else {
        Tok::Ident(w)
    }
}

pub open spec fn string_token(input: Seq<char>, st: LexState, from: int, fstring: bool) -> Result<LexState, LexErr> {
    match str_scan(input, from) {
        Some(r) => emit(input, st, if fstring { Tok::FString(r.0) } else { Tok::Str(r.0) }, r.1 + 1),
        None => Err(err_at(input, st.pos, LexErrorKind::UnterminatedString)),
    }
}

pub open spec fn number_token(input: Seq<char>, st: LexState) -> Result<LexState, LexErr> {
    match num_scan(input, st.pos, false) {
        Err(_) => Err(err_at(input, st.pos, LexErrorKind::MultipleDecimalPoints)),
        Ok(r) => {
            let text = input.subrange(st.pos, r.0);
            if r.1 {
                emit(input, st, Tok::Float(text), r.0)
            } else if digits_value(text) > i64::MAX {
                Err(err_at(input, st.pos, LexErrorKind::IntegerOverflow))
            } else {
                emit(input, st, Tok::Int(digits_value(text) as i64), r.0)
            }
        },
    }
}

/// One token (or one skipped character or comment) at `st.pos`.
pub open spec fn scan_phase(input: Seq<char>, st: LexState) -> Result<LexState, LexErr> {
    let p = st.pos;
    let c = input[p];
    let n = peek(input, p + 1);
    if c == ' ' || c == '\r' || c == '\t' {
        Ok(moved(st, p + 1))
    } else if c == '\n' {
        emit(input, st, Tok::Newline, p + 1)
    } else if c == '#' {
        Ok(moved(st, line_end(input, p)))
    } else if c == ':' {
        emit(input, st, Tok::Colon, p + 1)
    } else if c == '(' {
        emit(input, st, Tok::LParen, p + 1)
    } else if c == ')' {
        emit(input, st, Tok::RParen, p + 1)
    } else if c == '[' {
        emit(input, st, Tok::LBracket, p + 1)
    } else if c == ']' {
        emit(input, st, Tok::RBracket, p + 1)
    } else if c == '{' {
        emit(input, st, Tok::LBrace, p + 1)
    } else if c == '}' {
        emit(input, st, Tok::RBrace, p + 1)
    } else if c == ',' {
        emit(input, st, Tok::Comma, p + 1)
    } else if c == '=' {
        if n == '=' {
            emit(input, st, Tok::Op(BinaryOperator::Equal), p + 2)
        } else {
            emit(input, st, Tok::Assign, p + 1)
        }
    } else if c == '-' {
        if n == '>' {
            emit(input, st, Tok::Arrow, p + 2)
        } else {
            emit(input, st, Tok::Op(BinaryOperator::Subtract), p + 1)
        }
    } else if c == '.' {
        if n == '.' {
            emit(input, st, Tok::Range, p + 2)
        } else {
            emit(input, st, Tok::Dot, p + 1)
        }
    } else if c == '>' {
        if n == '=' {
            emit(input, st, Tok::Op(BinaryOperator::GreaterThanEqual), p + 2)
        } else {
            emit(input, st, Tok::Op(BinaryOperator::GreaterThan), p + 1)
        }
    } else if c == '<' {
        if n == '=' {
            emit(input, st, Tok::Op(BinaryOperator::LessThanEqual), p + 2)
        } else {
            emit(input, st, Tok::Op(BinaryOperator::LessThan), p + 1)
        }
    } else if c == '!' {
        if n == '=' {
            emit(input, st, Tok::Op(BinaryOperator::NotEqual), p + 2)
        } else {
            emit(input, st, Tok::Bang, p + 1)
        }
    } else if c == '+' {
        emit(input, st, Tok::Op(BinaryOperator::Add), p + 1)
    } else if c == '*' {
        emit(input, st, Tok::Op(BinaryOperator::Multiply), p + 1)
    } else if c == '/' {
        emit(input, st, Tok::Op(BinaryOperator::Divide), p + 1)
    } else if c == '"' {
        string_token(input, st, p + 1, false)
    } else if c == 'f' && n == '"' {
        string_token(input, st, p + 2, true)
    } else if ident_start(c) {
        let e = ident_end(input, p + 1);
        emit(input, st, word_token(input.subrange(p, e)), e)
    } else if is_digit(c) {
        number_token(input, st)
    } else {
        Err(err_at(input, p, LexErrorKind::UnknownCharacter(c)))
    }
}

pub open spec fn step(input: Seq<char>, st: LexState) -> Result<LexState, LexErr> {
    match indent_phase(input, st) {
        Err(e) => Err(e),
        Ok(s1) => if s1.pos < input.len() {
            scan_phase(input, s1)
        } else {
            Ok(s1)
        },
    }
}

/// At the end: a Dedent for each open level, then EOF.
pub open spec fn finish(input: Seq<char>, st: LexState) -> Seq<TokAt> {
    st.toks + dedents(input, input.len() as int, (st.stack.len() - 1) as nat) + seq![tok_at(input, input.len() as int, Tok::Eof)]
}

pub open spec fn lex_run(input: Seq<char>, st: LexState) -> Result<Seq<TokAt>, LexErr>
    decreases input.len() - st.pos,
{
    if st.pos >= input.len() {
        Ok(finish(input, st))
    } else {
        match step(input, st) {
            Err(e) => Err(e),
            Ok(s2) => if st.pos < s2.pos <= input.len() {
                lex_run(input, s2)
            } else {
                Ok(finish(input, s2))
            },
        }
    }
}

pub open spec fn initial(p: int) -> LexState {
    LexState { pos: p, stack: seq![0], toks: Seq::empty() }
}

/// The token stream of a source, or its first lexical error.
pub open spec fn lex(input: Seq<char>) -> Result<Seq<TokAt>, LexErr> {
    lex_run(input, initial(0))
}

pub open spec fn ints(s: Seq<usize>) -> Seq<int> {
    s.map_values(|x: usize| x as int)
}

pub proof fn lemma_line_col_bounds(input: Seq<char>, p: int)
    requires
        0 <= p,
    ensures
        1 <= line_col(input, p).0 <= p + 1,
        1 <= line_col(input, p).1 <= p + 1,
    decreases p,
{
    if p > 0 {
        lemma_line_col_bounds(input, p - 1);
    }
}

pub proof fn lemma_digits_nonneg(s: Seq<char>)
    requires
        forall|k: int| 0 <= k < s.len() ==> is_digit(#[trigger] s[k]),
    ensures
        digits_value(s) >= 0,
    decreases s.len(),
{
    if s.len() > 0 {
        lemma_digits_nonneg(s.drop_last());
    }
}

/// A run of digits is worth at least any of its prefixes.
pub proof fn lemma_digits_prefix(s: Seq<char>, i: int)
    requires
        0 <= i <= s.len(),
        forall|k: int| 0 <= k < s.len() ==> is_digit(#[trigger] s[k]),
    ensures
        digits_value(s.subrange(0, i)) <= digits_value(s),
    decreases s.len(),
{
    if i < s.len() {
        let t = s.drop_last();
        lemma_digits_prefix(t, i);
        assert(t.subrange(0, i) =~= s.subrange(0, i));
        lemma_digits_nonneg(t);
    } else {
        assert(s.subrange(0, i) =~= s);
    }
}

pub open spec fn lift(pre: Seq<char>, r: Option<(Seq<char>, int)>) -> Option<(Seq<char>, int)> {
    match r {
        Some(x) => Some((pre + x.0, x.1)),
        None => None,
    }
}

pub open spec fn lex_result(r: Result<Vec<SpannedToken>, LexerError>) -> Result<Seq<TokAt>, LexErr> {
    match r {
        Ok(v) => Ok(toks_view(v@)),
        Err(e) => Err(e.view()),
    }
}

pub open spec fn phase_result(r: Result<(), LexerError>, st: LexState) -> Result<LexState, LexErr> {
    match r {
        Ok(_) => Ok(st),
        Err(e) => Err(e.view()),
    }
}

pub open spec fn error_ok(r: Result<(), LexerError>) -> bool {
    r matches Err(e) ==> e.message@ == lex_message(e.kind)
}

fn lex_error(kind: LexErrorKind, line: usize, column: usize) -> (r: LexerError)
    ensures
        r.kind == kind,
        r.line == line,
        r.column == column,
        r.message@ == lex_message(kind),
{
    let message = match kind {
        LexErrorKind::UnknownCharacter(c) => {
            let mut m = String::from_str("Unknown character: ");
            push_char(&mut m, c);
            m
        },
        LexErrorKind::UnterminatedString => String::from_str("Unterminated string literal"),
        LexErrorKind::MultipleDecimalPoints => String::from_str("Invalid number: multiple decimal points"),
        LexErrorKind::IntegerOverflow => String::from_str("Invalid integer: out of range"),
        LexErrorKind::UnindentMismatch => String::from_str("Unindent does not match any outer indentation level"),
    };
    LexerError { kind, message, line, column }
}

fn escape_char(c: char) -> (r: char)
    ensures
        r == escaped(c),
{
    if c == 'n' {
        '\n'
    } else if c == 't' {
        '\t'
    } else if c == 'r' {
        '\r'
    } else {
        c
    }
}

/// The token for the word `v[lo..hi]`.
fn word(v: &Vec<char>, lo: usize, hi: usize) -> (t: Token)
    requires
        lo <= hi <= v.len(),
    ensures
        t.view() == word_token(v@.subrange(lo as int, hi as int)),
{
    if spells(v, lo, hi, &['v', 'a', 'r']) {
        Token::Var
    } else if spells(v, lo, hi, &['v', 'a', 'l']) {
        Token::Val
    } else if spells(v, lo, hi, &['d', 'e', 'f']) {
        Token::Def
    } else if spells(v, lo, hi, &['p', 'u', 'b']) {
        Token::Pub
    } else if spells(v, lo, hi, &['p', 'r', 'i', 'n', 't']) {
        Token::Print
    } else if spells(v, lo, hi, &['r', 'e', 't', 'u', 'r', 'n']) {
        Token::Return
    } else if spells(v, lo, hi, &['i', 'f']) {
        Token::If
    } else if spells(v, lo, hi, &['e', 'l', 's', 'e']) {
        Token::Else
    } else if spells(v, lo, hi, &['t', 'r', 'u', 'e']) {
        Token::True
    } else if spells(v, lo, hi, &['f', 'a', 'l', 's', 'e']) {
        Token::False
    } else if spells(v, lo, hi, &['w', 'h', 'i', 'l', 'e']) {
        Token::While
    } else if spells(v, lo, hi, &['f', 'o', 'r']) {
        Token::For
    } else if spells(v, lo, hi, &['i', 'n']) {
        Token::In
    } else if spells(v, lo, hi, &['i', 'm', 'p', 'o', 'r', 't']) {
        Token::Import
    } else if spells(v, lo, hi, &['c', 'l', 'a', 's', 's']) {
        Token::Class
    } else if spells(v, lo, hi, &['t', 'h', 'i', 's']) {
        Token::This
    } else if spells(v, lo, hi, &['t', 'r', 'y']) {
        Token::Try
    } else if spells(v, lo, hi, &['c', 'a', 't', 'c', 'h']) {
        Token::Catch
    } else if spells(v, lo, hi, &['n', 'e', 'w']) {
        Token::New
    } else if spells(v, lo, hi, &['b', 'r', 'e', 'a', 'k']) {
        Token::Break
    } else if spells(v, lo, hi, &['c', 'o', 'n', 't', 'i', 'n', 'u', 'e']) {
        Token::Continue
    } else if spells(v, lo, hi, &['i', 'n', 't']) {
        Token::Type(TypeName::Int)
    } else if spells(v, lo, hi, &['f', 'l', 'o', 'a', 't']) {
        Token::Type(TypeName::Float)
    } else if spells(v, lo, hi, &['s', 't', 'r', 'i', 'n', 'g']) {
        Token::Type(TypeName::String)
    } else if spells(v, lo, hi, &['b', 'o', 'o', 'l']) {
        Token::Type(TypeName::Bool)
    } else if spells(v, lo, hi, &['l', 'i', 's', 't']) {
        Token::Type(TypeName::List)
    } else if spells(v, lo, hi, &['v', 'o', 'i', 'd']) {
        Token::Type(TypeName::Void)
    } else if spells(v, lo, hi, &['d', 'i', 'c', 't']) {
        Token::Type(TypeName::Dict)
    } else {
        Token::Ident(string_of(v, lo, hi))
    }
}

pub struct Lexer {
    input: Vec<char>,
    pos: usize,
    line: usize,
    column: usize,
}

impl Lexer {
    /// The characters being lexed.
    pub closed spec fn source(&self) -> Seq<char> {
        self.input@
    }

    /// The offset of the next character.
    pub closed spec fn offset(&self) -> int {
        self.pos as int
    }

    pub closed spec fn wf(&self) -> bool {
        &&& self.input.len() <= MAX_INPUT
        &&& self.pos <= self.input.len()
        &&& self.line == line_col(self.input@, self.pos as int).0
        &&& self.column == line_col(self.input@, self.pos as int).1
    }

    closed spec fn state(&self, stack: Seq<usize>, toks: Seq<SpannedToken>) -> LexState {
        LexState { pos: self.pos as int, stack: ints(stack), toks: toks_view(toks) }
    }

    pub fn new(input: String) -> (r: Self)
        requires
            input@.len() <= MAX_INPUT,
        ensures
            r.wf(),
            r.source() == input@,
            r.offset() == 0,
    {
        Lexer::from_chars(chars_of(input.as_str()))
    }

    pub fn from_chars(input: Vec<char>) -> (r: Self)
        requires
            input@.len() <= MAX_INPUT,
        ensures
            r.wf(),
            r.source() == input@,
            r.offset() == 0,
    {
        Lexer { input, pos: 0, line: 1, column: 1 }
    }

    /// Moves past one character, keeping line and column.
    pub fn advance(&mut self)
        requires
            old(self).wf(),
        ensures
            final(self).wf(),
            final(self).source() == old(self).source(),
            final(self).offset() == if old(self).offset() < old(self).source().len() {
                old(self).offset() + 1
            } else {
                old(self).offset()
            },
    {
        if self.pos < self.input.len() {
            proof {
                lemma_line_col_bounds(self.input@, self.pos as int);
            }
            if self.input[self.pos] == '\n' {
                self.line = self.line + 1;
                self.column = 1;
            } else {
                self.column = self.column + 1;
            }
            self.pos = self.pos + 1;
        }
    }
    fn skip_to(&mut self, q: usize)
        requires
            old(self).wf(),
            old(self).pos <= q <= old(self).input.len(),
        ensures
            final(self).wf(),
            final(self).input@ == old(self).input@,
            final(self).pos == q,
    {
        while self.pos < q
            invariant
                self.wf(),
                self.input@ == old(self).input@,
                self.pos <= q <= self.input.len(),
            decreases q - self.pos,
        {
            self.advance();
        }
    }

    /// Emits a token at the current position and moves past its `width` characters.
    fn emit_tok(&mut self, tokens: &mut Vec<SpannedToken>, token: Token, width: usize)
        requires
            old(self).wf(),
            old(self).pos + width <= old(self).input.len(),
        ensures
            final(self).wf(),
            final(self).input@ == old(self).input@,
            final(self).pos == old(self).pos + width,
            toks_view(final(tokens)@) == toks_view(old(tokens)@).push(tok_at(old(self).input@, old(self).pos as int, token.view())),
    {
        push_token(tokens, token, self.line, self.column);
        let q = self.pos + width;
        self.skip_to(q);
    }

    /// Indentation at the start of a line.
    fn indent(&mut self, stack: &mut Vec<usize>, tokens: &mut Vec<SpannedToken>) -> (r: Result<(), LexerError>)
        requires
            old(self).wf(),
            old(stack)@.len() >= 1,
        ensures
            final(self).wf(),
            final(self).input@ == old(self).input@,
            final(self).pos >= old(self).pos,
            r is Ok ==> final(stack)@.len() >= 1,
            error_ok(r),
            indent_phase(old(self).input@, old(self).state(old(stack)@, old(tokens)@)) == phase_result(
                r,
                final(self).state(final(stack)@, final(tokens)@),
            ),
    {
        let ghost src = self.input@;
        let ghost st0 = self.state(stack@, tokens@);
        if !(self.pos == 0 || self.input[self.pos - 1] == '\n') {
            return Ok(());
        }
        let start = self.pos;
        let line = self.line;
        let column = self.column;
        let mut q = start;
        let mut w: usize = 0;
        while q < self.input.len() && (self.input[q] == ' ' || self.input[q] == '\t')
            invariant
                start <= q <= self.input.len(),
                self.input.len() <= MAX_INPUT,
                self.input@ == src,
                src == old(self).input@,
                w <= 4 * (q - start),
                indent_scan(src, start as int) == (indent_scan(src, q as int).0, w + indent_scan(src, q as int).1),
            decreases self.input.len() - q,
        {
            if self.input[q] == ' ' {
                w = w + 1;
            } else {
                w = w + 4;
            }
            q = q + 1;
        }
        assert(indent_scan(src, start as int) == (q as int, w as int));
        if q >= self.input.len() || self.input[q] == '\n' || self.input[q] == '\r' || self.input[q] == '#' {
            self.skip_to(q);
            return Ok(());
        }
        let top = stack[stack.len() - 1];
        if w > top {
            stack.push(w);
            push_token(tokens, Token::Indent, line, column);
            assert(ints(stack@) =~= st0.stack.push(w as int));
        } else {
            let ghost s0 = stack@;
            let ghost t0 = tokens@;
            let ghost mut k: nat = 0;
            while stack.len() > 0 && w < stack[stack.len() - 1]
                invariant
                    pop_to(ints(s0), w as int) == (pop_to(ints(stack@), w as int).0, pop_to(ints(stack@), w as int).1 + k),
                    toks_view(tokens@) == toks_view(t0) + dedents(src, start as int, k),
                    line == line_col(src, start as int).0,
                    column == line_col(src, start as int).1,
                decreases stack.len(),
            {
                let ghost sb = stack@;
                stack.pop();
                assert(ints(stack@) =~= ints(sb).drop_last());
                push_token(tokens, Token::Dedent, line, column);
                proof {
                    k = k + 1;
                }
                assert(toks_view(tokens@) =~= toks_view(t0) + dedents(src, start as int, k));
            }
            if stack.len() == 0 || stack[stack.len() - 1] != w {
                return Err(lex_error(LexErrorKind::UnindentMismatch, line, column));
            }
        }
        self.skip_to(q);
        Ok(())
    }

    /// A string or f-string literal; `skip` is the length of its opening.
    fn scan_string(&mut self, tokens: &mut Vec<SpannedToken>, skip: usize, fstring: bool, Ghost(stk): Ghost<Seq<int>>) -> (r: Result<(), LexerError>)
        requires
            old(self).wf(),
            old(self).pos + skip <= old(self).input.len(),
            1 <= skip,
        ensures
            final(self).wf(),
            final(self).input@ == old(self).input@,
            r is Ok ==> final(self).pos > old(self).pos,
            error_ok(r),
            string_token(
                old(self).input@,
                LexState { pos: old(self).pos as int, stack: stk, toks: toks_view(old(tokens)@) },
                old(self).pos + skip,
                fstring,
            ) == phase_result(r, LexState { pos: final(self).pos as int, stack: stk, toks: toks_view(final(tokens)@) }),
    {
        let ghost src = self.input@;
        let p = self.pos;
        let line = self.line;
        let column = self.column;
        let q = p + skip;
        self.skip_to(q);
        let mut s = String::new();
        assert(s@ + Seq::<char>::empty() =~= Seq::<char>::empty());
        loop
            invariant
                self.wf(),
                self.input@ == src,
                src == old(self).input@,
                q <= self.pos,
                p < q,
                p == old(self).pos,
                q == p + skip,
                line == line_col(src, p as int).0,
                column == line_col(src, p as int).1,
                toks_view(tokens@) == toks_view(old(tokens)@),
                str_scan(src, q as int) == lift(s@, str_scan(src, self.pos as int)),
            decreases self.input.len() - self.pos,
        {
            if self.pos >= self.input.len() {
                return Err(lex_error(LexErrorKind::UnterminatedString, line, column));
            }
            let c = self.input[self.pos];
            if c == '"' {
                self.advance();
                let t = if fstring { Token::FString(s) } else { Token::Str(s) };
                push_token(tokens, t, line, column);
                return Ok(());
            }
            let ghost before = s@;
            let ghost at = self.pos as int;
            if c == '\\' {
                if self.pos + 1 >= self.input.len() {
                    return Err(lex_error(LexErrorKind::UnterminatedString, line, column));
                }
                let e = escape_char(self.input[self.pos + 1]);
                push_char(&mut s, e);
                self.advance();
                self.advance();
                assert(lift(before, str_scan(src, at)) == lift(s@, str_scan(src, self.pos as int))) by {
                    match str_scan(src, at + 2) {
                        Some(x) => {
                            assert(before + (seq![e] + x.0) =~= s@ + x.0);
                        },
                        None => {},
                    }
                }
            } else {
                push_char(&mut s, c);
                self.advance();
                assert(lift(before, str_scan(src, at)) == lift(s@, str_scan(src, self.pos as int))) by {
                    match str_scan(src, at + 1) {
                        Some(x) => {
                            assert(before + (seq![c] + x.0) =~= s@ + x.0);
                        },
                        None => {},
                    }
                }
            }
        }
    }

    /// A number literal.
    fn scan_number(&mut self, tokens: &mut Vec<SpannedToken>, Ghost(stk): Ghost<Seq<int>>) -> (r: Result<(), LexerError>)
        requires
            old(self).wf(),
            old(self).pos < old(self).input.len(),
            is_digit(old(self).input@[old(self).pos as int]),
        ensures
            final(self).wf(),
            final(self).input@ == old(self).input@,
            r is Ok ==> final(self).pos > old(self).pos,
            error_ok(r),
            number_token(old(self).input@, LexState { pos: old(self).pos as int, stack: stk, toks: toks_view(old(tokens)@) })
                == phase_result(r, LexState { pos: final(self).pos as int, stack: stk, toks: toks_view(final(tokens)@) }),
    {
        let ghost src = self.input@;
        let p = self.pos;
        let line = self.line;
        let column = self.column;
        let mut dot = false;
        loop
            invariant
                self.wf(),
                self.input@ == src,
                src == old(self).input@,
                p <= self.pos,
                p == old(self).pos,
                p < src.len(),
                line == line_col(src, p as int).0,
                column == line_col(src, p as int).1,
                is_digit(src[p as int]),
                num_scan(src, p as int, false) == num_scan(src, self.pos as int, dot),
                !dot ==> forall|k: int| p <= k < self.pos ==> is_digit(#[trigger] src[k]),
            ensures
                self.wf(),
                self.input@ == src,
                src == old(self).input@,
                p < self.pos,
                num_scan(src, p as int, false) == Ok::<(int, bool), ()>((self.pos as int, dot)),
                !dot ==> forall|k: int| p <= k < self.pos ==> is_digit(#[trigger] src[k]),
            decreases self.input.len() - self.pos,
        {
            if self.pos >= self.input.len() {
                break;
            }
            let c = self.input[self.pos];
            if '0' <= c && c <= '9' {
                self.advance();
            } else if c == '.' && !(self.pos + 1 < self.input.len() && self.input[self.pos + 1] == '.') {
                if dot {
                    return Err(lex_error(LexErrorKind::MultipleDecimalPoints, line, column));
                }
                dot = true;
                self.advance();
            } else {
                break;
            }
        }
        let e = self.pos;
        if dot {
            push_token(tokens, Token::Float(string_of(&self.input, p, e)), line, column);
            return Ok(());
        }
        let ghost text = src.subrange(p as int, e as int);
        let mut v: u128 = 0;
        let mut i = p;
        while i < e
            invariant
                p <= i <= e <= src.len(),
                p < e,
                line == line_col(src, p as int).0,
                column == line_col(src, p as int).1,
                e == self.pos,
                p == old(self).pos,
                !dot,
                num_scan(src, p as int, false) == Ok::<(int, bool), ()>((e as int, false)),
                self.wf(),
                self.input@ == src,
                src == old(self).input@,
                text == src.subrange(p as int, e as int),
                forall|k: int| p <= k < e ==> is_digit(#[trigger] src[k]),
                v == digits_value(src.subrange(p as int, i as int)),
                v <= i64::MAX,
            decreases e - i,
        {
            let d = (self.input[i] as u32 - 48) as u128;
            assert(src.subrange(p as int, i + 1).drop_last() =~= src.subrange(p as int, i as int));
            if v * 10 + d > i64::MAX as u128 {
                proof {
                    assert(text.subrange(0, i + 1 - p) =~= src.subrange(p as int, i + 1));
                    assert forall|k: int| 0 <= k < text.len() implies is_digit(#[trigger] text[k]) by {
                        assert(is_digit(src[p + k]));
                    }
                    assert(d == digit_value(src[i as int]));
                    assert(src.subrange(p as int, i + 1).last() == src[i as int]);
                    assert(digits_value(src.subrange(p as int, i + 1)) == v * 10 + d);
                    lemma_digits_prefix(text, i + 1 - p);
                    assert(digits_value(text) > i64::MAX);
                }
                return Err(lex_error(LexErrorKind::IntegerOverflow, line, column));
            }
            v = v * 10 + d;
            i = i + 1;
        }
        push_token(tokens, Token::Int(v as i64), line, column);
        Ok(())
    }

    /// One token, skipped character or comment at the current position.
    fn scan(&mut self, tokens: &mut Vec<SpannedToken>, Ghost(stk): Ghost<Seq<int>>) -> (r: Result<(), LexerError>)
        requires
            old(self).wf(),
            old(self).pos < old(self).input.len(),
        ensures
            final(self).wf(),
            final(self).input@ == old(self).input@,
            r is Ok ==> final(self).pos > old(self).pos,
            error_ok(r),
            scan_phase(old(self).input@, LexState { pos: old(self).pos as int, stack: stk, toks: toks_view(old(tokens)@) })
                == phase_result(r, LexState { pos: final(self).pos as int, stack: stk, toks: toks_view(final(tokens)@) }),
    {
        let ghost src = self.input@;
        let p = self.pos;
        let c = self.input[p];
        let n = if p + 1 < self.input.len() { self.input[p + 1] } else { '\0' };
        if c == ' ' || c == '\r' || c == '\t' {
            self.advance();
            Ok(())
        } else if c == '\n' {
            self.emit_tok(tokens, Token::Newline, 1);
            Ok(())
        } else if c == '#' {
            while self.pos < self.input.len() && self.input[self.pos] != '\n'
                invariant
                    self.wf(),
                    self.input@ == src,
                    src == old(self).input@,
                    p < self.pos || self.pos == p,
                    line_end(src, p as int) == line_end(src, self.pos as int),
                decreases self.input.len() - self.pos,
            {
                self.advance();
            }
            Ok(())
        } else if c == ':' {
            self.emit_tok(tokens, Token::Colon, 1);
            Ok(())
        } else if c == '(' {
            self.emit_tok(tokens, Token::LParen, 1);
            Ok(())
        } else if c == ')' {
            self.emit_tok(tokens, Token::RParen, 1);
            Ok(())
        } else if c == '[' {
            self.emit_tok(tokens, Token::LBracket, 1);
            Ok(())
        } else if c == ']' {
            self.emit_tok(tokens, Token::RBracket, 1);
            Ok(())
        } else if c == '{' {
            self.emit_tok(tokens, Token::LBrace, 1);
            Ok(())
        } else if c == '}' {
            self.emit_tok(tokens, Token::RBrace, 1);
            Ok(())
        } else if c == ',' {
            self.emit_tok(tokens, Token::Comma, 1);
            Ok(())
        } else if c == '=' {
            if n == '=' {
                self.emit_tok(tokens, Token::Op(BinaryOperator::Equal), 2);
            } else {
                self.emit_tok(tokens, Token::Assign, 1);
            }
            Ok(())
        } else if c == '-' {
            if n == '>' {
                self.emit_tok(tokens, Token::Arrow, 2);
            } else {
                self.emit_tok(tokens, Token::Op(BinaryOperator::Subtract), 1);
            }
            Ok(())
        } else if c == '.' {
            if n == '.' {
                self.emit_tok(tokens, Token::Range, 2);
            } else {
                self.emit_tok(tokens, Token::Dot, 1);
            }
            Ok(())
        } else if c == '>' {
            if n == '=' {
                self.emit_tok(tokens, Token::Op(BinaryOperator::GreaterThanEqual), 2);
            } else {
                self.emit_tok(tokens, Token::Op(BinaryOperator::GreaterThan), 1);
            }
            Ok(())
        } else if c == '<' {
            if n == '=' {
                self.emit_tok(tokens, Token::Op(BinaryOperator::LessThanEqual), 2);
            } else {
                self.emit_tok(tokens, Token::Op(BinaryOperator::LessThan), 1);
            }
            Ok(())
        } else if c == '!' {
            if n == '=' {
                self.emit_tok(tokens, Token::Op(BinaryOperator::NotEqual), 2);
            } else {
                self.emit_tok(tokens, Token::Bang, 1);
            }
            Ok(())
        } else if c == '+' {
            self.emit_tok(tokens, Token::Op(BinaryOperator::Add), 1);
            Ok(())
        } else if c == '*' {
            self.emit_tok(tokens, Token::Op(BinaryOperator::Multiply), 1);
            Ok(())
        } else if c == '/' {
            self.emit_tok(tokens, Token::Op(BinaryOperator::Divide), 1);
            Ok(())
        } else if c == '"' {
            self.scan_string(tokens, 1, false, Ghost(stk))
        } else if c == 'f' && n == '"' {
            self.scan_string(tokens, 2, true, Ghost(stk))
        } else if is_ident_start(c) {
            let line = self.line;
            let column = self.column;
            self.advance();
            while self.pos < self.input.len() && is_ident_char(self.input[self.pos])
                invariant
                    self.wf(),
                    self.input@ == src,
                    src == old(self).input@,
                    p < self.pos,
                    ident_end(src, p + 1) == ident_end(src, self.pos as int),
                decreases self.input.len() - self.pos,
            {
                self.advance();
            }
            let t = word(&self.input, p, self.pos);
            push_token(tokens, t, line, column);
            Ok(())
        } else if '0' <= c && c <= '9' {
            self.scan_number(tokens, Ghost(stk))
        } else {
            Err(lex_error(LexErrorKind::UnknownCharacter(c), self.line, self.column))
        }
    }

    /// Lexes the rest of the input.
    pub fn tokenize(&mut self) -> (r: Result<Vec<SpannedToken>, LexerError>)
        requires
            old(self).wf(),
        ensures
            final(self).wf(),
            final(self).source() == old(self).source(),
            lex_result(r) == lex_run(old(self).source(), initial(old(self).offset())),
            r matches Err(e) ==> e.message@ == lex_message(e.kind),
    {
        let ghost src = self.input@;
        let ghost st0 = initial(self.pos as int);
        let mut tokens: Vec<SpannedToken> = Vec::new();
        let mut stack: Vec<usize> = Vec::new();
        stack.push(0);
        assert(self.state(stack@, tokens@) =~= st0) by {
            assert(ints(stack@) =~= seq![0int]);
            assert(toks_view(tokens@) =~= Seq::<TokAt>::empty());
        }
        while self.pos < self.input.len()
            invariant
                self.wf(),
                self.input@ == src,
                src == old(self).input@,
                stack@.len() >= 1,
                st0 == initial(old(self).pos as int),
                lex_run(src, st0) == lex_run(src, self.state(stack@, tokens@)),
            decreases self.input.len() - self.pos,
        {
            let ghost before = self.state(stack@, tokens@);
            match self.indent(&mut stack, &mut tokens) {
                Err(e) => {
                    assert(step(src, before) == Err::<LexState, LexErr>(e.view()));
                    return Err(e);
                },
                Ok(_) => {},
            }
            if self.pos < self.input.len() {
                let ghost stk = ints(stack@);
                match self.scan(&mut tokens, Ghost(stk)) {
                    Err(e) => {
                        assert(step(src, before) == Err::<LexState, LexErr>(e.view()));
                        return Err(e);
                    },
                    Ok(_) => {},
                }
            }
            assert(step(src, before) == Ok::<LexState, LexErr>(self.state(stack@, tokens@)));
        }
        let ghost s0 = stack@;
        let ghost t0 = tokens@;
        let line = self.line;
        let column = self.column;
        let ghost mut k: nat = 0;
        while stack.len() > 1
            invariant
                stack@.len() >= 1,
                stack@.len() + k == s0.len(),
                toks_view(tokens@) == toks_view(t0) + dedents(src, src.len() as int, k),
                line == line_col(src, src.len() as int).0,
                column == line_col(src, src.len() as int).1,
            decreases stack.len(),
        {
            stack.pop();
            push_token(&mut tokens, Token::Dedent, line, column);
            proof {
                k = k + 1;
            }
            assert(toks_view(tokens@) =~= toks_view(t0) + dedents(src, src.len() as int, k));
        }
        push_token(&mut tokens, Token::Eof, line, column);
        assert(toks_view(tokens@) =~= finish(src, self.state(s0, t0)));
        Ok(tokens)
    }
}

} // verus!
