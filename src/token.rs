//! Tokens, as the lexer emits them and the parser reads them.
use vstd::prelude::*;
use crate::ast::BinaryOperator;

verus! {

/// The built-in type names.
#[derive(Debug, Clone, Copy, PartialEq, Eq, Structural)]
pub enum TypeName {
    Int,
    Float,
    String,
    Bool,
    List,
    Void,
    Dict,
}

/// The kind of a token, with its payload.
#[derive(Debug, PartialEq)]
pub enum Token {
    Var,
    Val,
    Def,
    Pub,
    Print,
    Return,
    If,
    Else,
    True,
    False,
    While,
    For,
    In,
    Import,
    Class,
    This,
    Try,
    Catch,
    New,
    Break,
    Continue,
    Int(i64),
    /// The digits and the decimal point as written.
    Float(String),
    Str(String),
    /// The body of an f-string, placeholders not yet parsed.
    FString(String),
    Type(TypeName),
    Ident(String),
    LParen,
    RParen,
    LBracket,
    RBracket,
    LBrace,
    RBrace,
    Comma,
    Colon,
    Assign,
    Arrow,
    Dot,
    Range,
    Newline,
    Op(BinaryOperator),
    /// A `!` without `=` after it; no rule of the grammar takes it.
    Bang,
    Indent,
    Dedent,
    Eof,
}

/// A token with the 1-based line and column of its first character.
#[derive(Debug, PartialEq)]
pub struct SpannedToken {
    pub token: Token,
    pub line: usize,
    pub column: usize,
}

/// The model of a token kind.
pub enum Tok {
    Var,
    Val,
    Def,
    Pub,
    Print,
    Return,
    If,
    Else,
    True,
    False,
    While,
    For,
    In,
    Import,
    Class,
    This,
    Try,
    Catch,
    New,
    Break,
    Continue,
    Int(i64),
    Float(Seq<char>),
    Str(Seq<char>),
    FString(Seq<char>),
    Type(TypeName),
    Ident(Seq<char>),
    LParen,
    RParen,
    LBracket,
    RBracket,
    LBrace,
    RBrace,
    Comma,
    Colon,
    Assign,
    Arrow,
    Dot,
    Range,
    Newline,
    Op(BinaryOperator),
    Bang,
    Indent,
    Dedent,
    Eof,
}

/// The model of a positioned token.
pub struct TokAt {
    pub tok: Tok,
    pub line: int,
    pub col: int,
}

impl Token {
    pub open spec fn view(&self) -> Tok {
        match self {
            Token::Var => Tok::Var,
            Token::Val => Tok::Val,
            Token::Def => Tok::Def,
            Token::Pub => Tok::Pub,
            Token::Print => Tok::Print,
            Token::Return => Tok::Return,
            Token::If => Tok::If,
            Token::Else => Tok::Else,
            Token::True => Tok::True,
            Token::False => Tok::False,
            Token::While => Tok::While,
            Token::For => Tok::For,
            Token::In => Tok::In,
            Token::Import => Tok::Import,
            Token::Class => Tok::Class,
            Token::This => Tok::This,
            Token::Try => Tok::Try,
            Token::Catch => Tok::Catch,
            Token::New => Tok::New,
            Token::Break => Tok::Break,
            Token::Continue => Tok::Continue,
            Token::Int(n) => Tok::Int(*n),
            Token::Float(s) => Tok::Float(s@),
            Token::Str(s) => Tok::Str(s@),
            Token::FString(s) => Tok::FString(s@),
            Token::Type(t) => Tok::Type(*t),
            Token::Ident(s) => Tok::Ident(s@),
            Token::LParen => Tok::LParen,
            Token::RParen => Tok::RParen,
            Token::LBracket => Tok::LBracket,
            Token::RBracket => Tok::RBracket,
            Token::LBrace => Tok::LBrace,
            Token::RBrace => Tok::RBrace,
            Token::Comma => Tok::Comma,
            Token::Colon => Tok::Colon,
            Token::Assign => Tok::Assign,
            Token::Arrow => Tok::Arrow,
            Token::Dot => Tok::Dot,
            Token::Range => Tok::Range,
            Token::Newline => Tok::Newline,
            Token::Op(o) => Tok::Op(*o),
            Token::Bang => Tok::Bang,
            Token::Indent => Tok::Indent,
            Token::Dedent => Tok::Dedent,
            Token::Eof => Tok::Eof,
        }
    }
}

impl SpannedToken {
    pub open spec fn view(&self) -> TokAt {
        TokAt { tok: self.token.view(), line: self.line as int, col: self.column as int }
    }
}

pub open spec fn toks_view(v: Seq<SpannedToken>) -> Seq<TokAt> {
    v.map_values(|t: SpannedToken| t.view())
}

/// Appends a token at the given position.
pub fn push_token(v: &mut Vec<SpannedToken>, token: Token, line: usize, column: usize)
    ensures
        toks_view(final(v)@) == toks_view(old(v)@).push(TokAt { tok: token.view(), line: line as int, col: column as int }),
{
    let ghost t = token.view();
    v.push(SpannedToken { token, line, column });
    assert(toks_view(v@) =~= toks_view(old(v)@).push(TokAt { tok: t, line: line as int, col: column as int }));
}

} // verus!
