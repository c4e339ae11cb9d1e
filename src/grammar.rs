//! The grammar as spec functions over token sequences: what the parser
//! returns, and where it stops, for every token sequence.
//!
//! Each function takes the tokens, a position and an f-string nesting budget,
//! and returns the node with the position after it, or the first error.
//! Where a later step starts from a position that an earlier sub-parse
//! returned, the definition tests that the sub-parse moved forward (`fwd`,
//! `ahead`) so that it terminates; every successful sub-parse does move
//! forward (the parser's contracts show it), so the other branch (`stuck`) is
//! never taken.
use vstd::prelude::*;
use crate::ast::{BinaryOperator, TypeV, LitV, ExprV, DeclV, FunV, MemberV, StmtV};
use crate::token::{TypeName, Tok, TokAt};
use crate::lexer::{lex, MAX_INPUT};

verus! {

/// How deeply f-strings may nest inside f-string placeholders. Each level
/// takes at least three characters of source, so no source the lexer takes
/// reaches it.
pub const MAX_NESTING: usize = usize::MAX;

/// A token that the parser required and did not find.
#[derive(Debug, Clone, Copy, PartialEq, Eq, Structural)]
pub enum Expected {
    Colon,
    Newline,
    Indent,
    Dedent,
    LParen,
    RParen,
    LBracket,
    RBracket,
    RBrace,
    Comma,
    Assign,
    In,
    Range,
    Catch,
}

#[derive(Debug, Clone, Copy, PartialEq, Eq, Structural)]
pub enum ParseErrorKind {
    Expected(Expected),
    ExpectedIdentifier,
    ExpectedType,
    ExpectedPrimary,
    ExpectedStringLiteral,
    /// `pub` not followed by `val`, `var`, `def` or `class`.
    ExpectedPublicItem,
    /// A class member that is not `val`, `var` or `def`.
    ExpectedMember,
    /// An f-string placeholder that is unclosed or not one expression.
    MalformedPlaceholder,
}

/// The model of a syntax error.
pub struct PErr {
    pub kind: ParseErrorKind,
    pub line: int,
    pub col: int,
}

pub open spec fn expected_tok(e: Expected) -> Tok {
    match e {
        Expected::Colon => Tok::Colon,
        Expected::Newline => Tok::Newline,
        Expected::Indent => Tok::Indent,
        Expected::Dedent => Tok::Dedent,
        Expected::LParen => Tok::LParen,
        Expected::RParen => Tok::RParen,
        Expected::LBracket => Tok::LBracket,
        Expected::RBracket => Tok::RBracket,
        Expected::RBrace => Tok::RBrace,
        Expected::Comma => Tok::Comma,
        Expected::Assign => Tok::Assign,
        Expected::In => Tok::In,
        Expected::Range => Tok::Range,
        Expected::Catch => Tok::Catch,
    }
}

/// The token at `i`; EOF past the end.
pub open spec fn tk(ts: Seq<TokAt>, i: int) -> Tok {
    if 0 <= i < ts.len() {
        ts[i].tok
    } else {
        Tok::Eof
    }
}

/// An error at token `i`; past the end, at the last token.
pub open spec fn perr(ts: Seq<TokAt>, i: int, k: ParseErrorKind) -> PErr {
    if 0 <= i < ts.len() {
        PErr { kind: k, line: ts[i].line, col: ts[i].col }
    } else if ts.len() > 0 {
        PErr { kind: k, line: ts.last().line, col: ts.last().col }
    } else {
        PErr { kind: k, line: 1, col: 1 }
    }
}

/// Tokens left from `i`.
pub open spec fn left(ts: Seq<TokAt>, i: int) -> nat {
    if i < 0 {
        ts.len() + 1
    } else if i < ts.len() {
        (ts.len() - i) as nat
    } else {
        0
    }
}

/// A sub-parse from `i` that ended at `j` consumed a token.
pub open spec fn fwd(ts: Seq<TokAt>, i: int, j: int) -> bool {
    0 <= i < ts.len() && i < j
}

pub open spec fn expect(ts: Seq<TokAt>, i: int, e: Expected) -> Result<int, PErr> {
    if tk(ts, i) == expected_tok(e) {
        Ok(i + 1)
    } else {
        Err(perr(ts, i, ParseErrorKind::Expected(e)))
    }
}

/// Skips one token of the given kind if it is there.
pub open spec fn opt(ts: Seq<TokAt>, i: int, t: Tok) -> int {
    if tk(ts, i) == t {
        i + 1
    } else {
        i
    }
}

pub open spec fn precedence(op: BinaryOperator) -> int {
    match op {
        BinaryOperator::Multiply | BinaryOperator::Divide => 5,
        BinaryOperator::Add | BinaryOperator::Subtract => 4,
        _ => 3,
    }
}

pub open spec fn parse_type(ts: Seq<TokAt>, i: int) -> Result<(TypeV, int), PErr>
    decreases left(ts, i),
{
    match tk(ts, i) {
        Tok::Type(TypeName::Int) => Ok((TypeV::Int, i + 1)),
        Tok::Type(TypeName::Float) => Ok((TypeV::Float, i + 1)),
        Tok::Type(TypeName::String) => Ok((TypeV::String, i + 1)),
        Tok::Type(TypeName::Bool) => Ok((TypeV::Bool, i + 1)),
        Tok::Type(TypeName::Void) => Ok((TypeV::Void, i + 1)),
        Tok::Type(TypeName::List) => match expect(ts, i + 1, Expected::LBracket) {
            Err(e) => Err(e),
            Ok(j) => match parse_type(ts, j) {
                Err(e) => Err(e),
                Ok((t, k)) => match expect(ts, k, Expected::RBracket) {
                    Err(e) => Err(e),
                    Ok(m) => Ok((TypeV::List(Box::new(t)), m)),
                },
            },
        },
        Tok::Type(TypeName::Dict) => match expect(ts, i + 1, Expected::LBracket) {
            Err(e) => Err(e),
            Ok(j) => match parse_type(ts, j) {
                Err(e) => Err(e),
                Ok((kt, k)) => match expect(ts, k, Expected::Comma) {
                    Err(e) => Err(e),
                    Ok(m) => if fwd(ts, i, k) {
                        match parse_type(ts, m) {
                            Err(e) => Err(e),
                            Ok((vt, n)) => match expect(ts, n, Expected::RBracket) {
                                Err(e) => Err(e),
                                Ok(q) => Ok((TypeV::Dict(Box::new(kt), Box::new(vt)), q)),
                            },
                        }
                    } else {
                        Err(perr(ts, i, ParseErrorKind::ExpectedType))
                    },
                },
            },
        },
        Tok::Ident(n) => Ok((TypeV::Class(n), i + 1)),
        _ => Err(perr(ts, i, ParseErrorKind::ExpectedType)),
    }
}

/// A piece of an f-string body: literal text, or the source of a placeholder.
pub enum Part {
    Text(Seq<char>),
    Hole(Seq<char>),
}

/// End of the literal text from `k`: the next `{`, or the end.
pub open spec fn text_end(body: Seq<char>, k: int) -> int
    decreases body.len() - k,
{
    if 0 <= k < body.len() && body[k] != '{' {
        text_end(body, k + 1)
    } else {
        k
    }
}

/// The `}` that closes a placeholder, with `depth` braces open at `j`.
pub open spec fn close_brace(body: Seq<char>, j: int, depth: nat) -> Option<int>
    decreases body.len() - j,
{
    if j < 0 || j >= body.len() {
        None
    } else if body[j] == '{' {
        close_brace(body, j + 1, depth + 1)
    } else if body[j] == '}' {
        if depth <= 1 {
            Some(j)
        } else {
            close_brace(body, j + 1, (depth - 1) as nat)
        }
    } else {
        close_brace(body, j + 1, depth)
    }
}

/// The pieces of an f-string body from `k`: maximal text runs and placeholders.
/// `None` if a placeholder is not closed.
pub open spec fn fparts(body: Seq<char>, k: int) -> Option<Seq<Part>>
    decreases body.len() - k,
{
    if k < 0 || k >= body.len() {
        Some(Seq::empty())
    } else if body[k] == '{' {
        match close_brace(body, k + 1, 1) {
            None => None,
            Some(c) => if k < c < body.len() {
                match fparts(body, c + 1) {
                    Some(rest) => Some(seq![Part::Hole(body.subrange(k + 1, c))] + rest),
                    None => None,
                }
            } else {
                None
            },
        }
    } else {
        let e = text_end(body, k);
        if k < e <= body.len() {
            match fparts(body, e) {
                Some(rest) => Some(seq![Part::Text(body.subrange(k, e))] + rest),
                None => None,
            }
        } else {
            None
        }
    }
}

pub open spec fn str_lit(s: Seq<char>) -> ExprV {
    ExprV::Lit(LitV::Str(s))
}

/// `to_string(e)`.
pub open spec fn stringify(e: ExprV) -> ExprV {
    ExprV::Call(Box::new(ExprV::Ident("to_string"@)), seq![e])
}

pub open spec fn concat(a: ExprV, b: ExprV) -> ExprV {
    ExprV::Bin(BinaryOperator::Add, Box::new(a), Box::new(b))
}

pub open spec fn with_item<T>(x: T, r: Result<(Seq<T>, int), PErr>) -> Result<(Seq<T>, int), PErr> {
    match r {
        Ok((rest, j)) => Ok((seq![x] + rest, j)),
        Err(e) => Err(e),
    }
}

pub open spec fn expr(ts: Seq<TokAt>, i: int, b: nat) -> Result<(ExprV, int), PErr>
    decreases b, left(ts, i), 9nat,
{
    binop(ts, i, 0, b)
}

/// Precedence climbing: a primary, then operators of at least `minp`.
pub open spec fn binop(ts: Seq<TokAt>, i: int, minp: int, b: nat) -> Result<(ExprV, int), PErr>
    decreases b, left(ts, i), 8nat,
{
    match primary(ts, i, b) {
        Err(e) => Err(e),
        Ok((l, j)) => if fwd(ts, i, j) {
            climb(ts, j, minp, l, b)
        } else {
            Ok((l, j))
        },
    }
}

pub open spec fn climb(ts: Seq<TokAt>, j: int, minp: int, l: ExprV, b: nat) -> Result<(ExprV, int), PErr>
    decreases b, left(ts, j), 6nat,
{
    match tk(ts, j) {
        Tok::Op(op) => if precedence(op) >= minp {
            match binop(ts, j + 1, precedence(op) + 1, b) {
                Err(e) => Err(e),
                Ok((r, k)) => if fwd(ts, j, k) {
                    climb(ts, k, minp, ExprV::Bin(op, Box::new(l), Box::new(r)), b)
                } else {
                    Ok((l, j))
                },
            }
        } else {
            Ok((l, j))
        },
        _ => Ok((l, j)),
    }
}

/// Comma-separated expressions, at least one.
pub open spec fn expr_list(ts: Seq<TokAt>, i: int, b: nat) -> Result<(Seq<ExprV>, int), PErr>
    decreases b, left(ts, i), 10nat,
{
    match expr(ts, i, b) {
        Err(e) => Err(e),
        Ok((x, j)) => if tk(ts, j) is Comma && fwd(ts, i, j) {
            with_item(x, expr_list(ts, j + 1, b))
        } else {
            Ok((seq![x], j))
        },
    }
}

/// Arguments up to a closing `)`, which is then consumed.
pub open spec fn call_args(ts: Seq<TokAt>, i: int, b: nat) -> Result<(Seq<ExprV>, int), PErr>
    decreases b, left(ts, i), 11nat,
{
    if tk(ts, i) is RParen {
        Ok((Seq::empty(), i + 1))
    } else {
        match expr_list(ts, i, b) {
            Err(e) => Err(e),
            Ok((xs, j)) => match expect(ts, j, Expected::RParen) {
                Err(e) => Err(e),
                Ok(k) => Ok((xs, k)),
            },
        }
    }
}

/// `key : value` entries separated by `,` (each optionally followed by a newline).
pub open spec fn dict_entries(ts: Seq<TokAt>, i: int, b: nat) -> Result<(Seq<(ExprV, ExprV)>, int), PErr>
    decreases b, left(ts, i), 10nat,
{
    match expr(ts, i, b) {
        Err(e) => Err(e),
        Ok((key, j)) => match expect(ts, j, Expected::Colon) {
            Err(e) => Err(e),
            Ok(k) => if fwd(ts, i, j) {
                match expr(ts, k, b) {
                    Err(e) => Err(e),
                    Ok((val, m)) => if tk(ts, m) is Comma && fwd(ts, k, m) {
                        with_item((key, val), dict_entries(ts, opt(ts, m + 1, Tok::Newline), b))
                    } else {
                        Ok((seq![(key, val)], m))
                    },
                }
            } else {
                Err(perr(ts, i, ParseErrorKind::ExpectedPrimary))
            },
        },
    }
}

/// The calls, indexings and member accesses that follow `e`.
pub open spec fn postfix(ts: Seq<TokAt>, i: int, e: ExprV, b: nat) -> Result<(ExprV, int), PErr>
    decreases b, left(ts, i), 5nat,
{
    match tk(ts, i) {
        Tok::LParen => match call_args(ts, i + 1, b) {
            Err(err) => Err(err),
            Ok((args, j)) => if fwd(ts, i, j) {
                postfix(ts, j, ExprV::Call(Box::new(e), args), b)
            } else {
                Ok((e, i))
            },
        },
        Tok::LBracket => match expr(ts, i + 1, b) {
            Err(err) => Err(err),
            Ok((x, j)) => match expect(ts, j, Expected::RBracket) {
                Err(err) => Err(err),
                Ok(k) => if fwd(ts, i, k) {
                    postfix(ts, k, ExprV::Index(Box::new(e), Box::new(x)), b)
                } else {
                    Ok((e, i))
                },
            },
        },
        Tok::Dot => match tk(ts, i + 1) {
            Tok::Ident(n) => postfix(ts, i + 2, ExprV::Get(Box::new(e), n), b),
            _ => Err(perr(ts, i + 1, ParseErrorKind::ExpectedIdentifier)),
        },
        _ => Ok((e, i)),
    }
}

/// A placeholder's source as one expression, in a fresh lexer and parser.
pub open spec fn hole_expr(h: Seq<char>, b: nat, at: PErr) -> Result<ExprV, PErr>
    decreases b, 0nat, 0nat,
{
    if b == 0 || h.len() > MAX_INPUT {
        Err(at)
    } else {
        match lex(h) {
            Err(_) => Err(at),
            Ok(ts) => match expr(ts, 0, (b - 1) as nat) {
                Err(_) => Err(at),
                Ok((e, j)) => if tk(ts, j) is Eof {
                    Ok(e)
                } else {
                    Err(at)
                },
            },
        }
    }
}

/// Adds each piece to `acc`, left to right.
pub open spec fn fold_parts(ps: Seq<Part>, acc: ExprV, b: nat, at: PErr) -> Result<ExprV, PErr>
    decreases b, 0nat, ps.len(),
{
    if ps.len() == 0 {
        Ok(acc)
    } else {
        match ps[0] {
            Part::Text(t) => fold_parts(ps.drop_first(), concat(acc, str_lit(t)), b, at),
            Part::Hole(h) => match hole_expr(h, b, at) {
                Err(e) => Err(e),
                Ok(x) => fold_parts(ps.drop_first(), concat(acc, stringify(x)), b, at),
            },
        }
    }
}

/// The expression an f-string body stands for.
pub open spec fn fstring(ps: Seq<Part>, b: nat, at: PErr) -> Result<ExprV, PErr>
    decreases b, 0nat, ps.len() + 1,
{
    if ps.len() == 0 {
        Ok(str_lit(Seq::empty()))
    } else {
        match ps[0] {
            Part::Text(t) => fold_parts(ps.drop_first(), str_lit(t), b, at),
            Part::Hole(_) => fold_parts(ps, str_lit(Seq::empty()), b, at),
        }
    }
}

pub open spec fn primary(ts: Seq<TokAt>, i: int, b: nat) -> Result<(ExprV, int), PErr>
    decreases b, left(ts, i), 7nat,
{
    match tk(ts, i) {
        Tok::Int(n) => postfix(ts, i + 1, ExprV::Lit(LitV::Int(n)), b),
        Tok::Float(s) => postfix(ts, i + 1, ExprV::Lit(LitV::Float(s)), b),
        Tok::Str(s) => postfix(ts, i + 1, str_lit(s), b),
        Tok::True => postfix(ts, i + 1, ExprV::Lit(LitV::Bool(true)), b),
        Tok::False => postfix(ts, i + 1, ExprV::Lit(LitV::Bool(false)), b),
        Tok::FString(body) => {
            let at = perr(ts, i, ParseErrorKind::MalformedPlaceholder);
            match fparts(body, 0) {
                None => Err(at),
                Some(ps) => match fstring(ps, b, at) {
                    Err(e) => Err(e),
                    Ok(x) => postfix(ts, i + 1, x, b),
                },
            }
        },
        Tok::Ident(n) => postfix(ts, i + 1, ExprV::Ident(n), b),
        Tok::This => postfix(ts, i + 1, ExprV::This, b),
        Tok::New => match tk(ts, i + 1) {
            Tok::Ident(n) => match expect(ts, i + 2, Expected::LParen) {
                Err(e) => Err(e),
                Ok(j) => match call_args(ts, j, b) {
                    Err(e) => Err(e),
                    Ok((args, k)) => if fwd(ts, i, k) {
                        postfix(ts, k, ExprV::New(n, args), b)
                    } else {
                        Err(stuck(ts, i))
                    },
                },
            },
            _ => Err(perr(ts, i + 1, ParseErrorKind::ExpectedIdentifier)),
        },
        Tok::LParen => match expr(ts, i + 1, b) {
            Err(e) => Err(e),
            Ok((x, j)) => match expect(ts, j, Expected::RParen) {
                Err(e) => Err(e),
                Ok(k) => if fwd(ts, i, k) {
                    postfix(ts, k, x, b)
                } else {
                    Err(stuck(ts, i))
                },
            },
        },
        Tok::LBracket => if tk(ts, i + 1) is RBracket {
            postfix(ts, i + 2, ExprV::List(Seq::empty()), b)
        } else {
            match expr_list(ts, i + 1, b) {
                Err(e) => Err(e),
                Ok((xs, j)) => match expect(ts, j, Expected::RBracket) {
                    Err(e) => Err(e),
                    Ok(k) => if fwd(ts, i, k) {
                        postfix(ts, k, ExprV::List(xs), b)
                    } else {
                        Err(stuck(ts, i))
                    },
                },
            }
        },
        Tok::LBrace => {
            let j = opt(ts, opt(ts, i + 1, Tok::Newline), Tok::Indent);
            if tk(ts, j) is RBrace {
                postfix(ts, j + 1, ExprV::Dict(Seq::empty()), b)
            } else {
                match dict_entries(ts, j, b) {
                    Err(e) => Err(e),
                    Ok((es, k)) => {
                        let m = opt(ts, opt(ts, k, Tok::Newline), Tok::Dedent);
                        match expect(ts, m, Expected::RBrace) {
                            Err(e) => Err(e),
                            Ok(q) => if fwd(ts, i, q) {
                                postfix(ts, q, ExprV::Dict(es), b)
                            } else {
                                Err(stuck(ts, i))
                            },
                        }
                    },
                }
            }
        },
        _ => Err(perr(ts, i, ParseErrorKind::ExpectedPrimary)),
    }
}

/// A position derived from sub-parses lies past `i`, which is a real token.
pub open spec fn ahead(ts: Seq<TokAt>, i: int, p: int) -> bool {
    0 <= i < ts.len() && i < p
}

pub open spec fn stuck(ts: Seq<TokAt>, i: int) -> PErr {
    perr(ts, i, ParseErrorKind::ExpectedPrimary)
}

/// `name : type` parameters separated by commas, at least one.
pub open spec fn param_list(ts: Seq<TokAt>, i: int) -> Result<(Seq<(Seq<char>, TypeV)>, int), PErr>
    decreases left(ts, i),
{
    match tk(ts, i) {
        Tok::Ident(n) => match expect(ts, i + 1, Expected::Colon) {
            Err(e) => Err(e),
            Ok(j) => match parse_type(ts, j) {
                Err(e) => Err(e),
                Ok((t, k)) => if tk(ts, k) is Comma && fwd(ts, i, k) {
                    with_item((n, t), param_list(ts, k + 1))
                } else {
                    Ok((seq![(n, t)], k))
                },
            },
        },
        _ => Err(perr(ts, i, ParseErrorKind::ExpectedIdentifier)),
    }
}

/// `-> T` if present, else `void`.
pub open spec fn return_type(ts: Seq<TokAt>, i: int) -> Result<(TypeV, int), PErr> {
    if tk(ts, i) is Arrow {
        parse_type(ts, i + 1)
    } else {
        Ok((TypeV::Void, i))
    }
}

/// `: NEWLINE` ending a block header.
pub open spec fn header_end(ts: Seq<TokAt>, i: int) -> Result<int, PErr> {
    match expect(ts, i, Expected::Colon) {
        Err(e) => Err(e),
        Ok(j) => expect(ts, j, Expected::Newline),
    }
}

/// `val` / `var` at `i`.
#[verifier::opaque]
pub open spec fn decl(ts: Seq<TokAt>, i: int, is_public: bool, b: nat) -> Result<(DeclV, int), PErr>
    decreases b, left(ts, i), 20nat,
{
    match tk(ts, i + 1) {
        Tok::Ident(n) => match expect(ts, i + 2, Expected::Colon) {
            Err(e) => Err(e),
            Ok(j) => match parse_type(ts, j) {
                Err(e) => Err(e),
                Ok((t, k)) => match expect(ts, k, Expected::Assign) {
                    Err(e) => Err(e),
                    Ok(m) => if ahead(ts, i, m) {
                        match expr(ts, m, b) {
                            Err(e) => Err(e),
                            Ok((x, q)) => Ok((
                                DeclV { is_public, is_mutable: tk(ts, i) is Var, name: n, ty: t, init: x },
                                q,
                            )),
                        }
                    } else {
                        Err(stuck(ts, i))
                    },
                },
            },
        },
        _ => Err(perr(ts, i + 1, ParseErrorKind::ExpectedIdentifier)),
    }
}

/// `def` at `i`.
#[verifier::opaque]
pub open spec fn func(ts: Seq<TokAt>, i: int, is_public: bool, b: nat) -> Result<(FunV, int), PErr>
    decreases b, left(ts, i), 21nat,
{
    match tk(ts, i + 1) {
        Tok::Ident(n) => match expect(ts, i + 2, Expected::LParen) {
            Err(e) => Err(e),
            Ok(j) => match (if tk(ts, j) is RParen {
                Ok((Seq::empty(), j))
            } else {
                param_list(ts, j)
            }) {
                Err(e) => Err(e),
                Ok((ps, k)) => match expect(ts, k, Expected::RParen) {
                    Err(e) => Err(e),
                    Ok(m) => match return_type(ts, m) {
                        Err(e) => Err(e),
                        Ok((rt, q)) => match header_end(ts, q) {
                            Err(e) => Err(e),
                            Ok(r) => if ahead(ts, i, r) {
                                match block(ts, r, b) {
                                    Err(e) => Err(e),
                                    Ok((body, s)) => Ok((FunV { is_public, name: n, params: ps, ret: rt, body }, s)),
                                }
                            } else {
                                Err(stuck(ts, i))
                            },
                        },
                    },
                },
            },
        },
        _ => Err(perr(ts, i + 1, ParseErrorKind::ExpectedIdentifier)),
    }
}

/// A class member, with its own optional `pub`.
#[verifier::opaque]
pub open spec fn member(ts: Seq<TokAt>, i: int, b: nat) -> Result<(MemberV, int), PErr>
    decreases b, left(ts, i), 22nat,
{
    let p = tk(ts, i) is Pub;
    let k = if p { i + 1 } else { i };
    match tk(ts, k) {
        Tok::Val | Tok::Var => match decl(ts, k, p, b) {
            Err(e) => Err(e),
            Ok((d, j)) => Ok((MemberV::Variable(d), j)),
        },
        Tok::Def => match func(ts, k, p, b) {
            Err(e) => Err(e),
            Ok((f, j)) => Ok((if f.name == "init"@ { MemberV::Constructor(f) } else { MemberV::Method(f) }, j)),
        },
        _ => Err(perr(ts, k, ParseErrorKind::ExpectedMember)),
    }
}

/// Class members up to and including the closing Dedent.
pub open spec fn members(ts: Seq<TokAt>, i: int, b: nat) -> Result<(Seq<MemberV>, int), PErr>
    decreases b, left(ts, i), 23nat,
{
    match tk(ts, i) {
        Tok::Newline => members(ts, i + 1, b),
        Tok::Dedent => Ok((Seq::empty(), i + 1)),
        Tok::Eof => Err(perr(ts, i, ParseErrorKind::Expected(Expected::Dedent))),
        _ => match member(ts, i, b) {
            Err(e) => Err(e),
            Ok((m, k)) => if ahead(ts, i, k) {
                with_item(m, members(ts, k, b))
            } else {
                Err(stuck(ts, i))
            },
        },
    }
}

/// `class` at `i`.
pub open spec fn class_stmt(ts: Seq<TokAt>, i: int, is_public: bool, b: nat) -> Result<(StmtV, int), PErr>
    decreases b, left(ts, i), 24nat,
{
    match tk(ts, i + 1) {
        Tok::Ident(n) => match header_end(ts, i + 2) {
            Err(e) => Err(e),
            Ok(j) => match expect(ts, j, Expected::Indent) {
                Err(e) => Err(e),
                Ok(k) => if ahead(ts, i, k) {
                    match members(ts, k, b) {
                        Err(e) => Err(e),
                        Ok((ms, m)) => Ok((StmtV::Class(is_public, n, ms), m)),
                    }
                } else {
                    Err(stuck(ts, i))
                },
            },
        },
        _ => Err(perr(ts, i + 1, ParseErrorKind::ExpectedIdentifier)),
    }
}

/// `Indent` statements `Dedent`.
pub open spec fn block(ts: Seq<TokAt>, i: int, b: nat) -> Result<(Seq<StmtV>, int), PErr>
    decreases b, left(ts, i), 25nat,
{
    match expect(ts, i, Expected::Indent) {
        Err(e) => Err(e),
        Ok(j) => block_items(ts, j, b),
    }
}

/// `: NEWLINE` then a block.
pub open spec fn suite(ts: Seq<TokAt>, i: int, from: int, b: nat) -> Result<(Seq<StmtV>, int), PErr>
    decreases b, left(ts, from), 26nat, left(ts, i),
{
    match header_end(ts, i) {
        Err(e) => Err(e),
        Ok(j) => if ahead(ts, from, j) {
            block(ts, j, b)
        } else {
            Err(stuck(ts, from))
        },
    }
}

pub open spec fn if_stmt(ts: Seq<TokAt>, i: int, b: nat) -> Result<(StmtV, int), PErr>
    decreases b, left(ts, i), 27nat,
{
    match expr(ts, i + 1, b) {
        Err(e) => Err(e),
        Ok((c, j)) => match suite(ts, j, i, b) {
            Err(e) => Err(e),
            Ok((then_block, k)) => if tk(ts, k) is Else {
                match expect(ts, opt(ts, k + 1, Tok::Colon), Expected::Newline) {
                    Err(e) => Err(e),
                    Ok(m) => if ahead(ts, i, m) {
                        match block(ts, m, b) {
                            Err(e) => Err(e),
                            Ok((else_block, q)) => Ok((StmtV::If(c, then_block, Some(else_block)), q)),
                        }
                    } else {
                        Err(stuck(ts, i))
                    },
                }
            } else {
                Ok((StmtV::If(c, then_block, None), k))
            },
        },
    }
}

pub open spec fn while_stmt(ts: Seq<TokAt>, i: int, b: nat) -> Result<(StmtV, int), PErr>
    decreases b, left(ts, i), 27nat,
{
    match expr(ts, i + 1, b) {
        Err(e) => Err(e),
        Ok((c, j)) => match suite(ts, j, i, b) {
            Err(e) => Err(e),
            Ok((body, k)) => Ok((StmtV::While(c, body), k)),
        },
    }
}

/// `for NAME in START .. END :` block.
pub open spec fn for_stmt(ts: Seq<TokAt>, i: int, b: nat) -> Result<(StmtV, int), PErr>
    decreases b, left(ts, i), 27nat,
{
    match tk(ts, i + 1) {
        Tok::Ident(n) => match expect(ts, i + 2, Expected::In) {
            Err(e) => Err(e),
            Ok(j) => match expr(ts, j, b) {
                Err(e) => Err(e),
                Ok((start, k)) => match expect(ts, k, Expected::Range) {
                    Err(e) => Err(e),
                    Ok(m) => if ahead(ts, i, m) {
                        match expr(ts, m, b) {
                            Err(e) => Err(e),
                            Ok((end, q)) => match suite(ts, q, i, b) {
                                Err(e) => Err(e),
                                Ok((body, r)) => Ok((StmtV::For(n, start, end, body), r)),
                            },
                        }
                    } else {
                        Err(stuck(ts, i))
                    },
                },
            },
        },
        _ => Err(perr(ts, i + 1, ParseErrorKind::ExpectedIdentifier)),
    }
}

/// `try :` block `catch NAME :` block.
pub open spec fn try_stmt(ts: Seq<TokAt>, i: int, b: nat) -> Result<(StmtV, int), PErr>
    decreases b, left(ts, i), 27nat,
{
    match suite(ts, i + 1, i, b) {
        Err(e) => Err(e),
        Ok((try_block, j)) => match expect(ts, j, Expected::Catch) {
            Err(e) => Err(e),
            Ok(k) => match tk(ts, k) {
                Tok::Ident(n) => match suite(ts, k + 1, i, b) {
                    Err(e) => Err(e),
                    Ok((catch_block, m)) => Ok((StmtV::TryCatch(try_block, n, catch_block), m)),
                },
                _ => Err(perr(ts, k, ParseErrorKind::ExpectedIdentifier)),
            },
        },
    }
}

pub open spec fn as_stmt_decl(r: Result<(DeclV, int), PErr>) -> Result<(StmtV, int), PErr> {
    match r {
        Ok((d, j)) => Ok((StmtV::Decl(d), j)),
        Err(e) => Err(e),
    }
}

pub open spec fn as_stmt_fun(r: Result<(FunV, int), PErr>) -> Result<(StmtV, int), PErr> {
    match r {
        Ok((f, j)) => Ok((StmtV::Fun(f), j)),
        Err(e) => Err(e),
    }
}

/// `print ( expr )` at `i`.
pub open spec fn print_stmt(ts: Seq<TokAt>, i: int, b: nat) -> Result<(StmtV, int), PErr>
    decreases b, left(ts, i), 28nat,
{
    match expect(ts, i + 1, Expected::LParen) {
        Err(e) => Err(e),
        Ok(j) => match expr(ts, j, b) {
            Err(e) => Err(e),
            Ok((x, k)) => match expect(ts, k, Expected::RParen) {
                Err(e) => Err(e),
                Ok(m) => Ok((StmtV::Print(x), m)),
            },
        },
    }
}

/// `pub` at `i`, then a declaration, function or class.
pub open spec fn pub_stmt(ts: Seq<TokAt>, i: int, b: nat) -> Result<(StmtV, int), PErr>
    decreases b, left(ts, i), 28nat,
{
    match tk(ts, i + 1) {
        Tok::Val | Tok::Var => as_stmt_decl(decl(ts, i + 1, true, b)),
        Tok::Def => as_stmt_fun(func(ts, i + 1, true, b)),
        Tok::Class => class_stmt(ts, i + 1, true, b),
        _ => Err(perr(ts, i + 1, ParseErrorKind::ExpectedPublicItem)),
    }
}

/// `return` at `i`, with an expression unless a newline or EOF follows.
pub open spec fn return_stmt(ts: Seq<TokAt>, i: int, b: nat) -> Result<(StmtV, int), PErr>
    decreases b, left(ts, i), 28nat,
{
    if tk(ts, i + 1) is Newline || tk(ts, i + 1) is Eof {
        Ok((StmtV::Return(None), i + 1))
    } else {
        match expr(ts, i + 1, b) {
            Err(e) => Err(e),
            Ok((x, j)) => Ok((StmtV::Return(Some(x)), j)),
        }
    }
}

/// An expression statement, or an assignment if `=` follows the expression.
pub open spec fn expr_stmt(ts: Seq<TokAt>, i: int, b: nat) -> Result<(StmtV, int), PErr>
    decreases b, left(ts, i), 28nat,
{
    match expr(ts, i, b) {
        Err(e) => Err(e),
        Ok((x, j)) => if tk(ts, j) is Assign {
            if ahead(ts, i, j) {
                match expr(ts, j + 1, b) {
                    Err(e) => Err(e),
                    Ok((v, k)) => Ok((StmtV::Assign(x, v), k)),
                }
            } else {
                Err(stuck(ts, i))
            }
        } else {
            Ok((StmtV::Expr(x), j))
        },
    }
}

/// One statement, after any newlines.
pub open spec fn stmt(ts: Seq<TokAt>, i: int, b: nat) -> Result<(StmtV, int), PErr>
    decreases b, left(ts, i), 30nat,
{
    match tk(ts, i) {
        Tok::Newline => stmt(ts, i + 1, b),
        Tok::Import => match tk(ts, i + 1) {
            Tok::Str(p) => Ok((StmtV::Import(p), i + 2)),
            _ => Err(perr(ts, i + 1, ParseErrorKind::ExpectedStringLiteral)),
        },
        Tok::Class => class_stmt(ts, i, false, b),
        Tok::Try => try_stmt(ts, i, b),
        Tok::Break => Ok((StmtV::Break, i + 1)),
        Tok::Continue => Ok((StmtV::Continue, i + 1)),
        Tok::Print => print_stmt(ts, i, b),
        Tok::Pub => pub_stmt(ts, i, b),
        Tok::Val | Tok::Var => as_stmt_decl(decl(ts, i, false, b)),
        Tok::Def => as_stmt_fun(func(ts, i, false, b)),
        Tok::If => if_stmt(ts, i, b),
        Tok::While => while_stmt(ts, i, b),
        Tok::For => for_stmt(ts, i, b),
        Tok::Return => return_stmt(ts, i, b),
        _ => expr_stmt(ts, i, b),
    }
}

/// Statements of a block, up to and including its Dedent.
pub open spec fn block_items(ts: Seq<TokAt>, i: int, b: nat) -> Result<(Seq<StmtV>, int), PErr>
    decreases b, left(ts, i), 31nat,
{
    match tk(ts, i) {
        Tok::Newline => block_items(ts, i + 1, b),
        Tok::Dedent => Ok((Seq::empty(), i + 1)),
        Tok::Eof => Err(perr(ts, i, ParseErrorKind::Expected(Expected::Dedent))),
        _ => match stmt(ts, i, b) {
            Err(e) => Err(e),
            Ok((s, k)) => if ahead(ts, i, k) {
                with_item(s, block_items(ts, k, b))
            } else {
                Err(stuck(ts, i))
            },
        },
    }
}

/// Top-level statements up to EOF.
pub open spec fn program_items(ts: Seq<TokAt>, i: int, b: nat) -> Result<(Seq<StmtV>, int), PErr>
    decreases b, left(ts, i), 32nat,
{
    match tk(ts, i) {
        Tok::Newline => program_items(ts, i + 1, b),
        Tok::Eof => Ok((Seq::empty(), i)),
        _ => match stmt(ts, i, b) {
            Err(e) => Err(e),
            Ok((s, k)) => if ahead(ts, i, k) {
                with_item(s, program_items(ts, k, b))
            } else {
                Err(stuck(ts, i))
            },
        },
    }
}

/// The program the tokens from `i` stand for, or the first syntax error.
pub open spec fn parse_from(ts: Seq<TokAt>, i: int) -> Result<Seq<StmtV>, PErr> {
    match program_items(ts, i, MAX_NESTING as nat) {
        Ok((ss, _)) => Ok(ss),
        Err(e) => Err(e),
    }
}

/// The program a token sequence stands for, or its first syntax error.
pub open spec fn parse_tokens(ts: Seq<TokAt>) -> Result<Seq<StmtV>, PErr> {
    parse_from(ts, 0)
}

} // verus!
