//! The recursive-descent parser. Each method computes the spec function of
//! the same name in `grammar`.
use vstd::prelude::*;
use crate::ast::{Type, Literal, BinaryOperator, Expression, Declaration, FunctionDefinition, ClassMember, Statement, Program,
    TypeV, ExprV, StmtV, exprs_view, entries_view, params_view, stmts_view, members_view};
use crate::token::{Token, TypeName, SpannedToken, Tok, TokAt, toks_view};
use crate::lexer::{Lexer, MAX_INPUT, lex};
use crate::text::{chars_of, string_of};
use crate::grammar::{Expected, ParseErrorKind, PErr, Part, MAX_NESTING, expected_tok, tk, perr, left, expect, precedence,
    parse_type, text_end, close_brace, fparts, fold_parts, fstring, hole_expr, expr, binop, climb, expr_list, call_args,
    dict_entries, postfix, primary, str_lit, param_list, return_type, header_end, decl, func, member, members, class_stmt,
    block, suite, if_stmt, while_stmt, for_stmt, try_stmt, print_stmt, pub_stmt, return_stmt, expr_stmt, stmt, block_items,
    program_items, parse_from, parse_tokens};
use crate::lexer::LexerError;
use crate::lexer::LexErr;
use crate::ast::{DeclV, FunV, MemberV};

verus! {

/// A syntax error at the offending token.
#[derive(Debug, Clone, Copy, PartialEq)]
pub struct ParserError {
    pub kind: ParseErrorKind,
    pub line: usize,
    pub column: usize,
}

impl ParserError {
    pub open spec fn view(&self) -> PErr {
        PErr { kind: self.kind, line: self.line as int, col: self.column as int }
    }
}

/// A piece of an f-string body.
pub enum Piece {
    Text(Vec<char>),
    Hole(Vec<char>),
}

impl Piece {
    pub open spec fn view(&self) -> Part {
        match self {
            Piece::Text(t) => Part::Text(t@),
            Piece::Hole(h) => Part::Hole(h@),
        }
    }
}

pub open spec fn pieces_view(v: Seq<Piece>) -> Seq<Part> {
    v.map_values(|p: Piece| p.view())
}

/// `r` is what `s` says, and an `Ok` ends in `lo..=n`.
pub open spec fn agrees<T>(s: Result<(T, int), PErr>, lo: int, n: int, r: Result<(T, usize), ParserError>) -> bool {
    match r {
        Ok((x, j)) => s == Ok::<(T, int), PErr>((x, j as int)) && lo <= j <= n,
        Err(e) => s == Err::<(T, int), PErr>(e.view()),
    }
}

pub open spec fn expr_res(r: Result<(Expression, usize), ParserError>) -> Result<(ExprV, usize), ParserError> {
    match r {
        Ok((x, j)) => Ok((x.view(), j)),
        Err(e) => Err(e),
    }
}

pub open spec fn exprs_res(r: Result<(Vec<Expression>, usize), ParserError>) -> Result<(Seq<ExprV>, usize), ParserError> {
    match r {
        Ok((x, j)) => Ok((exprs_view(x@), j)),
        Err(e) => Err(e),
    }
}

pub open spec fn entries_res(r: Result<(Vec<(Expression, Expression)>, usize), ParserError>) -> Result<(Seq<(ExprV, ExprV)>, usize), ParserError> {
    match r {
        Ok((x, j)) => Ok((entries_view(x@), j)),
        Err(e) => Err(e),
    }
}

pub open spec fn type_res(r: Result<(Type, usize), ParserError>) -> Result<(TypeV, usize), ParserError> {
    match r {
        Ok((x, j)) => Ok((x.view(), j)),
        Err(e) => Err(e),
    }
}

fn mk_call(callee: Expression, args: Vec<Expression>) -> (r: Expression)
    ensures
        r.view() == ExprV::Call(Box::new(callee.view()), exprs_view(args@)),
{
    let r = Expression::Call { callee: Box::new(callee), args };
    assert(r.view()->Call_1 =~= exprs_view(args@));
    r
}

fn mk_new(class_name: String, args: Vec<Expression>) -> (r: Expression)
    ensures
        r.view() == ExprV::New(class_name@, exprs_view(args@)),
{
    let r = Expression::New { class_name, args };
    assert(r.view()->New_1 =~= exprs_view(args@));
    r
}

fn mk_list(items: Vec<Expression>) -> (r: Expression)
    ensures
        r.view() == ExprV::List(exprs_view(items@)),
{
    let r = Expression::ListLiteral(items);
    assert(r.view()->List_0 =~= exprs_view(items@));
    r
}

fn mk_dict(entries: Vec<(Expression, Expression)>) -> (r: Expression)
    ensures
        r.view() == ExprV::Dict(entries_view(entries@)),
{
    let r = Expression::DictLiteral(entries);
    assert(r.view()->Dict_0 =~= entries_view(entries@));
    r
}

fn str_expr(s: String) -> (r: Expression)
    ensures
        r.view() == str_lit(s@),
{
    Expression::Literal(Literal::String(s))
}

fn bin(op: BinaryOperator, l: Expression, r: Expression) -> (e: Expression)
    ensures
        e.view() == ExprV::Bin(op, Box::new(l.view()), Box::new(r.view())),
{
    Expression::BinaryOp { op, left: Box::new(l), right: Box::new(r) }
}

fn prec(op: BinaryOperator) -> (r: usize)
    ensures
        r == precedence(op),
{
    match op {
        BinaryOperator::Multiply | BinaryOperator::Divide => 5,
        BinaryOperator::Add | BinaryOperator::Subtract => 4,
        _ => 3,
    }
}

fn is_expected(t: &Token, e: Expected) -> (r: bool)
    ensures
        r == (t.view() == expected_tok(e)),
{
    match e {
        Expected::Colon => matches!(t, Token::Colon),
        Expected::Newline => matches!(t, Token::Newline),
        Expected::Indent => matches!(t, Token::Indent),
        Expected::Dedent => matches!(t, Token::Dedent),
        Expected::LParen => matches!(t, Token::LParen),
        Expected::RParen => matches!(t, Token::RParen),
        Expected::LBracket => matches!(t, Token::LBracket),
        Expected::RBracket => matches!(t, Token::RBracket),
        Expected::RBrace => matches!(t, Token::RBrace),
        Expected::Comma => matches!(t, Token::Comma),
        Expected::Assign => matches!(t, Token::Assign),
        Expected::In => matches!(t, Token::In),
        Expected::Range => matches!(t, Token::Range),
        Expected::Catch => matches!(t, Token::Catch),
    }
}

/// `v[lo..hi]` as a new vector.
fn sub_vec(v: &Vec<char>, lo: usize, hi: usize) -> (r: Vec<char>)
    requires
        lo <= hi <= v.len(),
    ensures
        r@ == v@.subrange(lo as int, hi as int),
{
    let mut r: Vec<char> = Vec::new();
    let mut i = lo;
    while i < hi
        invariant
            lo <= i <= hi <= v.len(),
            r@ == v@.subrange(lo as int, i as int),
        decreases hi - i,
    {
        r.push(v[i]);
        i = i + 1;
        assert(r@ =~= v@.subrange(lo as int, i as int));
    }
    r
}

/// Splits an f-string body into text runs and placeholders.
pub fn split_fstring(body: &Vec<char>) -> (r: Option<Vec<Piece>>)
    ensures
        match r {
            Some(ps) => fparts(body@, 0) == Some(pieces_view(ps@)),
            None => fparts(body@, 0) is None,
        },
{
    let ghost b = body@;
    let mut ps: Vec<Piece> = Vec::new();
    let mut k: usize = 0;
    while k < body.len()
        invariant
            b == body@,
            k <= body.len(),
            fparts(b, 0) == match fparts(b, k as int) {
                Some(rest) => Some(pieces_view(ps@) + rest),
                None => None::<Seq<Part>>,
            },
        decreases body.len() - k,
    {
        let ghost before = pieces_view(ps@);
        if body[k] == '{' {
            let mut j = k + 1;
            let mut depth: usize = 1;
            loop
                invariant
                    b == body@,
                    k < j <= body.len(),
                    1 <= depth <= j - k,
                    b[k as int] == '{',
                    fparts(b, 0) == match fparts(b, k as int) {
                        Some(rest) => Some(pieces_view(ps@) + rest),
                        None => None::<Seq<Part>>,
                    },
                    close_brace(b, k + 1, 1) == close_brace(b, j as int, depth as nat),
                ensures
                    b == body@,
                    k < j < body.len(),
                    close_brace(b, k + 1, 1) == Some(j as int),
                decreases body.len() - j,
            {
                if j >= body.len() {
                    return None;
                }
                if body[j] == '{' {
                    depth = depth + 1;
                } else if body[j] == '}' {
                    if depth <= 1 {
                        break;
                    }
                    depth = depth - 1;
                }
                j = j + 1;
            }
            let h = sub_vec(body, k + 1, j);
            ps.push(Piece::Hole(h));
            assert(pieces_view(ps@) =~= before + seq![Part::Hole(b.subrange(k + 1, j as int))]);
            proof {
                match fparts(b, j + 1) {
                    Some(rest) => {
                        assert(pieces_view(ps@) + rest =~= before + (seq![Part::Hole(b.subrange(k + 1, j as int))] + rest));
                    },
                    None => {},
                }
            }
            k = j + 1;
        } else {
            let mut e = k;
            while e < body.len() && body[e] != '{'
                invariant
                    b == body@,
                    k <= e <= body.len(),
                    text_end(b, k as int) == text_end(b, e as int),
                decreases body.len() - e,
            {
                e = e + 1;
            }
            let t = sub_vec(body, k, e);
            ps.push(Piece::Text(t));
            assert(pieces_view(ps@) =~= before + seq![Part::Text(b.subrange(k as int, e as int))]);
            proof {
                match fparts(b, e as int) {
                    Some(rest) => {
                        assert(pieces_view(ps@) + rest =~= before + (seq![Part::Text(b.subrange(k as int, e as int))] + rest));
                    },
                    None => {},
                }
            }
            k = e;
        }
    }
    assert(fparts(b, k as int) == Some(Seq::<Part>::empty()));
    assert(pieces_view(ps@) + Seq::<Part>::empty() =~= pieces_view(ps@));
    assert(fparts(b, 0) == Some(pieces_view(ps@)));
    Some(ps)
}

pub open spec fn prepend<T>(pre: Seq<T>, r: Result<(Seq<T>, int), PErr>) -> Result<(Seq<T>, int), PErr> {
    match r {
        Ok((rest, j)) => Ok((pre + rest, j)),
        Err(e) => Err(e),
    }
}

pub open spec fn stmt_res(r: Result<(Statement, usize), ParserError>) -> Result<(StmtV, usize), ParserError> {
    match r {
        Ok((x, j)) => Ok((x.view(), j)),
        Err(e) => Err(e),
    }
}

pub open spec fn stmts_res(r: Result<(Vec<Statement>, usize), ParserError>) -> Result<(Seq<StmtV>, usize), ParserError> {
    match r {
        Ok((x, j)) => Ok((stmts_view(x@), j)),
        Err(e) => Err(e),
    }
}

pub open spec fn decl_res(r: Result<(Declaration, usize), ParserError>) -> Result<(DeclV, usize), ParserError> {
    match r {
        Ok((x, j)) => Ok((x.view(), j)),
        Err(e) => Err(e),
    }
}

pub open spec fn fun_res(r: Result<(FunctionDefinition, usize), ParserError>) -> Result<(FunV, usize), ParserError> {
    match r {
        Ok((x, j)) => Ok((x.view(), j)),
        Err(e) => Err(e),
    }
}

pub open spec fn member_res(r: Result<(ClassMember, usize), ParserError>) -> Result<(MemberV, usize), ParserError> {
    match r {
        Ok((x, j)) => Ok((x.view(), j)),
        Err(e) => Err(e),
    }
}

pub open spec fn members_res(r: Result<(Vec<ClassMember>, usize), ParserError>) -> Result<(Seq<MemberV>, usize), ParserError> {
    match r {
        Ok((x, j)) => Ok((members_view(x@), j)),
        Err(e) => Err(e),
    }
}

pub open spec fn params_res(r: Result<(Vec<(String, Type)>, usize), ParserError>) -> Result<(Seq<(Seq<char>, TypeV)>, usize), ParserError> {
    match r {
        Ok((x, j)) => Ok((params_view(x@), j)),
        Err(e) => Err(e),
    }
}

fn mk_fun(is_public: bool, name: String, params: Vec<(String, Type)>, return_type: Type, body: Vec<Statement>) -> (r: FunctionDefinition)
    ensures
        r.view() == (FunV { is_public, name: name@, params: params_view(params@), ret: return_type.view(), body: stmts_view(body@) }),
{
    let r = FunctionDefinition { is_public, name, params, return_type, body };
    assert(r.view().body =~= stmts_view(r.body@));
    r
}

fn mk_if(condition: Expression, then_block: Vec<Statement>, else_block: Option<Vec<Statement>>) -> (r: Statement)
    ensures
        r.view() == StmtV::If(
            condition.view(),
            stmts_view(then_block@),
            match else_block {
                Some(b) => Some(stmts_view(b@)),
                None => None,
            },
        ),
{
    let ghost eb = else_block;
    let r = Statement::If { condition, then_block, else_block };
    assert(r.view()->If_1 =~= stmts_view(then_block@));
    proof {
        match eb {
            Some(b) => {
                assert(r.view()->If_2->Some_0 =~= stmts_view(b@));
            },
            None => {},
        }
    }
    r
}

fn mk_while(condition: Expression, body: Vec<Statement>) -> (r: Statement)
    ensures
        r.view() == StmtV::While(condition.view(), stmts_view(body@)),
{
    let r = Statement::While { condition, body };
    assert(r.view()->While_1 =~= stmts_view(body@));
    r
}

fn mk_for(iterator: String, start: Expression, end: Expression, body: Vec<Statement>) -> (r: Statement)
    ensures
        r.view() == StmtV::For(iterator@, start.view(), end.view(), stmts_view(body@)),
{
    let r = Statement::For { iterator, start, end, body };
    assert(r.view()->For_3 =~= stmts_view(body@));
    r
}

fn mk_try(try_block: Vec<Statement>, catch_var: String, catch_block: Vec<Statement>) -> (r: Statement)
    ensures
        r.view() == StmtV::TryCatch(stmts_view(try_block@), catch_var@, stmts_view(catch_block@)),
{
    let r = Statement::TryCatch { try_block, catch_var, catch_block };
    assert(r.view()->TryCatch_0 =~= stmts_view(try_block@));
    assert(r.view()->TryCatch_2 =~= stmts_view(catch_block@));
    r
}

/// A method named `init` is the constructor.
fn classify(f: FunctionDefinition) -> (m: ClassMember)
    ensures
        m.view() == if f.view().name == "init"@ {
            MemberV::Constructor(f.view())
        } else {
            MemberV::Method(f.view())
        },
{
    let init = String::from_str("init");
    if f.name == init {
        ClassMember::Constructor(f)
    } else {
        ClassMember::Method(f)
    }
}

fn cons_member(m: ClassMember, rest: Vec<ClassMember>) -> (r: Vec<ClassMember>)
    ensures
        members_view(r@) == seq![m.view()] + members_view(rest@),
{
    let ghost mv = m.view();
    let ghost rv = members_view(rest@);
    let mut r = rest;
    r.insert(0, m);
    assert(members_view(r@) =~= seq![mv] + rv);
    r
}

fn mk_class(is_public: bool, name: String, members: Vec<ClassMember>) -> (r: Statement)
    ensures
        r.view() == StmtV::Class(is_public, name@, members_view(members@)),
{
    let r = Statement::Class { is_public, name, members };
    assert(r.view()->Class_2 =~= members_view(members@));
    r
}

/// A parser over one token sequence.
pub struct Parser {
    tokens: Vec<SpannedToken>,
    pos: usize,
}

impl Parser {
    /// The tokens being parsed.
    pub closed spec fn toks(&self) -> Seq<TokAt> {
        toks_view(self.tokens@)
    }

    pub closed spec fn offset(&self) -> int {
        self.pos as int
    }

    pub fn new(tokens: Vec<SpannedToken>) -> (r: Parser)
        ensures
            r.toks() == toks_view(tokens@),
            r.offset() == 0,
    {
        Parser { tokens, pos: 0 }
    }

    fn tok(&self, i: usize) -> (r: Option<&Token>)
        ensures
            match r {
                Some(t) => i < self.tokens.len() && t.view() == tk(self.toks(), i as int),
                None => i >= self.tokens.len() && tk(self.toks(), i as int) == Tok::Eof,
            },
    {
        if i < self.tokens.len() {
            Some(&self.tokens[i].token)
        } else {
            None
        }
    }

    fn is_eof(&self, i: usize) -> (r: bool)
        ensures
            r == (tk(self.toks(), i as int) is Eof),
    {
        match self.tok(i) {
            None | Some(Token::Eof) => true,
            _ => false,
        }
    }

    fn err(&self, i: usize, kind: ParseErrorKind) -> (e: ParserError)
        ensures
            e.view() == perr(self.toks(), i as int, kind),
    {
        if i < self.tokens.len() {
            ParserError { kind, line: self.tokens[i].line, column: self.tokens[i].column }
        } else if self.tokens.len() > 0 {
            let n = self.tokens.len() - 1;
            ParserError { kind, line: self.tokens[n].line, column: self.tokens[n].column }
        } else {
            ParserError { kind, line: 1, column: 1 }
        }
    }

    fn expect(&self, i: usize, e: Expected) -> (r: Result<usize, ParserError>)
        ensures
            match r {
                Ok(j) => expect(self.toks(), i as int, e) == Ok::<int, PErr>(j as int) && j == i + 1 && i < self.tokens.len(),
                Err(err) => expect(self.toks(), i as int, e) == Err::<int, PErr>(err.view()),
            },
    {
        match self.tok(i) {
            Some(t) => if is_expected(t, e) {
                Ok(i + 1)
            } else {
                Err(self.err(i, ParseErrorKind::Expected(e)))
            },
            None => Err(self.err(i, ParseErrorKind::Expected(e))),
        }
    }

    fn check(&self, i: usize, e: Expected) -> (r: bool)
        ensures
            r == (tk(self.toks(), i as int) == expected_tok(e)),
            r ==> i < self.tokens.len(),
    {
        match self.tok(i) {
            Some(t) => is_expected(t, e),
            None => false,
        }
    }

    fn parse_type(&self, i: usize) -> (r: Result<(Type, usize), ParserError>)
        ensures
            agrees(parse_type(self.toks(), i as int), i + 1, self.tokens.len() as int, type_res(r)),
        decreases left(self.toks(), i as int),
    {
        match self.tok(i) {
            Some(Token::Type(TypeName::Int)) => Ok((Type::Int, i + 1)),
            Some(Token::Type(TypeName::Float)) => Ok((Type::Float, i + 1)),
            Some(Token::Type(TypeName::String)) => Ok((Type::String, i + 1)),
            Some(Token::Type(TypeName::Bool)) => Ok((Type::Bool, i + 1)),
            Some(Token::Type(TypeName::Void)) => Ok((Type::Void, i + 1)),
            Some(Token::Type(TypeName::List)) => {
                let j = match self.expect(i + 1, Expected::LBracket) {
                    Err(e) => return Err(e),
                    Ok(j) => j,
                };
                let (t, k) = match self.parse_type(j) {
                    Err(e) => return Err(e),
                    Ok(x) => x,
                };
                let m = match self.expect(k, Expected::RBracket) {
                    Err(e) => return Err(e),
                    Ok(m) => m,
                };
                Ok((Type::List(Box::new(t)), m))
            },
            Some(Token::Type(TypeName::Dict)) => {
                let j = match self.expect(i + 1, Expected::LBracket) {
                    Err(e) => return Err(e),
                    Ok(j) => j,
                };
                let (kt, k) = match self.parse_type(j) {
                    Err(e) => return Err(e),
                    Ok(x) => x,
                };
                let m = match self.expect(k, Expected::Comma) {
                    Err(e) => return Err(e),
                    Ok(m) => m,
                };
                let (vt, n) = match self.parse_type(m) {
                    Err(e) => return Err(e),
                    Ok(x) => x,
                };
                let q = match self.expect(n, Expected::RBracket) {
                    Err(e) => return Err(e),
                    Ok(q) => q,
                };
                Ok((Type::Dict(Box::new(kt), Box::new(vt)), q))
            },
            Some(Token::Ident(n)) => Ok((Type::Class(n.clone()), i + 1)),
            _ => Err(self.err(i, ParseErrorKind::ExpectedType)),
        }
    }
    fn parse_expr(&self, i: usize, b: usize) -> (r: Result<(Expression, usize), ParserError>)
        ensures
            agrees(expr(self.toks(), i as int, b as nat), i + 1, self.tokens.len() as int, expr_res(r)),
        decreases b, left(self.toks(), i as int), 9nat,
    {
        self.binop(i, 0, b)
    }

    fn binop(&self, i: usize, minp: usize, b: usize) -> (r: Result<(Expression, usize), ParserError>)
        ensures
            agrees(binop(self.toks(), i as int, minp as int, b as nat), i + 1, self.tokens.len() as int, expr_res(r)),
        decreases b, left(self.toks(), i as int), 8nat,
    {
        let (l, j) = match self.primary(i, b) {
            Err(e) => return Err(e),
            Ok(x) => x,
        };
        self.climb(j, minp, l, b)
    }

    fn climb(&self, j: usize, minp: usize, l: Expression, b: usize) -> (r: Result<(Expression, usize), ParserError>)
        requires
            j <= self.tokens.len(),
        ensures
            agrees(climb(self.toks(), j as int, minp as int, l.view(), b as nat), j as int, self.tokens.len() as int, expr_res(r)),
        decreases b, left(self.toks(), j as int), 6nat,
    {
        match self.tok(j) {
            Some(Token::Op(op)) => {
                let op = *op;
                let p = prec(op);
                if p >= minp {
                    match self.binop(j + 1, p + 1, b) {
                        Err(e) => Err(e),
                        Ok((r, k)) => self.climb(k, minp, bin(op, l, r), b),
                    }
                } else {
                    Ok((l, j))
                }
            },
            _ => Ok((l, j)),
        }
    }

    fn expr_list(&self, i: usize, b: usize) -> (r: Result<(Vec<Expression>, usize), ParserError>)
        ensures
            agrees(expr_list(self.toks(), i as int, b as nat), i + 1, self.tokens.len() as int, exprs_res(r)),
        decreases b, left(self.toks(), i as int), 10nat,
    {
        let (x, j) = match self.parse_expr(i, b) {
            Err(e) => return Err(e),
            Ok(x) => x,
        };
        let ghost xv = x.view();
        if self.check(j, Expected::Comma) {
            match self.expr_list(j + 1, b) {
                Err(e) => Err(e),
                Ok((mut rest, k)) => {
                    let ghost rv = exprs_view(rest@);
                    rest.insert(0, x);
                    assert(exprs_view(rest@) =~= seq![xv] + rv);
                    Ok((rest, k))
                },
            }
        } else {
            let mut v: Vec<Expression> = Vec::new();
            v.push(x);
            assert(exprs_view(v@) =~= seq![xv]);
            Ok((v, j))
        }
    }

    fn call_args(&self, i: usize, b: usize) -> (r: Result<(Vec<Expression>, usize), ParserError>)
        ensures
            agrees(call_args(self.toks(), i as int, b as nat), i + 1, self.tokens.len() as int, exprs_res(r)),
        decreases b, left(self.toks(), i as int), 11nat,
    {
        if self.check(i, Expected::RParen) {
            let v: Vec<Expression> = Vec::new();
            assert(exprs_view(v@) =~= Seq::<ExprV>::empty());
            return Ok((v, i + 1));
        }
        let (xs, j) = match self.expr_list(i, b) {
            Err(e) => return Err(e),
            Ok(x) => x,
        };
        let k = match self.expect(j, Expected::RParen) {
            Err(e) => return Err(e),
            Ok(k) => k,
        };
        Ok((xs, k))
    }

    fn dict_entries(&self, i: usize, b: usize) -> (r: Result<(Vec<(Expression, Expression)>, usize), ParserError>)
        ensures
            agrees(dict_entries(self.toks(), i as int, b as nat), i + 1, self.tokens.len() as int, entries_res(r)),
        decreases b, left(self.toks(), i as int), 10nat,
    {
        let (key, j) = match self.parse_expr(i, b) {
            Err(e) => return Err(e),
            Ok(x) => x,
        };
        let k = match self.expect(j, Expected::Colon) {
            Err(e) => return Err(e),
            Ok(k) => k,
        };
        let (val, m) = match self.parse_expr(k, b) {
            Err(e) => return Err(e),
            Ok(x) => x,
        };
        let ghost ev = (key.view(), val.view());
        if self.check(m, Expected::Comma) {
            let n = if self.check(m + 1, Expected::Newline) { m + 2 } else { m + 1 };
            match self.dict_entries(n, b) {
                Err(e) => Err(e),
                Ok((mut rest, q)) => {
                    let ghost rv = entries_view(rest@);
                    rest.insert(0, (key, val));
                    assert(entries_view(rest@) =~= seq![ev] + rv);
                    Ok((rest, q))
                },
            }
        } else {
            let mut v: Vec<(Expression, Expression)> = Vec::new();
            v.push((key, val));
            assert(entries_view(v@) =~= seq![ev]);
            Ok((v, m))
        }
    }

    fn postfix(&self, i: usize, e: Expression, b: usize) -> (r: Result<(Expression, usize), ParserError>)
        requires
            i <= self.tokens.len(),
        ensures
            agrees(postfix(self.toks(), i as int, e.view(), b as nat), i as int, self.tokens.len() as int, expr_res(r)),
        decreases b, left(self.toks(), i as int), 5nat,
    {
        match self.tok(i) {
            Some(Token::LParen) => match self.call_args(i + 1, b) {
                Err(err) => Err(err),
                Ok((args, j)) => self.postfix(j, mk_call(e, args), b),
            },
            Some(Token::LBracket) => {
                let (x, j) = match self.parse_expr(i + 1, b) {
                    Err(err) => return Err(err),
                    Ok(x) => x,
                };
                let k = match self.expect(j, Expected::RBracket) {
                    Err(err) => return Err(err),
                    Ok(k) => k,
                };
                self.postfix(k, Expression::Index { collection: Box::new(e), index: Box::new(x) }, b)
            },
            Some(Token::Dot) => match self.tok(i + 1) {
                Some(Token::Ident(n)) => self.postfix(i + 2, Expression::Get { object: Box::new(e), name: n.clone() }, b),
                _ => Err(self.err(i + 1, ParseErrorKind::ExpectedIdentifier)),
            },
            _ => Ok((e, i)),
        }
    }

    fn primary(&self, i: usize, b: usize) -> (r: Result<(Expression, usize), ParserError>)
        ensures
            agrees(primary(self.toks(), i as int, b as nat), i + 1, self.tokens.len() as int, expr_res(r)),
        decreases b, left(self.toks(), i as int), 7nat,
    {
        match self.tok(i) {
            Some(Token::Int(n)) => self.postfix(i + 1, Expression::Literal(Literal::Int(*n)), b),
            Some(Token::Float(s)) => self.postfix(i + 1, Expression::Literal(Literal::Float(s.clone())), b),
            Some(Token::Str(s)) => self.postfix(i + 1, str_expr(s.clone()), b),
            Some(Token::True) => self.postfix(i + 1, Expression::Literal(Literal::Bool(true)), b),
            Some(Token::False) => self.postfix(i + 1, Expression::Literal(Literal::Bool(false)), b),
            Some(Token::FString(body)) => self.primary_fstring(i, body, b),
            Some(Token::Ident(n)) => self.postfix(i + 1, Expression::Identifier(n.clone()), b),
            Some(Token::This) => self.postfix(i + 1, Expression::This, b),
            Some(Token::New) => self.primary_new(i, b),
            Some(Token::LParen) => self.primary_paren(i, b),
            Some(Token::LBracket) => self.primary_list(i, b),
            Some(Token::LBrace) => self.primary_dict(i, b),
            _ => Err(self.err(i, ParseErrorKind::ExpectedPrimary)),
        }
    }

    fn primary_fstring(&self, i: usize, body: &String, b: usize) -> (r: Result<(Expression, usize), ParserError>)
        requires
            i < self.tokens.len(),
            tk(self.toks(), i as int) == Tok::FString(body@),
        ensures
            agrees(primary(self.toks(), i as int, b as nat), i + 1, self.tokens.len() as int, expr_res(r)),
        decreases b, left(self.toks(), i as int), 6nat,
    {
        let at = self.err(i, ParseErrorKind::MalformedPlaceholder);
        let chars = chars_of(body.as_str());
        let x = match split_fstring(&chars) {
            None => return Err(at),
            Some(ps) => match fstring_value(&ps, b, at) {
                Err(e) => return Err(e),
                Ok(x) => x,
            },
        };
        self.postfix(i + 1, x, b)
    }

    fn primary_new(&self, i: usize, b: usize) -> (r: Result<(Expression, usize), ParserError>)
        requires
            i < self.tokens.len(),
            tk(self.toks(), i as int) is New,
        ensures
            agrees(primary(self.toks(), i as int, b as nat), i + 1, self.tokens.len() as int, expr_res(r)),
        decreases b, left(self.toks(), i as int), 6nat,
    {
        match self.tok(i + 1) {
            Some(Token::Ident(n)) => {
                let j = match self.expect(i + 2, Expected::LParen) {
                    Err(e) => return Err(e),
                    Ok(j) => j,
                };
                let (args, k) = match self.call_args(j, b) {
                    Err(e) => return Err(e),
                    Ok(x) => x,
                };
                self.postfix(k, mk_new(n.clone(), args), b)
            },
            _ => Err(self.err(i + 1, ParseErrorKind::ExpectedIdentifier)),
        }
    }

    fn primary_paren(&self, i: usize, b: usize) -> (r: Result<(Expression, usize), ParserError>)
        requires
            i < self.tokens.len(),
            tk(self.toks(), i as int) is LParen,
        ensures
            agrees(primary(self.toks(), i as int, b as nat), i + 1, self.tokens.len() as int, expr_res(r)),
        decreases b, left(self.toks(), i as int), 6nat,
    {
        let (x, j) = match self.parse_expr(i + 1, b) {
            Err(e) => return Err(e),
            Ok(x) => x,
        };
        let k = match self.expect(j, Expected::RParen) {
            Err(e) => return Err(e),
            Ok(k) => k,
        };
        self.postfix(k, x, b)
    }

    fn primary_list(&self, i: usize, b: usize) -> (r: Result<(Expression, usize), ParserError>)
        requires
            i < self.tokens.len(),
            tk(self.toks(), i as int) is LBracket,
        ensures
            agrees(primary(self.toks(), i as int, b as nat), i + 1, self.tokens.len() as int, expr_res(r)),
        decreases b, left(self.toks(), i as int), 6nat,
    {
        if self.check(i + 1, Expected::RBracket) {
            let v: Vec<Expression> = Vec::new();
            assert(exprs_view(v@) =~= Seq::<ExprV>::empty());
            return self.postfix(i + 2, mk_list(v), b);
        }
        let (xs, j) = match self.expr_list(i + 1, b) {
            Err(e) => return Err(e),
            Ok(x) => x,
        };
        let k = match self.expect(j, Expected::RBracket) {
            Err(e) => return Err(e),
            Ok(k) => k,
        };
        self.postfix(k, mk_list(xs), b)
    }

    fn primary_dict(&self, i: usize, b: usize) -> (r: Result<(Expression, usize), ParserError>)
        requires
            i < self.tokens.len(),
            tk(self.toks(), i as int) is LBrace,
        ensures
            agrees(primary(self.toks(), i as int, b as nat), i + 1, self.tokens.len() as int, expr_res(r)),
        decreases b, left(self.toks(), i as int), 6nat,
    {
        let j0 = if self.check(i + 1, Expected::Newline) { i + 2 } else { i + 1 };
        let j = if self.check(j0, Expected::Indent) { j0 + 1 } else { j0 };
        if self.check(j, Expected::RBrace) {
            let v: Vec<(Expression, Expression)> = Vec::new();
            assert(entries_view(v@) =~= Seq::<(ExprV, ExprV)>::empty());
            return self.postfix(j + 1, mk_dict(v), b);
        }
        let (es, k) = match self.dict_entries(j, b) {
            Err(e) => return Err(e),
            Ok(x) => x,
        };
        let m0 = if self.check(k, Expected::Newline) { k + 1 } else { k };
        let m = if self.check(m0, Expected::Dedent) { m0 + 1 } else { m0 };
        let q = match self.expect(m, Expected::RBrace) {
            Err(e) => return Err(e),
            Ok(q) => q,
        };
        self.postfix(q, mk_dict(es), b)
    }
    fn param_list(&self, i: usize) -> (r: Result<(Vec<(String, Type)>, usize), ParserError>)
        ensures
            agrees(param_list(self.toks(), i as int), i + 1, self.tokens.len() as int, params_res(r)),
        decreases left(self.toks(), i as int),
    {
        match self.tok(i) {
            Some(Token::Ident(n)) => {
                let j = match self.expect(i + 1, Expected::Colon) {
                    Err(e) => return Err(e),
                    Ok(j) => j,
                };
                let (t, k) = match self.parse_type(j) {
                    Err(e) => return Err(e),
                    Ok(x) => x,
                };
                let ghost pv = (n@, t.view());
                let p = (n.clone(), t);
                if self.check(k, Expected::Comma) {
                    match self.param_list(k + 1) {
                        Err(e) => Err(e),
                        Ok((mut rest, q)) => {
                            let ghost rv = params_view(rest@);
                            rest.insert(0, p);
                            assert(params_view(rest@) =~= seq![pv] + rv);
                            Ok((rest, q))
                        },
                    }
                } else {
                    let mut v: Vec<(String, Type)> = Vec::new();
                    v.push(p);
                    assert(params_view(v@) =~= seq![pv]);
                    Ok((v, k))
                }
            },
            _ => Err(self.err(i, ParseErrorKind::ExpectedIdentifier)),
        }
    }

    fn return_type(&self, i: usize) -> (r: Result<(Type, usize), ParserError>)
        requires
            i <= self.tokens.len(),
        ensures
            agrees(return_type(self.toks(), i as int), i as int, self.tokens.len() as int, type_res(r)),
    {
        match self.tok(i) {
            Some(Token::Arrow) => self.parse_type(i + 1),
            _ => Ok((Type::Void, i)),
        }
    }

    fn header_end(&self, i: usize) -> (r: Result<usize, ParserError>)
        ensures
            match r {
                Ok(j) => header_end(self.toks(), i as int) == Ok::<int, PErr>(j as int) && j == i + 2 && j <= self.tokens.len(),
                Err(e) => header_end(self.toks(), i as int) == Err::<int, PErr>(e.view()),
            },
    {
        let j = match self.expect(i, Expected::Colon) {
            Err(e) => return Err(e),
            Ok(j) => j,
        };
        self.expect(j, Expected::Newline)
    }

    #[verifier::spinoff_prover]
    #[verifier::rlimit(60)]
    fn decl(&self, i: usize, is_public: bool, b: usize) -> (r: Result<(Declaration, usize), ParserError>)
        requires
            i < self.tokens.len(),
        ensures
            agrees(decl(self.toks(), i as int, is_public, b as nat), i + 1, self.tokens.len() as int, decl_res(r)),
        decreases b, left(self.toks(), i as int), 20nat,
    {
        proof {
            reveal(decl);
        }
        let is_mutable = match self.tok(i) {
            Some(Token::Var) => true,
            _ => false,
        };
        match self.tok(i + 1) {
            Some(Token::Ident(n)) => {
                let j = match self.expect(i + 2, Expected::Colon) {
                    Err(e) => return Err(e),
                    Ok(j) => j,
                };
                let (t, k) = match self.parse_type(j) {
                    Err(e) => return Err(e),
                    Ok(x) => x,
                };
                let m = match self.expect(k, Expected::Assign) {
                    Err(e) => return Err(e),
                    Ok(m) => m,
                };
                let (x, q) = match self.parse_expr(m, b) {
                    Err(e) => return Err(e),
                    Ok(x) => x,
                };
                Ok((Declaration { is_public, is_mutable, name: n.clone(), declared_type: t, initializer: x }, q))
            },
            _ => Err(self.err(i + 1, ParseErrorKind::ExpectedIdentifier)),
        }
    }

    #[verifier::spinoff_prover]
    #[verifier::rlimit(60)]
    fn func(&self, i: usize, is_public: bool, b: usize) -> (r: Result<(FunctionDefinition, usize), ParserError>)
        requires
            i < self.tokens.len(),
        ensures
            agrees(func(self.toks(), i as int, is_public, b as nat), i + 1, self.tokens.len() as int, fun_res(r)),
        decreases b, left(self.toks(), i as int), 21nat,
    {
        proof {
            reveal(func);
        }
        match self.tok(i + 1) {
            Some(Token::Ident(n)) => {
                let j = match self.expect(i + 2, Expected::LParen) {
                    Err(e) => return Err(e),
                    Ok(j) => j,
                };
                let (ps, k) = if self.check(j, Expected::RParen) {
                    let v: Vec<(String, Type)> = Vec::new();
                    assert(params_view(v@) =~= Seq::<(Seq<char>, TypeV)>::empty());
                    (v, j)
                } else {
                    match self.param_list(j) {
                        Err(e) => return Err(e),
                        Ok(x) => x,
                    }
                };
                let m = match self.expect(k, Expected::RParen) {
                    Err(e) => return Err(e),
                    Ok(m) => m,
                };
                let (rt, q) = match self.return_type(m) {
                    Err(e) => return Err(e),
                    Ok(x) => x,
                };
                let r0 = match self.header_end(q) {
                    Err(e) => return Err(e),
                    Ok(r0) => r0,
                };
                let (body, s) = match self.block(r0, b) {
                    Err(e) => return Err(e),
                    Ok(x) => x,
                };
                Ok((mk_fun(is_public, n.clone(), ps, rt, body), s))
            },
            _ => Err(self.err(i + 1, ParseErrorKind::ExpectedIdentifier)),
        }
    }

    #[verifier::spinoff_prover]
    fn member(&self, i: usize, b: usize) -> (r: Result<(ClassMember, usize), ParserError>)
        requires
            i < self.tokens.len(),
        ensures
            agrees(member(self.toks(), i as int, b as nat), i + 1, self.tokens.len() as int, member_res(r)),
        decreases b, left(self.toks(), i as int), 22nat,
    {
        proof {
            reveal(member);
        }
        let p = match self.tok(i) {
            Some(Token::Pub) => true,
            _ => false,
        };
        let k = if p { i + 1 } else { i };
        match self.tok(k) {
            Some(Token::Val) | Some(Token::Var) => match self.decl(k, p, b) {
                Err(e) => Err(e),
                Ok((d, j)) => Ok((ClassMember::Variable(d), j)),
            },
            Some(Token::Def) => match self.func(k, p, b) {
                Err(e) => Err(e),
                Ok((f, j)) => Ok((classify(f), j)),
            },
            _ => Err(self.err(k, ParseErrorKind::ExpectedMember)),
        }
    }

    #[verifier::spinoff_prover]
    fn members(&self, i: usize, b: usize) -> (r: Result<(Vec<ClassMember>, usize), ParserError>)
        requires
            i <= self.tokens.len(),
        ensures
            agrees(members(self.toks(), i as int, b as nat), i + 1, self.tokens.len() as int, members_res(r)),
        decreases b, left(self.toks(), i as int), 23nat,
    {
        match self.tok(i) {
            Some(Token::Newline) => self.members(i + 1, b),
            Some(Token::Dedent) => {
                let v: Vec<ClassMember> = Vec::new();
                assert(members_view(v@) =~= Seq::<MemberV>::empty());
                Ok((v, i + 1))
            },
            None | Some(Token::Eof) => Err(self.err(i, ParseErrorKind::Expected(Expected::Dedent))),
            _ => {
                let (m, k) = match self.member(i, b) {
                    Err(e) => return Err(e),
                    Ok(x) => x,
                };
                match self.members(k, b) {
                    Err(e) => Err(e),
                    Ok((rest, q)) => Ok((cons_member(m, rest), q)),
                }
            },
        }
    }

    #[verifier::spinoff_prover]
    #[verifier::rlimit(60)]
    fn class_stmt(&self, i: usize, is_public: bool, b: usize) -> (r: Result<(Statement, usize), ParserError>)
        requires
            i < self.tokens.len(),
        ensures
            agrees(class_stmt(self.toks(), i as int, is_public, b as nat), i + 1, self.tokens.len() as int, stmt_res(r)),
        decreases b, left(self.toks(), i as int), 24nat,
    {
        match self.tok(i + 1) {
            Some(Token::Ident(n)) => {
                let j = match self.header_end(i + 2) {
                    Err(e) => return Err(e),
                    Ok(j) => j,
                };
                let k = match self.expect(j, Expected::Indent) {
                    Err(e) => return Err(e),
                    Ok(k) => k,
                };
                let (ms, m) = match self.members(k, b) {
                    Err(e) => return Err(e),
                    Ok(x) => x,
                };
                Ok((mk_class(is_public, n.clone(), ms), m))
            },
            _ => Err(self.err(i + 1, ParseErrorKind::ExpectedIdentifier)),
        }
    }

    fn block(&self, i: usize, b: usize) -> (r: Result<(Vec<Statement>, usize), ParserError>)
        ensures
            agrees(block(self.toks(), i as int, b as nat), i + 1, self.tokens.len() as int, stmts_res(r)),
        decreases b, left(self.toks(), i as int), 25nat,
    {
        let j = match self.expect(i, Expected::Indent) {
            Err(e) => return Err(e),
            Ok(j) => j,
        };
        self.block_items(j, b)
    }

    fn suite(&self, i: usize, from: usize, b: usize) -> (r: Result<(Vec<Statement>, usize), ParserError>)
        requires
            from < self.tokens.len(),
            from < i,
        ensures
            agrees(suite(self.toks(), i as int, from as int, b as nat), i + 1, self.tokens.len() as int, stmts_res(r)),
        decreases b, left(self.toks(), from as int), 26nat, left(self.toks(), i as int),
    {
        let j = match self.header_end(i) {
            Err(e) => return Err(e),
            Ok(j) => j,
        };
        self.block(j, b)
    }

    #[verifier::spinoff_prover]
    #[verifier::rlimit(60)]
    fn if_stmt(&self, i: usize, b: usize) -> (r: Result<(Statement, usize), ParserError>)
        requires
            i < self.tokens.len(),
        ensures
            agrees(if_stmt(self.toks(), i as int, b as nat), i + 1, self.tokens.len() as int, stmt_res(r)),
        decreases b, left(self.toks(), i as int), 27nat,
    {
        let (c, j) = match self.parse_expr(i + 1, b) {
            Err(e) => return Err(e),
            Ok(x) => x,
        };
        let (then_block, k) = match self.suite(j, i, b) {
            Err(e) => return Err(e),
            Ok(x) => x,
        };
        match self.tok(k) {
            Some(Token::Else) => {
                let k1 = if self.check(k + 1, Expected::Colon) { k + 2 } else { k + 1 };
                let m = match self.expect(k1, Expected::Newline) {
                    Err(e) => return Err(e),
                    Ok(m) => m,
                };
                let (else_block, q) = match self.block(m, b) {
                    Err(e) => return Err(e),
                    Ok(x) => x,
                };
                Ok((mk_if(c, then_block, Some(else_block)), q))
            },
            _ => Ok((mk_if(c, then_block, None), k)),
        }
    }

    fn while_stmt(&self, i: usize, b: usize) -> (r: Result<(Statement, usize), ParserError>)
        requires
            i < self.tokens.len(),
        ensures
            agrees(while_stmt(self.toks(), i as int, b as nat), i + 1, self.tokens.len() as int, stmt_res(r)),
        decreases b, left(self.toks(), i as int), 27nat,
    {
        let (c, j) = match self.parse_expr(i + 1, b) {
            Err(e) => return Err(e),
            Ok(x) => x,
        };
        let (body, k) = match self.suite(j, i, b) {
            Err(e) => return Err(e),
            Ok(x) => x,
        };
        Ok((mk_while(c, body), k))
    }

    #[verifier::spinoff_prover]
    #[verifier::rlimit(60)]
    fn for_stmt(&self, i: usize, b: usize) -> (r: Result<(Statement, usize), ParserError>)
        requires
            i < self.tokens.len(),
        ensures
            agrees(for_stmt(self.toks(), i as int, b as nat), i + 1, self.tokens.len() as int, stmt_res(r)),
        decreases b, left(self.toks(), i as int), 27nat,
    {
        match self.tok(i + 1) {
            Some(Token::Ident(n)) => {
                let j = match self.expect(i + 2, Expected::In) {
                    Err(e) => return Err(e),
                    Ok(j) => j,
                };
                let (start, k) = match self.parse_expr(j, b) {
                    Err(e) => return Err(e),
                    Ok(x) => x,
                };
                let m = match self.expect(k, Expected::Range) {
                    Err(e) => return Err(e),
                    Ok(m) => m,
                };
                let (end, q) = match self.parse_expr(m, b) {
                    Err(e) => return Err(e),
                    Ok(x) => x,
                };
                let (body, r0) = match self.suite(q, i, b) {
                    Err(e) => return Err(e),
                    Ok(x) => x,
                };
                Ok((mk_for(n.clone(), start, end, body), r0))
            },
            _ => Err(self.err(i + 1, ParseErrorKind::ExpectedIdentifier)),
        }
    }

    #[verifier::spinoff_prover]
    #[verifier::rlimit(60)]
    fn try_stmt(&self, i: usize, b: usize) -> (r: Result<(Statement, usize), ParserError>)
        requires
            i < self.tokens.len(),
        ensures
            agrees(try_stmt(self.toks(), i as int, b as nat), i + 1, self.tokens.len() as int, stmt_res(r)),
        decreases b, left(self.toks(), i as int), 27nat,
    {
        let (try_block, j) = match self.suite(i + 1, i, b) {
            Err(e) => return Err(e),
            Ok(x) => x,
        };
        let k = match self.expect(j, Expected::Catch) {
            Err(e) => return Err(e),
            Ok(k) => k,
        };
        match self.tok(k) {
            Some(Token::Ident(n)) => {
                let (catch_block, m) = match self.suite(k + 1, i, b) {
                    Err(e) => return Err(e),
                    Ok(x) => x,
                };
                Ok((mk_try(try_block, n.clone(), catch_block), m))
            },
            _ => Err(self.err(k, ParseErrorKind::ExpectedIdentifier)),
        }
    }

    fn print_stmt(&self, i: usize, b: usize) -> (r: Result<(Statement, usize), ParserError>)
        requires
            i < self.tokens.len(),
        ensures
            agrees(print_stmt(self.toks(), i as int, b as nat), i + 1, self.tokens.len() as int, stmt_res(r)),
        decreases b, left(self.toks(), i as int), 28nat,
    {
        let j = match self.expect(i + 1, Expected::LParen) {
            Err(e) => return Err(e),
            Ok(j) => j,
        };
        let (x, k) = match self.parse_expr(j, b) {
            Err(e) => return Err(e),
            Ok(x) => x,
        };
        let m = match self.expect(k, Expected::RParen) {
            Err(e) => return Err(e),
            Ok(m) => m,
        };
        Ok((Statement::Print(x), m))
    }

    #[verifier::spinoff_prover]
    #[verifier::rlimit(60)]
    fn pub_stmt(&self, i: usize, b: usize) -> (r: Result<(Statement, usize), ParserError>)
        requires
            i < self.tokens.len(),
        ensures
            agrees(pub_stmt(self.toks(), i as int, b as nat), i + 1, self.tokens.len() as int, stmt_res(r)),
        decreases b, left(self.toks(), i as int), 28nat,
    {
        match self.tok(i + 1) {
            Some(Token::Val) | Some(Token::Var) => match self.decl(i + 1, true, b) {
                Err(e) => Err(e),
                Ok((d, j)) => Ok((Statement::Declaration(d), j)),
            },
            Some(Token::Def) => match self.func(i + 1, true, b) {
                Err(e) => Err(e),
                Ok((f, j)) => Ok((Statement::FunctionDefinition(f), j)),
            },
            Some(Token::Class) => self.class_stmt(i + 1, true, b),
            _ => Err(self.err(i + 1, ParseErrorKind::ExpectedPublicItem)),
        }
    }

    fn return_stmt(&self, i: usize, b: usize) -> (r: Result<(Statement, usize), ParserError>)
        requires
            i < self.tokens.len(),
        ensures
            agrees(return_stmt(self.toks(), i as int, b as nat), i + 1, self.tokens.len() as int, stmt_res(r)),
        decreases b, left(self.toks(), i as int), 28nat,
    {
        if self.check(i + 1, Expected::Newline) || self.is_eof(i + 1) {
            return Ok((Statement::Return(None), i + 1));
        }
        match self.parse_expr(i + 1, b) {
            Err(e) => Err(e),
            Ok((x, j)) => Ok((Statement::Return(Some(x)), j)),
        }
    }

    fn expr_stmt(&self, i: usize, b: usize) -> (r: Result<(Statement, usize), ParserError>)
        ensures
            agrees(expr_stmt(self.toks(), i as int, b as nat), i + 1, self.tokens.len() as int, stmt_res(r)),
        decreases b, left(self.toks(), i as int), 28nat,
    {
        let (x, j) = match self.parse_expr(i, b) {
            Err(e) => return Err(e),
            Ok(x) => x,
        };
        if self.check(j, Expected::Assign) {
            match self.parse_expr(j + 1, b) {
                Err(e) => Err(e),
                Ok((v, k)) => Ok((Statement::Assignment { target: x, value: v }, k)),
            }
        } else {
            Ok((Statement::Expression(x), j))
        }
    }

    #[verifier::spinoff_prover]
    #[verifier::rlimit(60)]
    fn stmt(&self, i: usize, b: usize) -> (r: Result<(Statement, usize), ParserError>)
        requires
            i <= self.tokens.len(),
        ensures
            agrees(stmt(self.toks(), i as int, b as nat), i + 1, self.tokens.len() as int, stmt_res(r)),
        decreases b, left(self.toks(), i as int), 30nat,
    {
        match self.tok(i) {
            Some(Token::Newline) => self.stmt(i + 1, b),
            Some(Token::Import) => match self.tok(i + 1) {
                Some(Token::Str(p)) => Ok((Statement::Import(p.clone()), i + 2)),
                _ => Err(self.err(i + 1, ParseErrorKind::ExpectedStringLiteral)),
            },
            Some(Token::Class) => self.class_stmt(i, false, b),
            Some(Token::Try) => self.try_stmt(i, b),
            Some(Token::Break) => Ok((Statement::Break, i + 1)),
            Some(Token::Continue) => Ok((Statement::Continue, i + 1)),
            Some(Token::Print) => self.print_stmt(i, b),
            Some(Token::Pub) => self.pub_stmt(i, b),
            Some(Token::Val) | Some(Token::Var) => match self.decl(i, false, b) {
                Err(e) => Err(e),
                Ok((d, j)) => Ok((Statement::Declaration(d), j)),
            },
            Some(Token::Def) => match self.func(i, false, b) {
                Err(e) => Err(e),
                Ok((f, j)) => Ok((Statement::FunctionDefinition(f), j)),
            },
            Some(Token::If) => self.if_stmt(i, b),
            Some(Token::While) => self.while_stmt(i, b),
            Some(Token::For) => self.for_stmt(i, b),
            Some(Token::Return) => self.return_stmt(i, b),
            _ => self.expr_stmt(i, b),
        }
    }

    #[verifier::spinoff_prover]
    #[verifier::rlimit(60)]
    fn block_items(&self, i: usize, b: usize) -> (r: Result<(Vec<Statement>, usize), ParserError>)
        requires
            i <= self.tokens.len(),
        ensures
            agrees(block_items(self.toks(), i as int, b as nat), i + 1, self.tokens.len() as int, stmts_res(r)),
        decreases b, left(self.toks(), i as int), 31nat,
    {
        match self.tok(i) {
            Some(Token::Newline) => self.block_items(i + 1, b),
            Some(Token::Dedent) => {
                let v: Vec<Statement> = Vec::new();
                assert(stmts_view(v@) =~= Seq::<StmtV>::empty());
                Ok((v, i + 1))
            },
            None | Some(Token::Eof) => Err(self.err(i, ParseErrorKind::Expected(Expected::Dedent))),
            _ => {
                let (st, k) = match self.stmt(i, b) {
                    Err(e) => return Err(e),
                    Ok(x) => x,
                };
                let ghost sv = st.view();
                match self.block_items(k, b) {
                    Err(e) => Err(e),
                    Ok((mut rest, q)) => {
                        let ghost rv = stmts_view(rest@);
                        rest.insert(0, st);
                        assert(stmts_view(rest@) =~= seq![sv] + rv);
                        Ok((rest, q))
                    },
                }
            },
        }
    }
    /// Top-level statements from `i0` up to EOF.
    fn program_items(&self, i0: usize, b: usize) -> (r: Result<(Vec<Statement>, usize), ParserError>)
        requires
            i0 <= self.tokens.len(),
        ensures
            agrees(program_items(self.toks(), i0 as int, b as nat), i0 as int, self.tokens.len() as int, stmts_res(r)),
    {
        let ghost ts = self.toks();
        let mut acc: Vec<Statement> = Vec::new();
        let mut i = i0;
        assert(prepend(stmts_view(acc@), program_items(ts, i as int, b as nat)) == program_items(ts, i0 as int, b as nat)) by {
            assert(stmts_view(acc@) =~= Seq::<StmtV>::empty());
            match program_items(ts, i as int, b as nat) {
                Ok((rest, j)) => {
                    assert(Seq::<StmtV>::empty() + rest =~= rest);
                },
                Err(_) => {},
            }
        }
        loop
            invariant
                ts == self.toks(),
                i0 <= i <= self.tokens.len(),
                program_items(ts, i0 as int, b as nat) == prepend(stmts_view(acc@), program_items(ts, i as int, b as nat)),
            decreases self.tokens.len() - i,
        {
            match self.tok(i) {
                Some(Token::Newline) => {
                    i = i + 1;
                },
                None | Some(Token::Eof) => {
                    assert(stmts_view(acc@) + Seq::<StmtV>::empty() =~= stmts_view(acc@));
                    return Ok((acc, i));
                },
                _ => {
                    let (st, k) = match self.stmt(i, b) {
                        Err(e) => return Err(e),
                        Ok(x) => x,
                    };
                    let ghost sv = st.view();
                    let ghost before = stmts_view(acc@);
                    acc.push(st);
                    assert(stmts_view(acc@) =~= before.push(sv));
                    proof {
                        match program_items(ts, k as int, b as nat) {
                            Ok((rest, j)) => {
                                assert(before + (seq![sv] + rest) =~= before.push(sv) + rest);
                            },
                            Err(_) => {},
                        }
                    }
                    i = k;
                },
            }
        }
    }

    /// Parses the statements from the current position to EOF.
    pub fn parse(&mut self) -> (r: Result<Program, ParserError>)
        ensures
            final(self).toks() == old(self).toks(),
            match r {
                Ok(p) => parse_from(old(self).toks(), old(self).offset()) == Ok::<Seq<StmtV>, PErr>(p.view()),
                Err(e) => parse_from(old(self).toks(), old(self).offset()) == Err::<Seq<StmtV>, PErr>(e.view()),
            },
    {
        let start = if self.pos <= self.tokens.len() { self.pos } else { self.tokens.len() };
        match self.program_items(start, MAX_NESTING) {
            Ok((statements, j)) => {
                self.pos = j;
                Ok(Program { statements })
            },
            Err(e) => Err(e),
        }
    }
}

/// A placeholder's source parsed as one expression by a fresh lexer and parser.
fn hole(h: &Vec<char>, b: usize, at: ParserError) -> (r: Result<Expression, ParserError>)
    ensures
        match r {
            Ok(x) => hole_expr(h@, b as nat, at.view()) == Ok::<ExprV, PErr>(x.view()),
            Err(e) => hole_expr(h@, b as nat, at.view()) == Err::<ExprV, PErr>(e.view()),
        },
    decreases b, 0nat, 0nat,
{
    if b == 0 || h.len() > MAX_INPUT {
        return Err(at);
    }
    let mut lx = Lexer::from_chars(sub_vec(h, 0, h.len()));
    assert(h@.subrange(0, h@.len() as int) =~= h@);
    match lx.tokenize() {
        Err(_) => Err(at),
        Ok(toks) => {
            let sub = Parser::new(toks);
            match sub.parse_expr(0, b - 1) {
                Err(_) => Err(at),
                Ok((e, j)) => if sub.is_eof(j) {
                    Ok(e)
                } else {
                    Err(at)
                },
            }
        },
    }
}

/// The expression an f-string stands for, from its pieces.
fn fstring_value(ps: &Vec<Piece>, b: usize, at: ParserError) -> (r: Result<Expression, ParserError>)
    ensures
        match r {
            Ok(x) => fstring(pieces_view(ps@), b as nat, at.view()) == Ok::<ExprV, PErr>(x.view()),
            Err(e) => fstring(pieces_view(ps@), b as nat, at.view()) == Err::<ExprV, PErr>(e.view()),
        },
    decreases b, 0nat, 1nat,
{
    let ghost psv = pieces_view(ps@);
    let ghost atv = at.view();
    if ps.len() == 0 {
        return Ok(str_expr(String::new()));
    }
    let mut acc: Expression;
    let mut k: usize;
    match &ps[0] {
        Piece::Text(t) => {
            acc = str_expr(string_of(t, 0, t.len()));
            k = 1;
            assert(t@.subrange(0, t@.len() as int) =~= t@);
            assert(psv.drop_first() =~= psv.subrange(1, psv.len() as int));
        },
        Piece::Hole(_) => {
            acc = str_expr(String::new());
            k = 0;
            assert(psv =~= psv.subrange(0, psv.len() as int));
        },
    }
    while k < ps.len()
        invariant
            psv == pieces_view(ps@),
            atv == at.view(),
            k <= ps.len(),
            fstring(psv, b as nat, atv) == fold_parts(psv.subrange(k as int, psv.len() as int), acc.view(), b as nat, atv),
        decreases ps.len() - k,
    {
        let ghost rest = psv.subrange(k as int, psv.len() as int);
        assert(rest.drop_first() =~= psv.subrange(k + 1, psv.len() as int));
        assert(rest[0] == ps@[k as int].view());
        match &ps[k] {
            Piece::Text(t) => {
                assert(t@.subrange(0, t@.len() as int) =~= t@);
                acc = bin(BinaryOperator::Add, acc, str_expr(string_of(t, 0, t.len())));
            },
            Piece::Hole(h) => {
                match hole(h, b, at) {
                    Err(e) => return Err(e),
                    Ok(x) => {
                        let ghost xv = x.view();
                        let mut args: Vec<Expression> = Vec::new();
                        args.push(x);
                        assert(exprs_view(args@) =~= seq![xv]);
                        let f = Expression::Identifier(String::from_str("to_string"));
                        acc = bin(BinaryOperator::Add, acc, mk_call(f, args));
                    },
                }
            },
        }
        k = k + 1;
    }
    Ok(acc)
}

pub open spec fn parse_message(k: ParseErrorKind) -> Seq<char> {
    match k {
        ParseErrorKind::Expected(e) => match e {
            Expected::Colon => "Expected ':'"@,
            Expected::Newline => "Expected a newline"@,
            Expected::Indent => "Expected an indented block"@,
            Expected::Dedent => "Expected the end of the block"@,
            Expected::LParen => "Expected '('"@,
            Expected::RParen => "Expected ')'"@,
            Expected::LBracket => "Expected '['"@,
            Expected::RBracket => "Expected ']'"@,
            Expected::RBrace => "Expected '}'"@,
            Expected::Comma => "Expected ','"@,
            Expected::Assign => "Expected '='"@,
            Expected::In => "Expected 'in'"@,
            Expected::Range => "Expected '..'"@,
            Expected::Catch => "Expected 'catch'"@,
        },
        ParseErrorKind::ExpectedIdentifier => "Expected an identifier"@,
        ParseErrorKind::ExpectedType => "Expected a type"@,
        ParseErrorKind::ExpectedPrimary => "Expected a primary expression"@,
        ParseErrorKind::ExpectedStringLiteral => "Expected a string literal"@,
        ParseErrorKind::ExpectedPublicItem => "Expected 'val', 'var', 'def' or 'class' after 'pub'"@,
        ParseErrorKind::ExpectedMember => "Expected a class member"@,
        ParseErrorKind::MalformedPlaceholder => "Malformed f-string placeholder"@,
    }
}

impl ParserError {
    /// The error's text.
    pub fn message(&self) -> (r: String)
        ensures
            r@ == parse_message(self.kind),
    {
        match self.kind {
            ParseErrorKind::Expected(e) => match e {
                Expected::Colon => String::from_str("Expected ':'"),
                Expected::Newline => String::from_str("Expected a newline"),
                Expected::Indent => String::from_str("Expected an indented block"),
                Expected::Dedent => String::from_str("Expected the end of the block"),
                Expected::LParen => String::from_str("Expected '('"),
                Expected::RParen => String::from_str("Expected ')'"),
                Expected::LBracket => String::from_str("Expected '['"),
                Expected::RBracket => String::from_str("Expected ']'"),
                Expected::RBrace => String::from_str("Expected '}'"),
                Expected::Comma => String::from_str("Expected ','"),
                Expected::Assign => String::from_str("Expected '='"),
                Expected::In => String::from_str("Expected 'in'"),
                Expected::Range => String::from_str("Expected '..'"),
                Expected::Catch => String::from_str("Expected 'catch'"),
            },
            ParseErrorKind::ExpectedIdentifier => String::from_str("Expected an identifier"),
            ParseErrorKind::ExpectedType => String::from_str("Expected a type"),
            ParseErrorKind::ExpectedPrimary => String::from_str("Expected a primary expression"),
            ParseErrorKind::ExpectedStringLiteral => String::from_str("Expected a string literal"),
            ParseErrorKind::ExpectedPublicItem => String::from_str("Expected 'val', 'var', 'def' or 'class' after 'pub'"),
            ParseErrorKind::ExpectedMember => String::from_str("Expected a class member"),
            ParseErrorKind::MalformedPlaceholder => String::from_str("Malformed f-string placeholder"),
        }
    }
}

/// The first error of lexing, then parsing, a source.
#[derive(Debug)]
pub enum CompileError {
    Lexical(LexerError),
    Syntax(ParserError),
}

/// Lexes and parses a whole source.
pub fn parse_source(source: String) -> (r: Result<Program, CompileError>)
    requires
        source@.len() <= MAX_INPUT,
    ensures
        match r {
            Ok(p) => lex(source@) matches Ok(ts) && parse_tokens(ts) == Ok::<Seq<StmtV>, PErr>(p.view()),
            Err(CompileError::Lexical(e)) => lex(source@) == Err::<Seq<TokAt>, LexErr>(e.view()),
            Err(CompileError::Syntax(e)) => lex(source@) matches Ok(ts) && parse_tokens(ts) == Err::<Seq<StmtV>, PErr>(e.view()),
        },
{
    let mut lx = Lexer::new(source);
    match lx.tokenize() {
        Err(e) => Err(CompileError::Lexical(e)),
        Ok(tokens) => {
            let mut p = Parser::new(tokens);
            match p.parse() {
                Ok(prog) => Ok(prog),
                Err(e) => Err(CompileError::Syntax(e)),
            }
        },
    }
}

} // verus!
