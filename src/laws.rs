//! Properties of the grammar, proved over its spec functions.
use vstd::prelude::*;
use crate::ast::{BinaryOperator, ExprV, LitV, MemberV, StmtV, TypeV};
use crate::token::{Tok, TokAt};
use crate::lexer::{line_end, LexState, lex, lex_run, initial, step, finish, indent_phase, scan_phase, pop_to, dedents, tok_at, at_line_start, indent_scan, blank_at};
use crate::grammar::{program_items, parse_tokens, MAX_NESTING, perr, ParseErrorKind, opt, dict_entries, left, fwd, ahead, param_list, members, class_stmt, header_end, PErr, Part, text_end, close_brace, fparts, fstring, hole_expr, concat, stringify, str_lit, tk, expr, binop, climb, primary, postfix, call_args, expr_list, precedence, func, member, return_type};

verus! {

pub open spec fn ident(n: Seq<char>) -> ExprV {
    ExprV::Ident(n)
}

pub open spec fn bin(op: BinaryOperator, l: ExprV, r: ExprV) -> ExprV {
    ExprV::Bin(op, Box::new(l), Box::new(r))
}

/// A postfix chain ends no earlier than it starts.
proof fn lemma_postfix_ge(ts: Seq<TokAt>, i: int, e: ExprV, fuel: nat)
    ensures
        postfix(ts, i, e, fuel) matches Ok((_, m)) ==> m >= i,
    decreases fuel, left(ts, i),
{
    match tk(ts, i) {
        Tok::LParen => {
            if let Ok((args, j)) = call_args(ts, i + 1, fuel) {
                if fwd(ts, i, j) {
                    lemma_postfix_ge(ts, j, ExprV::Call(Box::new(e), args), fuel);
                }
            }
        },
        Tok::LBracket => {
            if let Ok((x, j)) = expr(ts, i + 1, fuel) {
                if tk(ts, j) is RBracket && fwd(ts, i, j + 1) {
                    lemma_postfix_ge(ts, j + 1, ExprV::Index(Box::new(e), Box::new(x)), fuel);
                }
            }
        },
        Tok::Dot => {
            if let Tok::Ident(n) = tk(ts, i + 1) {
                lemma_postfix_ge(ts, i + 2, ExprV::Get(Box::new(e), n), fuel);
            }
        },
        _ => {},
    }
}

/// A bracketed or `new` primary consumes at least one token.
#[verifier::spinoff_prover]
#[verifier::rlimit(100)]
proof fn lemma_compound_advances(ts: Seq<TokAt>, i: int, fuel: nat)
    requires
        tk(ts, i) is New || tk(ts, i) is LParen || tk(ts, i) is LBracket || tk(ts, i) is LBrace,
    ensures
        primary(ts, i, fuel) matches Ok((_, m)) ==> i < m,
{
    if let Ok((_, m)) = primary(ts, i, fuel) {
        if tk(ts, i) is New {
            if let Tok::Ident(n) = tk(ts, i + 1) {
                if let Ok((args, k)) = call_args(ts, i + 3, fuel) {
                    lemma_postfix_ge(ts, k, ExprV::New(n, args), fuel);
                }
            }
        } else if tk(ts, i) is LParen {
            if let Ok((x, j)) = expr(ts, i + 1, fuel) {
                lemma_postfix_ge(ts, j + 1, x, fuel);
            }
        } else if tk(ts, i) is LBracket {
            lemma_postfix_ge(ts, i + 2, ExprV::List(Seq::empty()), fuel);
            if let Ok((xs, j)) = expr_list(ts, i + 1, fuel) {
                lemma_postfix_ge(ts, j + 1, ExprV::List(xs), fuel);
            }
        } else {
            let j = opt(ts, opt(ts, i + 1, Tok::Newline), Tok::Indent);
            lemma_postfix_ge(ts, j + 1, ExprV::Dict(Seq::empty()), fuel);
            if let Ok((es, k)) = dict_entries(ts, j, fuel) {
                let q = opt(ts, opt(ts, k, Tok::Newline), Tok::Dedent) + 1;
                lemma_postfix_ge(ts, q, ExprV::Dict(es), fuel);
            }
        }
    }
}

/// A primary consumes at least one token.
#[verifier::spinoff_prover]
#[verifier::rlimit(100)]
proof fn lemma_primary_advances(ts: Seq<TokAt>, i: int, fuel: nat)
    ensures
        primary(ts, i, fuel) matches Ok((_, m)) ==> i < m && i < ts.len(),
{
    let t = tk(ts, i);
    if t is New || t is LParen || t is LBracket || t is LBrace {
        lemma_compound_advances(ts, i, fuel);
    } else {
        match t {
            Tok::Int(n) => lemma_postfix_ge(ts, i + 1, ExprV::Lit(LitV::Int(n)), fuel),
            Tok::Float(f) => lemma_postfix_ge(ts, i + 1, ExprV::Lit(LitV::Float(f)), fuel),
            Tok::Str(x) => lemma_postfix_ge(ts, i + 1, str_lit(x), fuel),
            Tok::True => lemma_postfix_ge(ts, i + 1, ExprV::Lit(LitV::Bool(true)), fuel),
            Tok::False => lemma_postfix_ge(ts, i + 1, ExprV::Lit(LitV::Bool(false)), fuel),
            Tok::Ident(n) => lemma_postfix_ge(ts, i + 1, ExprV::Ident(n), fuel),
            Tok::This => lemma_postfix_ge(ts, i + 1, ExprV::This, fuel),
            Tok::FString(body) => {
                let at = perr(ts, i, ParseErrorKind::MalformedPlaceholder);
                if let Some(ps) = fparts(body, 0) {
                    if let Ok(x) = fstring(ps, fuel, at) {
                        lemma_postfix_ge(ts, i + 1, x, fuel);
                    }
                }
            },
            _ => {},
        }
    }
}

/// Operators of equal precedence group to the left: primaries `a`, `b`,
/// `c` joined as `a o1 b o2 c`, and then no operator, parse as
/// `(a o1 b) o2 c`.
pub proof fn law_left_associative(
    ts: Seq<TokAt>,
    i: int,
    a: ExprV,
    o1: BinaryOperator,
    b: ExprV,
    o2: BinaryOperator,
    c: ExprV,
    j1: int,
    j2: int,
    j3: int,
    fuel: nat,
)
    requires
        primary(ts, i, fuel) == Ok::<(ExprV, int), PErr>((a, j1)),
        tk(ts, j1) == Tok::Op(o1),
        primary(ts, j1 + 1, fuel) == Ok::<(ExprV, int), PErr>((b, j2)),
        tk(ts, j2) == Tok::Op(o2),
        primary(ts, j2 + 1, fuel) == Ok::<(ExprV, int), PErr>((c, j3)),
        !(tk(ts, j3) is Op),
        precedence(o1) == precedence(o2),
    ensures
        expr(ts, i, fuel) == Ok::<(ExprV, int), PErr>((bin(o2, bin(o1, a, b), c), j3)),
{
    let p = precedence(o1);
    lemma_primary_advances(ts, i, fuel);
    lemma_primary_advances(ts, j1 + 1, fuel);
    lemma_primary_advances(ts, j2 + 1, fuel);
    let ab = bin(o1, a, b);
    let abc = bin(o2, ab, c);
    assert(climb(ts, j3, p + 1, c, fuel) == Ok::<(ExprV, int), PErr>((c, j3)));
    assert(binop(ts, j2 + 1, p + 1, fuel) == Ok::<(ExprV, int), PErr>((c, j3)));
    assert(climb(ts, j2, p + 1, b, fuel) == Ok::<(ExprV, int), PErr>((b, j2)));
    assert(binop(ts, j1 + 1, p + 1, fuel) == Ok::<(ExprV, int), PErr>((b, j2)));
    assert(climb(ts, j3, 0, abc, fuel) == Ok::<(ExprV, int), PErr>((abc, j3)));
    assert(climb(ts, j2, 0, ab, fuel) == Ok::<(ExprV, int), PErr>((abc, j3)));
    assert(climb(ts, j1, 0, a, fuel) == Ok::<(ExprV, int), PErr>((abc, j3)));
    assert(binop(ts, i, 0, fuel) == Ok::<(ExprV, int), PErr>((abc, j3)));
}

/// A tighter operator binds first on the right: with `lo` looser than `hi`,
/// primaries `a lo b hi c`, then no operator, parse as `a lo (b hi c)`.
pub proof fn law_precedence_right(
    ts: Seq<TokAt>,
    i: int,
    a: ExprV,
    lo: BinaryOperator,
    b: ExprV,
    hi: BinaryOperator,
    c: ExprV,
    j1: int,
    j2: int,
    j3: int,
    fuel: nat,
)
    requires
        primary(ts, i, fuel) == Ok::<(ExprV, int), PErr>((a, j1)),
        tk(ts, j1) == Tok::Op(lo),
        primary(ts, j1 + 1, fuel) == Ok::<(ExprV, int), PErr>((b, j2)),
        tk(ts, j2) == Tok::Op(hi),
        primary(ts, j2 + 1, fuel) == Ok::<(ExprV, int), PErr>((c, j3)),
        !(tk(ts, j3) is Op),
        precedence(lo) < precedence(hi),
    ensures
        expr(ts, i, fuel) == Ok::<(ExprV, int), PErr>((bin(lo, a, bin(hi, b, c)), j3)),
{
    let lo_prec = precedence(lo);
    let hi_prec = precedence(hi);
    lemma_primary_advances(ts, i, fuel);
    lemma_primary_advances(ts, j1 + 1, fuel);
    lemma_primary_advances(ts, j2 + 1, fuel);
    let bc = bin(hi, b, c);
    let abc = bin(lo, a, bc);
    assert(climb(ts, j3, hi_prec + 1, c, fuel) == Ok::<(ExprV, int), PErr>((c, j3)));
    assert(binop(ts, j2 + 1, hi_prec + 1, fuel) == Ok::<(ExprV, int), PErr>((c, j3)));
    assert(climb(ts, j3, lo_prec + 1, bc, fuel) == Ok::<(ExprV, int), PErr>((bc, j3)));
    assert(climb(ts, j2, lo_prec + 1, b, fuel) == Ok::<(ExprV, int), PErr>((bc, j3)));
    assert(binop(ts, j1 + 1, lo_prec + 1, fuel) == Ok::<(ExprV, int), PErr>((bc, j3)));
    assert(climb(ts, j3, 0, abc, fuel) == Ok::<(ExprV, int), PErr>((abc, j3)));
    assert(climb(ts, j1, 0, a, fuel) == Ok::<(ExprV, int), PErr>((abc, j3)));
    assert(binop(ts, i, 0, fuel) == Ok::<(ExprV, int), PErr>((abc, j3)));
}

/// A tighter operator binds first on the left: with `lo` looser than `hi`,
/// primaries `a hi b lo c`, then no operator, parse as `(a hi b) lo c`.
pub proof fn law_precedence_left(
    ts: Seq<TokAt>,
    i: int,
    a: ExprV,
    hi: BinaryOperator,
    b: ExprV,
    lo: BinaryOperator,
    c: ExprV,
    j1: int,
    j2: int,
    j3: int,
    fuel: nat,
)
    requires
        primary(ts, i, fuel) == Ok::<(ExprV, int), PErr>((a, j1)),
        tk(ts, j1) == Tok::Op(hi),
        primary(ts, j1 + 1, fuel) == Ok::<(ExprV, int), PErr>((b, j2)),
        tk(ts, j2) == Tok::Op(lo),
        primary(ts, j2 + 1, fuel) == Ok::<(ExprV, int), PErr>((c, j3)),
        !(tk(ts, j3) is Op),
        precedence(lo) < precedence(hi),
    ensures
        expr(ts, i, fuel) == Ok::<(ExprV, int), PErr>((bin(lo, bin(hi, a, b), c), j3)),
{
    let lo_prec = precedence(lo);
    let hi_prec = precedence(hi);
    lemma_primary_advances(ts, i, fuel);
    lemma_primary_advances(ts, j1 + 1, fuel);
    lemma_primary_advances(ts, j2 + 1, fuel);
    let ab = bin(hi, a, b);
    let abc = bin(lo, ab, c);
    assert(climb(ts, j3, lo_prec + 1, c, fuel) == Ok::<(ExprV, int), PErr>((c, j3)));
    assert(binop(ts, j2 + 1, lo_prec + 1, fuel) == Ok::<(ExprV, int), PErr>((c, j3)));
    assert(climb(ts, j2, hi_prec + 1, b, fuel) == Ok::<(ExprV, int), PErr>((b, j2)));
    assert(binop(ts, j1 + 1, hi_prec + 1, fuel) == Ok::<(ExprV, int), PErr>((b, j2)));
    assert(climb(ts, j3, 0, abc, fuel) == Ok::<(ExprV, int), PErr>((abc, j3)));
    assert(climb(ts, j2, 0, ab, fuel) == Ok::<(ExprV, int), PErr>((abc, j3)));
    assert(climb(ts, j1, 0, a, fuel) == Ok::<(ExprV, int), PErr>((abc, j3)));
    assert(binop(ts, i, 0, fuel) == Ok::<(ExprV, int), PErr>((abc, j3)));
}

/// For `def` at `i`: the position just past the `)` that closes the
/// parameters, where a `-> T` clause would begin.
pub open spec fn params_close(ts: Seq<TokAt>, i: int) -> int {
    if tk(ts, i + 3) is RParen {
        i + 4
    } else {
        match param_list(ts, i + 3) {
            Ok((_, k)) => k + 1,
            Err(_) => i + 3,
        }
    }
}

/// A function defined without `-> T` after its parameters returns `void`.
pub proof fn law_void_return_default(ts: Seq<TokAt>, i: int, is_public: bool, fuel: nat)
    requires
        func(ts, i, is_public, fuel) is Ok,
        !(tk(ts, params_close(ts, i)) is Arrow),
    ensures
        func(ts, i, is_public, fuel)->Ok_0.0.ret == TypeV::Void,
{
    reveal(func);
}

/// A class member is a constructor exactly when it is a function named `init`.
pub proof fn law_constructor_is_init(ts: Seq<TokAt>, i: int, fuel: nat)
    requires
        member(ts, i, fuel) is Ok,
    ensures
        member(ts, i, fuel)->Ok_0.0 matches MemberV::Constructor(f) ==> f.name == "init"@,
        member(ts, i, fuel)->Ok_0.0 matches MemberV::Method(f) ==> f.name != "init"@,
{
    reveal(member);
}

/// A member is a constructor if and only if it is a function named `init`.
pub open spec fn init_rule(m: MemberV) -> bool {
    &&& (m matches MemberV::Constructor(f) ==> f.name == "init"@)
    &&& (m matches MemberV::Method(f) ==> f.name != "init"@)
}

#[verifier::spinoff_prover]
#[verifier::rlimit(100)]
proof fn lemma_members_init(ts: Seq<TokAt>, i: int, fuel: nat)
    ensures
        members(ts, i, fuel) matches Ok((ms, _)) ==> forall|k: int| 0 <= k < ms.len() ==> init_rule(#[trigger] ms[k]),
    decreases left(ts, i),
{
    match tk(ts, i) {
        Tok::Newline => lemma_members_init(ts, i + 1, fuel),
        Tok::Dedent => {},
        Tok::Eof => {},
        _ => {
            if let Ok((m, k)) = member(ts, i, fuel) {
                law_constructor_is_init(ts, i, fuel);
                if ahead(ts, i, k) {
                    lemma_members_init(ts, k, fuel);
                    if let Ok((rest, e)) = members(ts, k, fuel) {
                        assert(members(ts, i, fuel) == Ok::<(Seq<MemberV>, int), PErr>((seq![m] + rest, e)));
                        assert forall|q: int| 0 <= q < (seq![m] + rest).len() implies init_rule(#[trigger] (seq![m] + rest)[q]) by {
                            if q > 0 {
                                assert((seq![m] + rest)[q] == rest[q - 1]);
                            } else {
                                assert((seq![m] + rest)[q] == m);
                                assert(init_rule(m));
                            }
                        }
                    }
                }
            }
        },
    }
}

/// In every parsed class, each member written with `def` is a constructor
/// if it is named `init` and a method otherwise.
pub proof fn law_class_constructors(ts: Seq<TokAt>, i: int, is_public: bool, fuel: nat)
    ensures
        class_stmt(ts, i, is_public, fuel) matches Ok((StmtV::Class(_, _, ms), _)) ==> forall|k: int|
            0 <= k < ms.len() ==> init_rule(#[trigger] ms[k]),
{
    if tk(ts, i + 1) is Ident {
        if let Ok(j) = header_end(ts, i + 2) {
            lemma_members_init(ts, j + 1, fuel);
        }
    }
}

/// `ts` is `a.b(x)[y].c` followed by EOF.
pub open spec fn postfix_chain(ts: Seq<TokAt>, a: Seq<char>, b: Seq<char>, x: i64, y: i64, c: Seq<char>) -> bool {
    &&& ts.len() == 12
    &&& tk(ts, 0) == Tok::Ident(a)
    &&& tk(ts, 1) == Tok::Dot
    &&& tk(ts, 2) == Tok::Ident(b)
    &&& tk(ts, 3) == Tok::LParen
    &&& tk(ts, 4) == Tok::Int(x)
    &&& tk(ts, 5) == Tok::RParen
    &&& tk(ts, 6) == Tok::LBracket
    &&& tk(ts, 7) == Tok::Int(y)
    &&& tk(ts, 8) == Tok::RBracket
    &&& tk(ts, 9) == Tok::Dot
    &&& tk(ts, 10) == Tok::Ident(c)
    &&& tk(ts, 11) == Tok::Eof
}

pub open spec fn int_lit(n: i64) -> ExprV {
    ExprV::Lit(LitV::Int(n))
}

proof fn lemma_int_before_closer(ts: Seq<TokAt>, i: int, n: i64, fuel: nat)
    requires
        0 <= i,
        tk(ts, i) == Tok::Int(n),
        tk(ts, i + 1) is RParen || tk(ts, i + 1) is RBracket,
    ensures
        expr(ts, i, fuel) == Ok::<(ExprV, int), PErr>((int_lit(n), i + 1)),
{
    assert(postfix(ts, i + 1, int_lit(n), fuel) == Ok::<(ExprV, int), PErr>((int_lit(n), i + 1)));
    assert(primary(ts, i, fuel) == Ok::<(ExprV, int), PErr>((int_lit(n), i + 1)));
    assert(climb(ts, i + 1, 0, int_lit(n), fuel) == Ok::<(ExprV, int), PErr>((int_lit(n), i + 1)));
    assert(binop(ts, i, 0, fuel) == Ok::<(ExprV, int), PErr>((int_lit(n), i + 1)));
}

/// Calls, indexings and member accesses nest to the left:
/// `a.b(x)[y].c` is `Get(Index(Call(Get(a, b), [x]), y), c)`.
pub proof fn law_postfix_left_fold(ts: Seq<TokAt>, a: Seq<char>, b: Seq<char>, x: i64, y: i64, c: Seq<char>, fuel: nat)
    requires
        postfix_chain(ts, a, b, x, y, c),
    ensures
        expr(ts, 0, fuel) == Ok::<(ExprV, int), PErr>((
            ExprV::Get(
                Box::new(ExprV::Index(
                    Box::new(ExprV::Call(Box::new(ExprV::Get(Box::new(ident(a)), b)), seq![int_lit(x)])),
                    Box::new(int_lit(y)),
                )),
                c,
            ),
            11,
        )),
{
    let get_b = ExprV::Get(Box::new(ident(a)), b);
    let called = ExprV::Call(Box::new(get_b), seq![int_lit(x)]);
    let indexed = ExprV::Index(Box::new(called), Box::new(int_lit(y)));
    let whole = ExprV::Get(Box::new(indexed), c);
    lemma_int_before_closer(ts, 4, x, fuel);
    lemma_int_before_closer(ts, 7, y, fuel);
    assert(expr_list(ts, 4, fuel) == Ok::<(Seq<ExprV>, int), PErr>((seq![int_lit(x)], 5)));
    assert(call_args(ts, 4, fuel) == Ok::<(Seq<ExprV>, int), PErr>((seq![int_lit(x)], 6)));
    assert(postfix(ts, 11, whole, fuel) == Ok::<(ExprV, int), PErr>((whole, 11)));
    assert(postfix(ts, 9, indexed, fuel) == Ok::<(ExprV, int), PErr>((whole, 11)));
    assert(postfix(ts, 6, called, fuel) == Ok::<(ExprV, int), PErr>((whole, 11)));
    assert(postfix(ts, 3, get_b, fuel) == Ok::<(ExprV, int), PErr>((whole, 11)));
    assert(postfix(ts, 1, ident(a), fuel) == Ok::<(ExprV, int), PErr>((whole, 11)));
    assert(primary(ts, 0, fuel) == Ok::<(ExprV, int), PErr>((whole, 11)));
    assert(climb(ts, 11, 0, whole, fuel) == Ok::<(ExprV, int), PErr>((whole, 11)));
    assert(binop(ts, 0, 0, fuel) == Ok::<(ExprV, int), PErr>((whole, 11)));
}

/// What a token does to the block depth.
pub open spec fn nest(t: TokAt) -> int {
    if t.tok is Indent {
        1
    } else if t.tok is Dedent {
        -1
    } else {
        0
    }
}

/// Indents minus Dedents.
pub open spec fn depth(ts: Seq<TokAt>) -> int
    decreases ts.len(),
{
    if ts.len() == 0 {
        0
    } else {
        depth(ts.drop_last()) + nest(ts.last())
    }
}

/// Every prefix has at least as many Indents as Dedents, and the whole has
/// as many.
pub open spec fn balanced(ts: Seq<TokAt>) -> bool {
    &&& forall|k: int| 0 <= k <= ts.len() ==> depth(#[trigger] ts.take(k)) >= 0
    &&& depth(ts) == 0
}

pub open spec fn lex_inv(st: LexState) -> bool {
    &&& st.stack.len() >= 1
    &&& depth(st.toks) == st.stack.len() - 1
    &&& forall|k: int| 0 <= k <= st.toks.len() ==> depth(#[trigger] st.toks.take(k)) >= 0
}

proof fn lemma_push(ts: Seq<TokAt>, t: TokAt)
    requires
        forall|k: int| 0 <= k <= ts.len() ==> depth(#[trigger] ts.take(k)) >= 0,
        depth(ts) + nest(t) >= 0,
    ensures
        depth(ts.push(t)) == depth(ts) + nest(t),
        forall|k: int| 0 <= k <= ts.push(t).len() ==> depth(#[trigger] ts.push(t).take(k)) >= 0,
{
    assert(ts.push(t).drop_last() =~= ts);
    assert forall|k: int| 0 <= k <= ts.push(t).len() implies depth(#[trigger] ts.push(t).take(k)) >= 0 by {
        if k <= ts.len() {
            assert(ts.push(t).take(k) =~= ts.take(k));
        } else {
            assert(ts.push(t).take(k) =~= ts.push(t));
        }
    }
}

proof fn lemma_dedents(ts: Seq<TokAt>, input: Seq<char>, p: int, n: nat)
    requires
        forall|k: int| 0 <= k <= ts.len() ==> depth(#[trigger] ts.take(k)) >= 0,
        depth(ts) >= n,
    ensures
        depth(ts + dedents(input, p, n)) == depth(ts) - n,
        forall|k: int|
            0 <= k <= (ts + dedents(input, p, n)).len() ==> depth(#[trigger] (ts + dedents(input, p, n)).take(k)) >= 0,
    decreases n,
{
    if n == 0 {
        assert(ts + dedents(input, p, n) =~= ts);
    } else {
        let m = (n - 1) as nat;
        lemma_dedents(ts, input, p, m);
        let t = tok_at(input, p, Tok::Dedent);
        assert(ts + dedents(input, p, n) =~= (ts + dedents(input, p, m)).push(t));
        lemma_push(ts + dedents(input, p, m), t);
    }
}

proof fn lemma_pop_to(stack: Seq<int>, w: int)
    ensures
        pop_to(stack, w).0.len() + pop_to(stack, w).1 == stack.len(),
    decreases stack.len(),
{
    if stack.len() > 0 && w < stack.last() {
        lemma_pop_to(stack.drop_last(), w);
    }
}

pub(crate) proof fn lemma_indent_scan(input: Seq<char>, i: int)
    ensures
        indent_scan(input, i).0 >= i,
    decreases input.len() - i,
{
    if 0 <= i < input.len() && (input[i] == ' ' || input[i] == '\t') {
        lemma_indent_scan(input, i + 1);
    }
}

proof fn lemma_indent_phase(input: Seq<char>, st: LexState)
    requires
        lex_inv(st),
        indent_phase(input, st) is Ok,
    ensures
        lex_inv(indent_phase(input, st)->Ok_0),
        indent_phase(input, st)->Ok_0.pos >= st.pos,
{
    lemma_indent_scan(input, st.pos);
    if at_line_start(input, st.pos) {
        let (q, w) = indent_scan(input, st.pos);
        if blank_at(input, q) {
        } else if w > st.stack.last() {
            lemma_push(st.toks, tok_at(input, st.pos, Tok::Indent));
        } else {
            lemma_pop_to(st.stack, w);
            let (s2, n) = pop_to(st.stack, w);
            lemma_dedents(st.toks, input, st.pos, n);
        }
    }
}

proof fn lemma_scan_phase(input: Seq<char>, st: LexState)
    requires
        lex_inv(st),
        0 <= st.pos < input.len(),
        scan_phase(input, st) is Ok,
    ensures
        lex_inv(scan_phase(input, st)->Ok_0),
{
    let s2 = scan_phase(input, st)->Ok_0;
    assert(s2.stack == st.stack && (s2.toks == st.toks || (s2.toks == st.toks.push(s2.toks.last()) && nest(s2.toks.last()) == 0)));
    if s2.toks != st.toks {
        lemma_push(st.toks, s2.toks.last());
    }
}

proof fn lemma_finish(input: Seq<char>, st: LexState)
    requires
        lex_inv(st),
    ensures
        balanced(finish(input, st)),
{
    let n = (st.stack.len() - 1) as nat;
    let len = input.len() as int;
    lemma_dedents(st.toks, input, len, n);
    let t = tok_at(input, len, Tok::Eof);
    assert(finish(input, st) =~= (st.toks + dedents(input, len, n)).push(t));
    lemma_push(st.toks + dedents(input, len, n), t);
}

proof fn lemma_run(input: Seq<char>, st: LexState)
    requires
        lex_inv(st),
        0 <= st.pos,
    ensures
        lex_run(input, st) matches Ok(ts) ==> balanced(ts),
    decreases input.len() - st.pos,
{
    if st.pos >= input.len() {
        lemma_finish(input, st);
    } else {
        match indent_phase(input, st) {
            Err(_) => {},
            Ok(s1) => {
                lemma_indent_phase(input, st);
                if s1.pos < input.len() {
                    if scan_phase(input, s1) is Ok {
                        lemma_scan_phase(input, s1);
                    }
                }
                match step(input, st) {
                    Err(_) => {},
                    Ok(s2) => {
                        if st.pos < s2.pos <= input.len() {
                            lemma_run(input, s2);
                        } else {
                            lemma_finish(input, s2);
                        }
                    },
                }
            },
        }
    }
}

/// The lexer's Indents and Dedents pair up: no prefix of the token stream
/// closes more blocks than it opened, and the whole stream closes them all.
pub proof fn law_indent_dedent_balance(input: Seq<char>)
    ensures
        lex(input) matches Ok(ts) ==> balanced(ts),
{
    let st = initial(0);
    assert(st.toks.take(0) =~= st.toks);
    lemma_run(input, st);
}

pub open spec fn brace_free(s: Seq<char>) -> bool {
    forall|k: int| 0 <= k < s.len() ==> s[k] != '{' && s[k] != '}'
}

proof fn lemma_text_end(body: Seq<char>, k: int, e: int)
    requires
        0 <= k <= e <= body.len(),
        forall|m: int| k <= m < e ==> body[m] != '{',
        e == body.len() || body[e] == '{',
    ensures
        text_end(body, k) == e,
    decreases e - k,
{
    if k < e {
        lemma_text_end(body, k + 1, e);
    }
}

proof fn lemma_close_brace(body: Seq<char>, j: int, c: int)
    requires
        0 <= j <= c < body.len(),
        forall|m: int| j <= m < c ==> body[m] != '{' && body[m] != '}',
        body[c] == '}',
    ensures
        close_brace(body, j, 1) == Some(c),
    decreases c - j,
{
    if j < c {
        lemma_close_brace(body, j + 1, c);
    }
}

/// The placeholder `{h}` at `k` in `body`, followed by the pieces from its end.
proof fn lemma_hole(body: Seq<char>, k: int, h: Seq<char>)
    requires
        0 <= k,
        k + h.len() + 2 <= body.len(),
        body[k] == '{',
        body.subrange(k + 1, k + 1 + h.len()) == h,
        body[k + 1 + h.len()] == '}',
        brace_free(h),
    ensures
        fparts(body, k) == match fparts(body, k + h.len() + 2) {
            Some(rest) => Some(seq![Part::Hole(h)] + rest),
            None => None::<Seq<Part>>,
        },
{
    let c = k + 1 + h.len();
    assert forall|m: int| k + 1 <= m < c implies body[m] != '{' && body[m] != '}' by {
        assert(body[m] == h[m - k - 1]);
    }
    lemma_close_brace(body, k + 1, c);
}

/// An f-string `t{h}` with brace-free `t` and `h`, `t` not empty, is
/// `t + to_string(e)` where `e` is `h` parsed as an expression.
#[verifier::spinoff_prover]
#[verifier::rlimit(60)]
pub proof fn law_fstring_text_then_placeholder(t: Seq<char>, h: Seq<char>, fuel: nat, at: PErr)
    requires
        t.len() > 0,
        brace_free(t),
        brace_free(h),
    ensures
        fparts(t + seq!['{'] + h + seq!['}'], 0) == Some(seq![Part::Text(t), Part::Hole(h)]),
        fstring(seq![Part::Text(t), Part::Hole(h)], fuel, at) == match hole_expr(h, fuel, at) {
            Ok(e) => Ok(concat(str_lit(t), stringify(e))),
            Err(x) => Err::<ExprV, PErr>(x),
        },
{
    let body = t + seq!['{'] + h + seq!['}'];
    let n = t.len() as int;
    assert(body.subrange(n + 1, n + 1 + h.len()) =~= h);
    assert(body.subrange(0, n) =~= t);
    lemma_text_end(body, 0, n);
    lemma_hole(body, n, h);
    assert(fparts(body, n + h.len() + 2) == Some(Seq::<Part>::empty()));
    assert(seq![Part::Hole(h)] + Seq::<Part>::empty() =~= seq![Part::Hole(h)]);
    assert(seq![Part::Text(t)] + seq![Part::Hole(h)] =~= seq![Part::Text(t), Part::Hole(h)]);
    let ps = seq![Part::Text(t), Part::Hole(h)];
    assert(ps.drop_first() =~= seq![Part::Hole(h)]);
    assert(seq![Part::Hole(h)].drop_first() =~= Seq::<Part>::empty());
}

#[verifier::spinoff_prover]
#[verifier::rlimit(60)]
proof fn lemma_two_holes_parts(a: Seq<char>, b: Seq<char>)
    requires
        brace_free(a),
        brace_free(b),
    ensures
        fparts(seq!['{'] + a + seq!['}', '{'] + b + seq!['}'], 0) == Some(seq![Part::Hole(a), Part::Hole(b)]),
{
    let body = seq!['{'] + a + seq!['}', '{'] + b + seq!['}'];
    let m = a.len() as int + 2;
    assert(body.len() == m + b.len() + 2);
    assert(body[0] == '{');
    assert(body[1 + a.len() as int] == '}');
    assert(body[m] == '{');
    assert(body[m + 1 + b.len()] == '}');
    assert(body.subrange(1, 1 + a.len() as int) =~= a);
    assert(body.subrange(m + 1, m + 1 + b.len()) =~= b);
    lemma_hole(body, m, b);
    assert(fparts(body, m + b.len() + 2) == Some(Seq::<Part>::empty()));
    assert(seq![Part::Hole(b)] + Seq::<Part>::empty() =~= seq![Part::Hole(b)]);
    lemma_hole(body, 0, a);
    assert(seq![Part::Hole(a)] + seq![Part::Hole(b)] =~= seq![Part::Hole(a), Part::Hole(b)]);
}

/// An f-string `{a}{b}` with brace-free `a` and `b` is
/// `("" + to_string(x)) + to_string(y)` for `a` and `b` parsed as `x` and `y`.
#[verifier::spinoff_prover]
#[verifier::rlimit(60)]
pub proof fn law_fstring_two_placeholders(a: Seq<char>, b: Seq<char>, fuel: nat, at: PErr)
    requires
        brace_free(a),
        brace_free(b),
    ensures
        fparts(seq!['{'] + a + seq!['}', '{'] + b + seq!['}'], 0) == Some(seq![Part::Hole(a), Part::Hole(b)]),
        fstring(seq![Part::Hole(a), Part::Hole(b)], fuel, at) == match (hole_expr(a, fuel, at), hole_expr(b, fuel, at)) {
            (Ok(x), Ok(y)) => Ok(concat(concat(str_lit(Seq::empty()), stringify(x)), stringify(y))),
            (Err(e), _) => Err::<ExprV, PErr>(e),
            (Ok(_), Err(e)) => Err::<ExprV, PErr>(e),
        },
{
    lemma_two_holes_parts(a, b);
    let ps = seq![Part::Hole(a), Part::Hole(b)];
    assert(ps.drop_first() =~= seq![Part::Hole(b)]);
    assert(seq![Part::Hole(b)].drop_first() =~= Seq::<Part>::empty());
}

/// The empty f-string is the empty string.
pub proof fn law_fstring_empty(fuel: nat, at: PErr)
    ensures
        fparts(Seq::empty(), 0) == Some(Seq::<Part>::empty()),
        fstring(Seq::empty(), fuel, at) == Ok::<ExprV, PErr>(str_lit(Seq::empty())),
{
}

/// From `i` on, the source holds only spaces, tabs, carriage returns,
/// newlines and `#` comments.
pub open spec fn only_blank(input: Seq<char>, i: int) -> bool
    decreases input.len() - i,
{
    if i < 0 || i >= input.len() {
        true
    } else if input[i] == ' ' || input[i] == '\t' || input[i] == '\r' || input[i] == '\n' {
        only_blank(input, i + 1)
    } else if input[i] == '#' {
        let e = line_end(input, i);
        if i < e <= input.len() {
            only_blank(input, e)
        } else {
            false
        }
    } else {
        false
    }
}

proof fn lemma_line_end(input: Seq<char>, i: int)
    requires
        0 <= i <= input.len(),
    ensures
        i <= line_end(input, i) <= input.len(),
    decreases input.len() - i,
{
    if i < input.len() && input[i] != '\n' {
        lemma_line_end(input, i + 1);
    }
}

proof fn lemma_blank_indent(input: Seq<char>, i: int)
    requires
        0 <= i,
        only_blank(input, i),
    ensures
        only_blank(input, indent_scan(input, i).0),
    decreases input.len() - i,
{
    if 0 <= i < input.len() && (input[i] == ' ' || input[i] == '\t') {
        lemma_blank_indent(input, i + 1);
    }
}

pub open spec fn blank_inv(input: Seq<char>, st: LexState) -> bool {
    &&& 0 <= st.pos
    &&& st.stack == seq![0int]
    &&& forall|k: int| 0 <= k < st.toks.len() ==> #[trigger] st.toks[k].tok is Newline
    &&& only_blank(input, st.pos)
}

proof fn lemma_indent_stop(input: Seq<char>, i: int)
    requires
        0 <= i,
    ensures
        indent_scan(input, i).0 < input.len() ==> !(input[indent_scan(input, i).0] == ' ' || input[indent_scan(input, i).0]
            == '\t'),
        i <= input.len() ==> indent_scan(input, i).0 <= input.len(),
    decreases input.len() - i,
{
    if 0 <= i < input.len() && (input[i] == ' ' || input[i] == '\t') {
        lemma_indent_stop(input, i + 1);
    }
}

proof fn lemma_blank_indent_phase(input: Seq<char>, st: LexState)
    requires
        blank_inv(input, st),
    ensures
        indent_phase(input, st) matches Ok(s1) && blank_inv(input, s1) && s1.pos >= st.pos && (st.pos
            <= input.len() ==> s1.pos <= input.len()),
{
    lemma_indent_scan(input, st.pos);
    lemma_blank_indent(input, st.pos);
    lemma_indent_stop(input, st.pos);
    if at_line_start(input, st.pos) {
        let q = indent_scan(input, st.pos).0;
        if q < input.len() {
            assert(blank_at(input, q));
        }
    }
}

#[verifier::spinoff_prover]
proof fn lemma_blank_scan(input: Seq<char>, s1: LexState)
    requires
        blank_inv(input, s1),
        s1.pos < input.len(),
    ensures
        scan_phase(input, s1) matches Ok(s2) && blank_inv(input, s2) && s1.pos < s2.pos <= input.len(),
{
    let p = s1.pos;
    lemma_line_end(input, p);
    let s2 = scan_phase(input, s1)->Ok_0;
    if input[p] == '\n' {
        assert forall|k: int| 0 <= k < s2.toks.len() implies #[trigger] s2.toks[k].tok is Newline by {
            if k < s1.toks.len() {
                assert(s2.toks[k] == s1.toks[k]);
            }
        }
    }
}

proof fn lemma_blank_step(input: Seq<char>, st: LexState)
    requires
        blank_inv(input, st),
        st.pos < input.len(),
    ensures
        step(input, st) matches Ok(s2) && blank_inv(input, s2) && st.pos < s2.pos <= input.len(),
{
    lemma_blank_indent_phase(input, st);
    let s1 = indent_phase(input, st)->Ok_0;
    if s1.pos < input.len() {
        lemma_blank_scan(input, s1);
    }
}

proof fn lemma_blank_run(input: Seq<char>, st: LexState)
    requires
        blank_inv(input, st),
    ensures
        lex_run(input, st) matches Ok(ts) && ts.len() >= 1 && ts.last().tok is Eof && (forall|k: int|
            0 <= k < ts.len() - 1 ==> #[trigger] ts[k].tok is Newline),
    decreases input.len() - st.pos,
{
    if st.pos >= input.len() {
        let ts = finish(input, st);
        assert(dedents(input, input.len() as int, 0) =~= Seq::<TokAt>::empty());
        assert(ts =~= st.toks.push(tok_at(input, input.len() as int, Tok::Eof)));
        assert forall|k: int| 0 <= k < ts.len() - 1 implies #[trigger] ts[k].tok is Newline by {
            assert(ts[k] == st.toks[k]);
        }
    } else {
        lemma_blank_step(input, st);
        lemma_blank_run(input, step(input, st)->Ok_0);
    }
}

proof fn lemma_newlines_parse(ts: Seq<TokAt>, i: int, fuel: nat)
    requires
        0 <= i <= ts.len() - 1,
        ts.last().tok is Eof,
        forall|k: int| 0 <= k < ts.len() - 1 ==> #[trigger] ts[k].tok is Newline,
    ensures
        program_items(ts, i, fuel) == Ok::<(Seq<StmtV>, int), PErr>((Seq::empty(), ts.len() - 1)),
    decreases ts.len() - i,
{
    if i < ts.len() - 1 {
        lemma_newlines_parse(ts, i + 1, fuel);
    }
}

/// A source of only whitespace, newlines and comments lexes, and parses to
/// the empty program.
pub proof fn law_blank_source_is_empty(src: Seq<char>)
    requires
        only_blank(src, 0),
    ensures
        lex(src) matches Ok(ts) && parse_tokens(ts) == Ok::<Seq<StmtV>, PErr>(Seq::empty()),
{
    assert(blank_inv(src, initial(0)));
    lemma_blank_run(src, initial(0));
    let ts = lex(src)->Ok_0;
    lemma_newlines_parse(ts, 0, MAX_NESTING as nat);
}

} // verus!
