//! Every bracket that a successful parse consumes is closed by the matching
//! bracket, properly nested.
use vstd::prelude::*;
use crate::token::{Tok, TokAt, TypeName};
use crate::grammar::{
    tk, left, fwd, ahead, expect, opt, precedence, parse_type, param_list, return_type, header_end, Expected, expr, binop,
    climb, expr_list, call_args, dict_entries, postfix, primary, decl, func, member, members, class_stmt, block, suite,
    if_stmt, while_stmt, for_stmt, try_stmt, print_stmt, pub_stmt, return_stmt, expr_stmt, stmt, block_items,
    program_items, parse_tokens, MAX_NESTING,
};
use crate::ast::{ExprV, LitV};
use crate::lexer::{LexState, lex, lex_run, initial, step, finish, indent_phase, scan_phase, pop_to, dedents, at_line_start, indent_scan, blank_at};
use crate::laws::lemma_indent_scan;
use crate::grammar::{perr, ParseErrorKind, fparts, fstring, str_lit};

verus! {

pub open spec fn is_open(t: Tok) -> bool {
    t is LParen || t is LBracket || t is LBrace
}

pub open spec fn is_close(t: Tok) -> bool {
    t is RParen || t is RBracket || t is RBrace
}

pub open spec fn closer(t: Tok) -> Tok {
    if t is LParen {
        Tok::RParen
    } else if t is LBracket {
        Tok::RBracket
    } else {
        Tok::RBrace
    }
}

/// Reads the brackets among tokens `i..j` against a stack of awaited
/// closers; `None` at a closer that is not the one awaited.
pub open spec fn run(ts: Seq<TokAt>, i: int, j: int, st: Seq<Tok>) -> Option<Seq<Tok>>
    decreases j - i,
{
    if i >= j {
        Some(st)
    } else if is_open(tk(ts, i)) {
        run(ts, i + 1, j, st.push(closer(tk(ts, i))))
    } else if is_close(tk(ts, i)) {
        if st.len() > 0 && st.last() == tk(ts, i) {
            run(ts, i + 1, j, st.drop_last())
        } else {
            None
        }
    } else {
        run(ts, i + 1, j, st)
    }
}

/// The brackets among tokens `i..j` pair up, properly nested.
pub open spec fn matched(ts: Seq<TokAt>, i: int, j: int) -> bool {
    &&& i <= j
    &&& forall|st: Seq<Tok>| #[trigger] run(ts, i, j, st) == Some(st)
}

proof fn lemma_split(ts: Seq<TokAt>, i: int, k: int, j: int, st: Seq<Tok>)
    requires
        i <= k <= j,
    ensures
        run(ts, i, j, st) == match run(ts, i, k, st) {
            Some(s2) => run(ts, k, j, s2),
            None => None,
        },
    decreases k - i,
{
    if i < k {
        let t = tk(ts, i);
        if is_open(t) {
            lemma_split(ts, i + 1, k, j, st.push(closer(t)));
        } else if is_close(t) {
            if st.len() > 0 && st.last() == t {
                lemma_split(ts, i + 1, k, j, st.drop_last());
            }
        } else {
            lemma_split(ts, i + 1, k, j, st);
        }
    }
}

proof fn lemma_concat(ts: Seq<TokAt>, i: int, k: int, j: int)
    requires
        matched(ts, i, k),
        matched(ts, k, j),
    ensures
        matched(ts, i, j),
{
    assert forall|st: Seq<Tok>| #[trigger] run(ts, i, j, st) == Some(st) by {
        lemma_split(ts, i, k, j, st);
        assert(run(ts, i, k, st) == Some(st));
        assert(run(ts, k, j, st) == Some(st));
    }
}

proof fn lemma_empty(ts: Seq<TokAt>, i: int)
    ensures
        matched(ts, i, i),
{
}

/// One token that is no bracket.
proof fn lemma_plain(ts: Seq<TokAt>, i: int)
    requires
        !is_open(tk(ts, i)),
        !is_close(tk(ts, i)),
    ensures
        matched(ts, i, i + 1),
{
    assert forall|st: Seq<Tok>| #[trigger] run(ts, i, i + 1, st) == Some(st) by {
        assert(run(ts, i + 1, i + 1, st) == Some(st));
    }
}

/// An opener, a matched run, and its closer.
proof fn lemma_wrap(ts: Seq<TokAt>, i: int, j: int)
    requires
        is_open(tk(ts, i)),
        matched(ts, i + 1, j),
        tk(ts, j) == closer(tk(ts, i)),
    ensures
        matched(ts, i, j + 1),
{
    assert forall|st: Seq<Tok>| #[trigger] run(ts, i, j + 1, st) == Some(st) by {
        let c = closer(tk(ts, i));
        lemma_split(ts, i + 1, j, j + 1, st.push(c));
        assert(run(ts, i + 1, j, st.push(c)) == Some(st.push(c)));
        assert(st.push(c).drop_last() =~= st);
        assert(run(ts, j + 1, j + 1, st) == Some(st));
    }
}

/// Skipping an optional token that is no bracket.
proof fn lemma_opt(ts: Seq<TokAt>, i: int, t: Tok)
    requires
        !is_open(t),
        !is_close(t),
    ensures
        matched(ts, i, opt(ts, i, t)),
{
    if tk(ts, i) == t {
        lemma_plain(ts, i);
    }
}

proof fn lemma_concat3(ts: Seq<TokAt>, a: int, b: int, c: int, d: int)
    requires
        matched(ts, a, b),
        matched(ts, b, c),
        matched(ts, c, d),
    ensures
        matched(ts, a, d),
{
    lemma_concat(ts, a, b, c);
    lemma_concat(ts, a, c, d);
}

proof fn br_parse_type(ts: Seq<TokAt>, i: int)
    ensures
        parse_type(ts, i) matches Ok((_, m)) ==> matched(ts, i, m),
    decreases left(ts, i),
{
    let t = tk(ts, i);
    if t == Tok::Type(TypeName::List) {
        if expect(ts, i + 1, Expected::LBracket) is Ok {
            br_parse_type(ts, i + 2);
            if let Ok((_, k)) = parse_type(ts, i + 2) {
                if tk(ts, k) == Tok::RBracket {
                    lemma_wrap(ts, i + 1, k);
                    lemma_plain(ts, i);
                    lemma_concat(ts, i, i + 1, k + 1);
                }
            }
        }
    } else if t == Tok::Type(TypeName::Dict) {
        if expect(ts, i + 1, Expected::LBracket) is Ok {
            br_parse_type(ts, i + 2);
            if let Ok((_, k)) = parse_type(ts, i + 2) {
                if tk(ts, k) == Tok::Comma && fwd(ts, i, k) {
                    br_parse_type(ts, k + 1);
                    if let Ok((_, n)) = parse_type(ts, k + 1) {
                        if tk(ts, n) == Tok::RBracket {
                            lemma_plain(ts, k);
                            lemma_concat3(ts, i + 2, k, k + 1, n);
                            lemma_wrap(ts, i + 1, n);
                            lemma_plain(ts, i);
                            lemma_concat(ts, i, i + 1, n + 1);
                        }
                    }
                }
            }
        }
    } else if !is_open(t) && !is_close(t) {
        lemma_plain(ts, i);
    }
}

proof fn br_param_list(ts: Seq<TokAt>, i: int)
    ensures
        param_list(ts, i) matches Ok((_, m)) ==> matched(ts, i, m),
    decreases left(ts, i),
{
    if tk(ts, i) is Ident && expect(ts, i + 1, Expected::Colon) is Ok {
        br_parse_type(ts, i + 2);
        lemma_plain(ts, i);
        lemma_plain(ts, i + 1);
        lemma_concat(ts, i, i + 1, i + 2);
        if let Ok((_, k)) = parse_type(ts, i + 2) {
            lemma_concat(ts, i, i + 2, k);
            if tk(ts, k) is Comma && fwd(ts, i, k) {
                br_param_list(ts, k + 1);
                lemma_plain(ts, k);
                if let Ok((_, q)) = param_list(ts, k + 1) {
                    lemma_concat3(ts, i, k, k + 1, q);
                }
            }
        }
    }
}

proof fn br_expr(ts: Seq<TokAt>, i: int, b: nat)
    ensures
        expr(ts, i, b) matches Ok((_, m)) ==> matched(ts, i, m),
    decreases b, left(ts, i), 9nat,
{
    br_binop(ts, i, 0, b);
}

proof fn br_binop(ts: Seq<TokAt>, i: int, minp: int, b: nat)
    ensures
        binop(ts, i, minp, b) matches Ok((_, m)) ==> matched(ts, i, m),
    decreases b, left(ts, i), 8nat,
{
    br_primary(ts, i, b);
    if let Ok((l, j)) = primary(ts, i, b) {
        if fwd(ts, i, j) {
            br_climb(ts, j, minp, l, b);
            if let Ok((_, k)) = climb(ts, j, minp, l, b) {
                lemma_concat(ts, i, j, k);
            }
        }
    }
}

proof fn br_climb(ts: Seq<TokAt>, j: int, minp: int, l: ExprV, b: nat)
    ensures
        climb(ts, j, minp, l, b) matches Ok((_, m)) ==> matched(ts, j, m),
    decreases b, left(ts, j), 6nat,
{
    lemma_empty(ts, j);
    if let Tok::Op(op) = tk(ts, j) {
        if precedence(op) >= minp {
            br_binop(ts, j + 1, precedence(op) + 1, b);
            if let Ok((r, k)) = binop(ts, j + 1, precedence(op) + 1, b) {
                if fwd(ts, j, k) {
                    lemma_plain(ts, j);
                    lemma_concat(ts, j, j + 1, k);
                    br_climb(ts, k, minp, ExprV::Bin(op, Box::new(l), Box::new(r)), b);
                    if let Ok((_, q)) = climb(ts, k, minp, ExprV::Bin(op, Box::new(l), Box::new(r)), b) {
                        lemma_concat(ts, j, k, q);
                    }
                }
            }
        }
    }
}

proof fn br_expr_list(ts: Seq<TokAt>, i: int, b: nat)
    ensures
        expr_list(ts, i, b) matches Ok((_, m)) ==> matched(ts, i, m),
    decreases b, left(ts, i), 10nat,
{
    br_expr(ts, i, b);
    if let Ok((_, j)) = expr(ts, i, b) {
        if tk(ts, j) is Comma && fwd(ts, i, j) {
            br_expr_list(ts, j + 1, b);
            lemma_plain(ts, j);
            if let Ok((_, k)) = expr_list(ts, j + 1, b) {
                lemma_concat3(ts, i, j, j + 1, k);
            }
        }
    }
}

proof fn br_call_args(ts: Seq<TokAt>, i: int, b: nat)
    ensures
        call_args(ts, i, b) matches Ok((_, m)) ==> i < m && tk(ts, m - 1) is RParen && matched(ts, i, m - 1),
    decreases b, left(ts, i), 11nat,
{
    lemma_empty(ts, i);
    if !(tk(ts, i) is RParen) {
        br_expr_list(ts, i, b);
    }
}

#[verifier::spinoff_prover]
#[verifier::rlimit(60)]
proof fn br_dict_entries(ts: Seq<TokAt>, i: int, b: nat)
    ensures
        dict_entries(ts, i, b) matches Ok((_, m)) ==> matched(ts, i, m),
    decreases b, left(ts, i), 10nat,
{
    br_expr(ts, i, b);
    if let Ok((_, j)) = expr(ts, i, b) {
        if tk(ts, j) is Colon && fwd(ts, i, j) {
            lemma_plain(ts, j);
            lemma_concat(ts, i, j, j + 1);
            br_expr(ts, j + 1, b);
            if let Ok((_, m)) = expr(ts, j + 1, b) {
                lemma_concat(ts, i, j + 1, m);
                if tk(ts, m) is Comma && fwd(ts, j + 1, m) {
                    let n = opt(ts, m + 1, Tok::Newline);
                    lemma_plain(ts, m);
                    lemma_opt(ts, m + 1, Tok::Newline);
                    lemma_concat3(ts, i, m, m + 1, n);
                    br_dict_entries(ts, n, b);
                    if let Ok((_, q)) = dict_entries(ts, n, b) {
                        lemma_concat(ts, i, n, q);
                    }
                }
            }
        }
    }
}

#[verifier::spinoff_prover]
#[verifier::rlimit(60)]
proof fn br_postfix(ts: Seq<TokAt>, i: int, e: ExprV, b: nat)
    ensures
        postfix(ts, i, e, b) matches Ok((_, m)) ==> matched(ts, i, m),
    decreases b, left(ts, i), 5nat,
{
    lemma_empty(ts, i);
    match tk(ts, i) {
        Tok::LParen => {
            br_call_args(ts, i + 1, b);
            if let Ok((args, j)) = call_args(ts, i + 1, b) {
                if fwd(ts, i, j) {
                    lemma_wrap(ts, i, j - 1);
                    br_postfix(ts, j, ExprV::Call(Box::new(e), args), b);
                    if let Ok((_, k)) = postfix(ts, j, ExprV::Call(Box::new(e), args), b) {
                        lemma_concat(ts, i, j, k);
                    }
                }
            }
        },
        Tok::LBracket => {
            br_expr(ts, i + 1, b);
            if let Ok((x, j)) = expr(ts, i + 1, b) {
                if tk(ts, j) is RBracket && fwd(ts, i, j + 1) {
                    lemma_wrap(ts, i, j);
                    br_postfix(ts, j + 1, ExprV::Index(Box::new(e), Box::new(x)), b);
                    if let Ok((_, k)) = postfix(ts, j + 1, ExprV::Index(Box::new(e), Box::new(x)), b) {
                        lemma_concat(ts, i, j + 1, k);
                    }
                }
            }
        },
        Tok::Dot => {
            if let Tok::Ident(n) = tk(ts, i + 1) {
                lemma_plain(ts, i);
                lemma_plain(ts, i + 1);
                br_postfix(ts, i + 2, ExprV::Get(Box::new(e), n), b);
                if let Ok((_, k)) = postfix(ts, i + 2, ExprV::Get(Box::new(e), n), b) {
                    lemma_concat3(ts, i, i + 1, i + 2, k);
                }
            }
        },
        _ => {},
    }
}

proof fn br_primary(ts: Seq<TokAt>, i: int, b: nat)
    ensures
        primary(ts, i, b) matches Ok((_, m)) ==> matched(ts, i, m),
    decreases b, left(ts, i), 7nat,
{
    if primary(ts, i, b) is Ok {
        br_primary_ok(ts, i, b);
    }
}

#[verifier::spinoff_prover]
#[verifier::rlimit(60)]
proof fn br_primary_ok(ts: Seq<TokAt>, i: int, b: nat)
    requires
        primary(ts, i, b) is Ok,
    ensures
        primary(ts, i, b) matches Ok((_, m)) ==> matched(ts, i, m),
    decreases b, left(ts, i), 6nat,
{
    let t = tk(ts, i);
    match t {
        Tok::New => {
            if let Tok::Ident(n) = tk(ts, i + 1) {
                br_call_args(ts, i + 3, b);
                if let Ok((args, k)) = call_args(ts, i + 3, b) {
                    if fwd(ts, i, k) {
                        lemma_wrap(ts, i + 2, k - 1);
                        lemma_plain(ts, i);
                        lemma_plain(ts, i + 1);
                        lemma_concat3(ts, i, i + 1, i + 2, k);
                        br_postfix(ts, k, ExprV::New(n, args), b);
                        if let Ok((_, q)) = postfix(ts, k, ExprV::New(n, args), b) {
                            lemma_concat(ts, i, k, q);
                        }
                    }
                }
            }
        },
        Tok::LParen => {
            br_expr(ts, i + 1, b);
            if let Ok((x, j)) = expr(ts, i + 1, b) {
                if tk(ts, j) is RParen && fwd(ts, i, j + 1) {
                    lemma_wrap(ts, i, j);
                    br_postfix(ts, j + 1, x, b);
                    if let Ok((_, k)) = postfix(ts, j + 1, x, b) {
                        lemma_concat(ts, i, j + 1, k);
                    }
                }
            }
        },
        Tok::LBracket => {
            if tk(ts, i + 1) is RBracket {
                lemma_empty(ts, i + 1);
                lemma_wrap(ts, i, i + 1);
                br_postfix(ts, i + 2, ExprV::List(Seq::empty()), b);
                if let Ok((_, k)) = postfix(ts, i + 2, ExprV::List(Seq::empty()), b) {
                    lemma_concat(ts, i, i + 2, k);
                }
            } else {
                br_expr_list(ts, i + 1, b);
                if let Ok((xs, j)) = expr_list(ts, i + 1, b) {
                    if tk(ts, j) is RBracket && fwd(ts, i, j + 1) {
                        lemma_wrap(ts, i, j);
                        br_postfix(ts, j + 1, ExprV::List(xs), b);
                        if let Ok((_, k)) = postfix(ts, j + 1, ExprV::List(xs), b) {
                            lemma_concat(ts, i, j + 1, k);
                        }
                    }
                }
            }
        },
        Tok::LBrace => {
            let j0 = opt(ts, i + 1, Tok::Newline);
            let j = opt(ts, j0, Tok::Indent);
            lemma_opt(ts, i + 1, Tok::Newline);
            lemma_opt(ts, j0, Tok::Indent);
            lemma_concat(ts, i + 1, j0, j);
            if tk(ts, j) is RBrace {
                lemma_wrap(ts, i, j);
                br_postfix(ts, j + 1, ExprV::Dict(Seq::empty()), b);
                if let Ok((_, k)) = postfix(ts, j + 1, ExprV::Dict(Seq::empty()), b) {
                    lemma_concat(ts, i, j + 1, k);
                }
            } else {
                br_dict_entries(ts, j, b);
                if let Ok((es, k)) = dict_entries(ts, j, b) {
                    let m0 = opt(ts, k, Tok::Newline);
                    let m = opt(ts, m0, Tok::Dedent);
                    lemma_opt(ts, k, Tok::Newline);
                    lemma_opt(ts, m0, Tok::Dedent);
                    if tk(ts, m) is RBrace && fwd(ts, i, m + 1) {
                        lemma_concat3(ts, i + 1, j, k, m0);
                        lemma_concat(ts, i + 1, m0, m);
                        lemma_wrap(ts, i, m);
                        br_postfix(ts, m + 1, ExprV::Dict(es), b);
                        if let Ok((_, q)) = postfix(ts, m + 1, ExprV::Dict(es), b) {
                            lemma_concat(ts, i, m + 1, q);
                        }
                    }
                }
            }
        },
        Tok::Int(n) => br_after(ts, i, ExprV::Lit(LitV::Int(n)), b),
        Tok::Float(f) => br_after(ts, i, ExprV::Lit(LitV::Float(f)), b),
        Tok::Str(s) => br_after(ts, i, str_lit(s), b),
        Tok::True => br_after(ts, i, ExprV::Lit(LitV::Bool(true)), b),
        Tok::False => br_after(ts, i, ExprV::Lit(LitV::Bool(false)), b),
        Tok::Ident(n) => br_after(ts, i, ExprV::Ident(n), b),
        Tok::This => br_after(ts, i, ExprV::This, b),
        Tok::FString(body) => {
            let at = perr(ts, i, ParseErrorKind::MalformedPlaceholder);
            if let Some(ps) = fparts(body, 0) {
                if let Ok(x) = fstring(ps, b, at) {
                    br_after(ts, i, x, b);
                }
            }
        },
        _ => {},
    }
}

/// A one-token primary `x` at `i`, then its postfix operations.
proof fn br_after(ts: Seq<TokAt>, i: int, x: ExprV, b: nat)
    requires
        0 <= i < ts.len(),
        !is_open(tk(ts, i)),
        !is_close(tk(ts, i)),
    ensures
        postfix(ts, i + 1, x, b) matches Ok((_, m)) ==> matched(ts, i, m),
    decreases b, left(ts, i), 5nat,
{
    lemma_plain(ts, i);
    br_postfix(ts, i + 1, x, b);
    if let Ok((_, m)) = postfix(ts, i + 1, x, b) {
        lemma_concat(ts, i, i + 1, m);
    }
}

proof fn br_header_end(ts: Seq<TokAt>, i: int)
    ensures
        header_end(ts, i) matches Ok(j) ==> matched(ts, i, j),
{
    if header_end(ts, i) is Ok {
        lemma_plain(ts, i);
        lemma_plain(ts, i + 1);
        lemma_concat(ts, i, i + 1, i + 2);
    }
}

proof fn br_decl(ts: Seq<TokAt>, i: int, p: bool, b: nat)
    requires
        tk(ts, i) is Val || tk(ts, i) is Var,
    ensures
        decl(ts, i, p, b) matches Ok((_, m)) ==> matched(ts, i, m),
    decreases b, left(ts, i), 20nat,
{
    reveal(decl);
    if tk(ts, i + 1) is Ident && expect(ts, i + 2, Expected::Colon) is Ok {
        lemma_plain(ts, i);
        lemma_plain(ts, i + 1);
        lemma_plain(ts, i + 2);
        lemma_concat3(ts, i, i + 1, i + 2, i + 3);
        br_parse_type(ts, i + 3);
        if let Ok((_, k)) = parse_type(ts, i + 3) {
            if tk(ts, k) is Assign && ahead(ts, i, k + 1) {
                lemma_plain(ts, k);
                lemma_concat3(ts, i, i + 3, k, k + 1);
                br_expr(ts, k + 1, b);
                if let Ok((_, q)) = expr(ts, k + 1, b) {
                    lemma_concat(ts, i, k + 1, q);
                }
            }
        }
    }
}

proof fn br_block(ts: Seq<TokAt>, i: int, b: nat)
    ensures
        block(ts, i, b) matches Ok((_, m)) ==> matched(ts, i, m),
    decreases b, left(ts, i), 25nat,
{
    if tk(ts, i) is Indent {
        lemma_plain(ts, i);
        br_block_items(ts, i + 1, b);
        if let Ok((_, k)) = block_items(ts, i + 1, b) {
            lemma_concat(ts, i, i + 1, k);
        }
    }
}

#[verifier::spinoff_prover]
#[verifier::rlimit(60)]
proof fn br_func(ts: Seq<TokAt>, i: int, p: bool, b: nat)
    requires
        tk(ts, i) is Def,
    ensures
        func(ts, i, p, b) matches Ok((_, m)) ==> matched(ts, i, m),
    decreases b, left(ts, i), 21nat,
{
    reveal(func);
    if tk(ts, i + 1) is Ident && tk(ts, i + 2) is LParen && func(ts, i, p, b) is Ok {
        let j = i + 3;
        lemma_empty(ts, j);
        br_param_list(ts, j);
        let pr = if tk(ts, j) is RParen {
            Ok((Seq::empty(), j))
        } else {
            param_list(ts, j)
        };
        if let Ok((_, k)) = pr {
            if tk(ts, k) is RParen {
                lemma_wrap(ts, i + 2, k);
                lemma_plain(ts, i);
                lemma_plain(ts, i + 1);
                lemma_concat3(ts, i, i + 1, i + 2, k + 1);
                let m = k + 1;
                lemma_empty(ts, m);
                if tk(ts, m) is Arrow {
                    lemma_plain(ts, m);
                    br_parse_type(ts, m + 1);
                    if let Ok((_, q)) = parse_type(ts, m + 1) {
                        lemma_concat(ts, m, m + 1, q);
                    }
                }
                if let Ok((_, q)) = return_type(ts, m) {
                    lemma_concat(ts, i, m, q);
                    br_header_end(ts, q);
                    if let Ok(r) = header_end(ts, q) {
                        lemma_concat(ts, i, q, r);
                        if ahead(ts, i, r) {
                            br_block(ts, r, b);
                            if let Ok((_, s)) = block(ts, r, b) {
                                lemma_concat(ts, i, r, s);
                            }
                        }
                    }
                }
            }
        }
    }
}

#[verifier::spinoff_prover]
#[verifier::rlimit(100)]
proof fn br_member(ts: Seq<TokAt>, i: int, b: nat)
    ensures
        member(ts, i, b) matches Ok((_, m)) ==> matched(ts, i, m),
    decreases b, left(ts, i), 22nat,
{
    reveal(member);
    let p = tk(ts, i) is Pub;
    let k = if p { i + 1 } else { i };
    lemma_empty(ts, i);
    if p {
        lemma_plain(ts, i);
    }
    if tk(ts, k) is Val || tk(ts, k) is Var {
        br_decl(ts, k, p, b);
        if let Ok((_, j)) = decl(ts, k, p, b) {
            lemma_concat(ts, i, k, j);
        }
    } else if tk(ts, k) is Def {
        br_func(ts, k, p, b);
        if let Ok((_, j)) = func(ts, k, p, b) {
            lemma_concat(ts, i, k, j);
        }
    }
}

#[verifier::spinoff_prover]
#[verifier::rlimit(100)]
proof fn br_members(ts: Seq<TokAt>, i: int, b: nat)
    ensures
        members(ts, i, b) matches Ok((_, m)) ==> matched(ts, i, m),
    decreases b, left(ts, i), 23nat,
{
    match tk(ts, i) {
        Tok::Newline => {
            lemma_plain(ts, i);
            br_members(ts, i + 1, b);
            if let Ok((_, k)) = members(ts, i + 1, b) {
                lemma_concat(ts, i, i + 1, k);
            }
        },
        Tok::Dedent => {
            lemma_plain(ts, i);
        },
        Tok::Eof => {},
        _ => {
            br_member(ts, i, b);
            if let Ok((_, k)) = member(ts, i, b) {
                if ahead(ts, i, k) {
                    br_members(ts, k, b);
                    if let Ok((_, q)) = members(ts, k, b) {
                        lemma_concat(ts, i, k, q);
                    }
                }
            }
        },
    }
}

proof fn br_class_stmt(ts: Seq<TokAt>, i: int, p: bool, b: nat)
    requires
        tk(ts, i) is Class,
    ensures
        class_stmt(ts, i, p, b) matches Ok((_, m)) ==> matched(ts, i, m),
    decreases b, left(ts, i), 24nat,
{
    if tk(ts, i + 1) is Ident {
        br_header_end(ts, i + 2);
        if let Ok(j) = header_end(ts, i + 2) {
            if tk(ts, j) is Indent && ahead(ts, i, j + 1) {
                lemma_plain(ts, i);
                lemma_plain(ts, i + 1);
                lemma_plain(ts, j);
                lemma_concat3(ts, i, i + 1, i + 2, j);
                lemma_concat(ts, i, j, j + 1);
                br_members(ts, j + 1, b);
                if let Ok((_, m)) = members(ts, j + 1, b) {
                    lemma_concat(ts, i, j + 1, m);
                }
            }
        }
    }
}

proof fn br_suite(ts: Seq<TokAt>, i: int, from: int, b: nat)
    ensures
        suite(ts, i, from, b) matches Ok((_, m)) ==> matched(ts, i, m),
    decreases b, left(ts, from), 26nat, left(ts, i),
{
    br_header_end(ts, i);
    if let Ok(j) = header_end(ts, i) {
        if ahead(ts, from, j) {
            br_block(ts, j, b);
            if let Ok((_, k)) = block(ts, j, b) {
                lemma_concat(ts, i, j, k);
            }
        }
    }
}

proof fn br_if(ts: Seq<TokAt>, i: int, b: nat)
    requires
        tk(ts, i) is If,
    ensures
        if_stmt(ts, i, b) matches Ok((_, m)) ==> matched(ts, i, m),
    decreases b, left(ts, i), 27nat,
{
    lemma_plain(ts, i);
    br_expr(ts, i + 1, b);
    if let Ok((c, j)) = expr(ts, i + 1, b) {
        br_suite(ts, j, i, b);
        if let Ok((_, k)) = suite(ts, j, i, b) {
            lemma_concat3(ts, i, i + 1, j, k);
            if tk(ts, k) is Else {
                let k1 = opt(ts, k + 1, Tok::Colon);
                lemma_plain(ts, k);
                lemma_opt(ts, k + 1, Tok::Colon);
                if tk(ts, k1) is Newline && ahead(ts, i, k1 + 1) {
                    lemma_plain(ts, k1);
                    lemma_concat3(ts, i, k, k + 1, k1);
                    lemma_concat(ts, i, k1, k1 + 1);
                    br_block(ts, k1 + 1, b);
                    if let Ok((_, q)) = block(ts, k1 + 1, b) {
                        lemma_concat(ts, i, k1 + 1, q);
                    }
                }
            }
        }
    }
}

proof fn br_while(ts: Seq<TokAt>, i: int, b: nat)
    requires
        tk(ts, i) is While,
    ensures
        while_stmt(ts, i, b) matches Ok((_, m)) ==> matched(ts, i, m),
    decreases b, left(ts, i), 27nat,
{
    lemma_plain(ts, i);
    br_expr(ts, i + 1, b);
    if let Ok((c, j)) = expr(ts, i + 1, b) {
        br_suite(ts, j, i, b);
        if let Ok((_, k)) = suite(ts, j, i, b) {
            lemma_concat3(ts, i, i + 1, j, k);
        }
    }
}

proof fn br_for(ts: Seq<TokAt>, i: int, b: nat)
    requires
        tk(ts, i) is For,
    ensures
        for_stmt(ts, i, b) matches Ok((_, m)) ==> matched(ts, i, m),
    decreases b, left(ts, i), 27nat,
{
    if tk(ts, i + 1) is Ident && tk(ts, i + 2) is In {
        lemma_plain(ts, i);
        lemma_plain(ts, i + 1);
        lemma_plain(ts, i + 2);
        lemma_concat3(ts, i, i + 1, i + 2, i + 3);
        br_expr(ts, i + 3, b);
        if let Ok((_, k)) = expr(ts, i + 3, b) {
            if tk(ts, k) is Range && ahead(ts, i, k + 1) {
                lemma_plain(ts, k);
                lemma_concat3(ts, i, i + 3, k, k + 1);
                br_expr(ts, k + 1, b);
                if let Ok((_, q)) = expr(ts, k + 1, b) {
                    lemma_concat(ts, i, k + 1, q);
                    br_suite(ts, q, i, b);
                    if let Ok((_, r)) = suite(ts, q, i, b) {
                        lemma_concat(ts, i, q, r);
                    }
                }
            }
        }
    }
}

proof fn br_try(ts: Seq<TokAt>, i: int, b: nat)
    requires
        tk(ts, i) is Try,
    ensures
        try_stmt(ts, i, b) matches Ok((_, m)) ==> matched(ts, i, m),
    decreases b, left(ts, i), 27nat,
{
    lemma_plain(ts, i);
    br_suite(ts, i + 1, i, b);
    if let Ok((_, j)) = suite(ts, i + 1, i, b) {
        lemma_concat(ts, i, i + 1, j);
        if tk(ts, j) is Catch && tk(ts, j + 1) is Ident {
            lemma_plain(ts, j);
            lemma_plain(ts, j + 1);
            lemma_concat3(ts, i, j, j + 1, j + 2);
            br_suite(ts, j + 2, i, b);
            if let Ok((_, m)) = suite(ts, j + 2, i, b) {
                lemma_concat(ts, i, j + 2, m);
            }
        }
    }
}

proof fn br_print(ts: Seq<TokAt>, i: int, b: nat)
    requires
        tk(ts, i) is Print,
    ensures
        print_stmt(ts, i, b) matches Ok((_, m)) ==> matched(ts, i, m),
    decreases b, left(ts, i), 28nat,
{
    if tk(ts, i + 1) is LParen {
        br_expr(ts, i + 2, b);
        if let Ok((_, k)) = expr(ts, i + 2, b) {
            if tk(ts, k) is RParen {
                lemma_wrap(ts, i + 1, k);
                lemma_plain(ts, i);
                lemma_concat(ts, i, i + 1, k + 1);
            }
        }
    }
}

#[verifier::spinoff_prover]
#[verifier::rlimit(100)]
proof fn br_pub(ts: Seq<TokAt>, i: int, b: nat)
    requires
        tk(ts, i) is Pub,
    ensures
        pub_stmt(ts, i, b) matches Ok((_, m)) ==> matched(ts, i, m),
    decreases b, left(ts, i), 28nat,
{
    lemma_plain(ts, i);
    let t = tk(ts, i + 1);
    if t is Val || t is Var {
        br_decl(ts, i + 1, true, b);
        if let Ok((_, j)) = decl(ts, i + 1, true, b) {
            lemma_concat(ts, i, i + 1, j);
        }
    } else if t is Def {
        br_func(ts, i + 1, true, b);
        if let Ok((_, j)) = func(ts, i + 1, true, b) {
            lemma_concat(ts, i, i + 1, j);
        }
    } else if t is Class {
        br_class_stmt(ts, i + 1, true, b);
        if let Ok((_, j)) = class_stmt(ts, i + 1, true, b) {
            lemma_concat(ts, i, i + 1, j);
        }
    }
}

proof fn br_return(ts: Seq<TokAt>, i: int, b: nat)
    requires
        tk(ts, i) is Return,
    ensures
        return_stmt(ts, i, b) matches Ok((_, m)) ==> matched(ts, i, m),
    decreases b, left(ts, i), 28nat,
{
    lemma_plain(ts, i);
    if !(tk(ts, i + 1) is Newline || tk(ts, i + 1) is Eof) {
        br_expr(ts, i + 1, b);
        if let Ok((_, j)) = expr(ts, i + 1, b) {
            lemma_concat(ts, i, i + 1, j);
        }
    }
}

proof fn br_expr_stmt(ts: Seq<TokAt>, i: int, b: nat)
    ensures
        expr_stmt(ts, i, b) matches Ok((_, m)) ==> matched(ts, i, m),
    decreases b, left(ts, i), 28nat,
{
    br_expr(ts, i, b);
    if let Ok((_, j)) = expr(ts, i, b) {
        if tk(ts, j) is Assign && ahead(ts, i, j) {
            lemma_plain(ts, j);
            br_expr(ts, j + 1, b);
            if let Ok((_, k)) = expr(ts, j + 1, b) {
                lemma_concat3(ts, i, j, j + 1, k);
            }
        }
    }
}

#[verifier::spinoff_prover]
#[verifier::rlimit(100)]
proof fn br_stmt(ts: Seq<TokAt>, i: int, b: nat)
    ensures
        stmt(ts, i, b) matches Ok((_, m)) ==> matched(ts, i, m),
    decreases b, left(ts, i), 30nat,
{
    let t = tk(ts, i);
    match t {
        Tok::Newline => {
            lemma_plain(ts, i);
            br_stmt(ts, i + 1, b);
            if let Ok((_, k)) = stmt(ts, i + 1, b) {
                lemma_concat(ts, i, i + 1, k);
            }
        },
        Tok::Import => {
            if tk(ts, i + 1) is Str {
                lemma_plain(ts, i);
                lemma_plain(ts, i + 1);
                lemma_concat(ts, i, i + 1, i + 2);
            }
        },
        Tok::Class => br_class_stmt(ts, i, false, b),
        Tok::Try => br_try(ts, i, b),
        Tok::Break => lemma_plain(ts, i),
        Tok::Continue => lemma_plain(ts, i),
        Tok::Print => br_print(ts, i, b),
        Tok::Pub => br_pub(ts, i, b),
        Tok::Val => br_decl(ts, i, false, b),
        Tok::Var => br_decl(ts, i, false, b),
        Tok::Def => br_func(ts, i, false, b),
        Tok::If => br_if(ts, i, b),
        Tok::While => br_while(ts, i, b),
        Tok::For => br_for(ts, i, b),
        Tok::Return => br_return(ts, i, b),
        _ => br_expr_stmt(ts, i, b),
    }
}

proof fn br_block_items(ts: Seq<TokAt>, i: int, b: nat)
    ensures
        block_items(ts, i, b) matches Ok((_, m)) ==> matched(ts, i, m),
    decreases b, left(ts, i), 31nat,
{
    match tk(ts, i) {
        Tok::Newline => {
            lemma_plain(ts, i);
            br_block_items(ts, i + 1, b);
            if let Ok((_, k)) = block_items(ts, i + 1, b) {
                lemma_concat(ts, i, i + 1, k);
            }
        },
        Tok::Dedent => {
            lemma_plain(ts, i);
        },
        Tok::Eof => {},
        _ => {
            br_stmt(ts, i, b);
            if let Ok((_, k)) = stmt(ts, i, b) {
                if ahead(ts, i, k) {
                    br_block_items(ts, k, b);
                    if let Ok((_, q)) = block_items(ts, k, b) {
                        lemma_concat(ts, i, k, q);
                    }
                }
            }
        },
    }
}

proof fn br_program_items(ts: Seq<TokAt>, i: int, b: nat)
    ensures
        program_items(ts, i, b) matches Ok((_, m)) ==> matched(ts, i, m) && tk(ts, m) is Eof,
    decreases b, left(ts, i), 32nat,
{
    match tk(ts, i) {
        Tok::Newline => {
            lemma_plain(ts, i);
            br_program_items(ts, i + 1, b);
            if let Ok((_, k)) = program_items(ts, i + 1, b) {
                lemma_concat(ts, i, i + 1, k);
            }
        },
        Tok::Eof => {
            lemma_empty(ts, i);
        },
        _ => {
            br_stmt(ts, i, b);
            if let Ok((_, k)) = stmt(ts, i, b) {
                if ahead(ts, i, k) {
                    br_program_items(ts, k, b);
                    if let Ok((_, q)) = program_items(ts, k, b) {
                        lemma_concat(ts, i, k, q);
                    }
                }
            }
        },
    }
}

/// When a token sequence parses, the parser has read it up to EOF, and every
/// `(`, `[` and `{` before that EOF is closed by its own closer, properly
/// nested.
pub proof fn law_brackets_balanced(ts: Seq<TokAt>)
    ensures
        parse_tokens(ts) is Ok ==> (program_items(ts, 0, MAX_NESTING as nat) matches Ok((_, m)) && tk(ts, m) is Eof
            && matched(ts, 0, m)),
{
    br_program_items(ts, 0, MAX_NESTING as nat);
}

/// No EOF among the tokens.
pub open spec fn eof_free(ts: Seq<TokAt>) -> bool {
    forall|k: int| 0 <= k < ts.len() ==> !(#[trigger] ts[k].tok is Eof)
}

proof fn lemma_finish_eof(input: Seq<char>, st: LexState)
    requires
        eof_free(st.toks),
    ensures
        finish(input, st).len() >= 1,
        finish(input, st).last().tok is Eof,
        eof_free(finish(input, st).drop_last()),
{
    let n = (st.stack.len() - 1) as nat;
    let body = st.toks + dedents(input, input.len() as int, n);
    assert(finish(input, st).drop_last() =~= body);
    assert forall|k: int| 0 <= k < body.len() implies !(#[trigger] body[k].tok is Eof) by {
        if k < st.toks.len() {
            assert(body[k] == st.toks[k]);
        }
    }
}

proof fn lemma_run_eof(input: Seq<char>, st: LexState)
    requires
        0 <= st.pos,
        eof_free(st.toks),
    ensures
        lex_run(input, st) matches Ok(ts) ==> ts.len() >= 1 && ts.last().tok is Eof && eof_free(ts.drop_last()),
    decreases input.len() - st.pos,
{
    if st.pos >= input.len() {
        lemma_finish_eof(input, st);
    } else if let Ok(s1) = indent_phase(input, st) {
        lemma_indent_scan(input, st.pos);
        assert(eof_free(s1.toks)) by {
            if at_line_start(input, st.pos) {
                let (q, w) = indent_scan(input, st.pos);
                if !blank_at(input, q) && !(w > st.stack.last()) {
                    let n = pop_to(st.stack, w).1;
                    assert forall|k: int| 0 <= k < s1.toks.len() implies !(#[trigger] s1.toks[k].tok is Eof) by {
                        if k < st.toks.len() {
                            assert(s1.toks[k] == st.toks[k]);
                        } else {
                            assert(s1.toks[k] == dedents(input, st.pos, n)[k - st.toks.len()]);
                        }
                    }
                }
            }
        }
        if s1.pos < input.len() {
            if let Ok(s2) = scan_phase(input, s1) {
                assert(s2.toks == s1.toks || (s2.toks == s1.toks.push(s2.toks.last()) && !(s2.toks.last().tok is Eof)));
            }
        }
        if let Ok(s2) = step(input, st) {
            assert(eof_free(s2.toks));
            if st.pos < s2.pos <= input.len() {
                lemma_run_eof(input, s2);
            } else {
                lemma_finish_eof(input, s2);
            }
        }
    }
}

/// Past the last token every position reads as EOF, which is no bracket.
proof fn lemma_past_end(ts: Seq<TokAt>, p: int, m: int, st: Seq<Tok>)
    requires
        ts.len() <= p,
    ensures
        run(ts, p, m, st) == Some(st),
    decreases m - p,
{
    if p < m {
        lemma_past_end(ts, p + 1, m, st);
    }
}

/// The lexer ends its tokens with EOF and puts no EOF anywhere else.
pub proof fn law_single_eof(input: Seq<char>)
    ensures
        lex(input) matches Ok(ts) ==> ts.len() >= 1 && ts.last().tok is Eof && eof_free(ts.drop_last()),
{
    lemma_run_eof(input, initial(0));
}

/// When a source lexes and parses, every `(`, `[` and `{` in its whole token
/// stream is closed by its own closer, properly nested.
pub proof fn law_source_brackets_balanced(src: Seq<char>)
    ensures
        lex(src) matches Ok(ts) ==> (parse_tokens(ts) is Ok ==> matched(ts, 0, ts.len() as int)),
{
    law_single_eof(src);
    if let Ok(ts) = lex(src) {
        br_program_items(ts, 0, MAX_NESTING as nat);
        if let Ok((_, m)) = program_items(ts, 0, MAX_NESTING as nat) {
            let n = ts.len() as int;
            if m < n {
                if m < n - 1 {
                    assert(ts.drop_last()[m] == ts[m]);
                }
                assert(m == n - 1);
                lemma_plain(ts, m);
                lemma_concat(ts, 0, m, n);
            } else {
                assert forall|st: Seq<Tok>| #[trigger] run(ts, 0, n, st) == Some(st) by {
                    lemma_split(ts, 0, n, m, st);
                    if let Some(x) = run(ts, 0, n, st) {
                        lemma_past_end(ts, n, m, x);
                    }
                }
            }
        }
    }
}

} // verus!
