//! Properties of the grammar that hold for every token sequence.
use vstd::prelude::*;
use crate::ast::{
    SpecExpr, SpecExprDesc, SpecFile, SpecFunc, SpecImport, SpecStmt, SpecStmtDesc, Unop,
};
use crate::error::{SpecError, SpecErrorKind};
use crate::grammar::{
    atom, binop_of, block, block_body, block_stmts, call_args, delim, expect, expect_label,
    expect_name, expr, expr_rest, file, file_items, file_result, func, if_chain, import, import_tail, infix,
    is_name, labeled_stmt, mark_at, mk_expr, mk_stmt, name_label, number_label, params, precedence,
    skip_delims, fail, ADD_PREC, CMP_PREC, MUL_PREC, POSTFIX_PREC, starts_name_label, starts_number_label, ends_block, stmt, tok, well_formed, FileParts, Parsed, Toks, UNARY_PREC,
};
use crate::text::{decimal, is_keyword};
use crate::token::{pat_matches, Mark, SpecPat, SpecToken};

verus! {

/// `m` is the mark of one of the tokens of `ts`.
pub open spec fn mark_in(ts: Toks, m: Mark) -> bool {
    exists|k: int| 0 <= k < ts.len() && mark_at(ts, k) == m
}

/// Every mark in `e` is the mark of a token of `ts`, and no name in `e`
/// (variable, assigned variable, attribute) is a reserved word.
pub open spec fn expr_ok(ts: Toks, e: SpecExpr) -> bool
    decreases e,
{
    &&& mark_in(ts, e.mark)
    &&& match e.desc {
        SpecExprDesc::GetVar(n) => !is_keyword(n),
        SpecExprDesc::SetVar(n, x) => !is_keyword(n) && expr_ok(ts, *x),
        SpecExprDesc::GetAttr(x, a) => !is_keyword(a) && expr_ok(ts, *x),
        SpecExprDesc::CallFunc(f, args) => expr_ok(ts, *f) && forall|i: int|
            0 <= i < args.len() ==> expr_ok(ts, #[trigger] args[i]),
        SpecExprDesc::Binop(_, l, r) => expr_ok(ts, *l) && expr_ok(ts, *r),
        SpecExprDesc::Unop(_, x) => expr_ok(ts, *x),
        _ => true,
    }
}

/// Every mark in `s` is the mark of a token of `ts`, and no name in `s`
/// (label, declared variable, or a name in one of its expressions) is a
/// reserved word.
pub open spec fn stmt_ok(ts: Toks, s: SpecStmt) -> bool
    decreases s,
{
    &&& mark_in(ts, s.mark)
    &&& match s.desc {
        SpecStmtDesc::Block(ss) => forall|i: int| 0 <= i < ss.len() ==> stmt_ok(ts, #[trigger] ss[i]),
        SpecStmtDesc::Label(l) => !is_keyword(l),
        SpecStmtDesc::Goto(l) => !is_keyword(l),
        SpecStmtDesc::Print(e) => expr_ok(ts, e),
        SpecStmtDesc::DeclVar(n, e) => !is_keyword(n) && expr_ok(ts, e),
        SpecStmtDesc::If(pairs, other) => {
            &&& forall|i: int|
                0 <= i < pairs.len() ==> expr_ok(ts, (#[trigger] pairs[i]).0) && stmt_ok(ts, pairs[i].1)
            &&& match other {
                Some(b) => stmt_ok(ts, *b),
                None => true,
            }
        },
        SpecStmtDesc::While(c, b) => expr_ok(ts, c) && stmt_ok(ts, *b),
        SpecStmtDesc::Expr(e) => expr_ok(ts, e),
    }
}


pub open spec fn exprs_ok(ts: Toks, es: Seq<SpecExpr>) -> bool {
    forall|i: int| 0 <= i < es.len() ==> expr_ok(ts, #[trigger] es[i])
}

pub open spec fn stmts_ok(ts: Toks, ss: Seq<SpecStmt>) -> bool {
    forall|i: int| 0 <= i < ss.len() ==> stmt_ok(ts, #[trigger] ss[i])
}

pub open spec fn pairs_ok(ts: Toks, ps: Seq<(SpecExpr, SpecStmt)>) -> bool {
    forall|i: int| 0 <= i < ps.len() ==> expr_ok(ts, (#[trigger] ps[i]).0) && stmt_ok(ts, ps[i].1)
}

/// The mark of an import comes from `ts`; its module path and alias are not
/// reserved words.
pub open spec fn import_ok(ts: Toks, i: SpecImport) -> bool {
    &&& mark_in(ts, i.mark)
    &&& !is_keyword(i.module_name)
    &&& !is_keyword(i.alias)
}

/// The marks of a function definition come from `ts`; its name, its
/// parameters and the names in its body are not reserved words.
pub open spec fn func_ok(ts: Toks, f: SpecFunc) -> bool {
    &&& mark_in(ts, f.mark)
    &&& !is_keyword(f.short_name)
    &&& forall|i: int| 0 <= i < f.params.len() ==> !is_keyword(#[trigger] f.params[i])
    &&& stmt_ok(ts, f.body)
}

/// Every mark in the file comes from `ts`, and no name in it is a reserved word.
pub open spec fn file_ok(ts: Toks, f: SpecFile) -> bool {
    &&& forall|i: int| 0 <= i < f.imports.len() ==> import_ok(ts, #[trigger] f.imports[i])
    &&& forall|i: int| 0 <= i < f.funcs.len() ==> func_ok(ts, #[trigger] f.funcs[i])
    &&& stmt_ok(ts, f.body)
}

pub open spec fn parts_ok(ts: Toks, acc: FileParts) -> bool {
    &&& forall|i: int| 0 <= i < acc.0.len() ==> import_ok(ts, #[trigger] acc.0[i])
    &&& forall|i: int| 0 <= i < acc.1.len() ==> func_ok(ts, #[trigger] acc.1[i])
    &&& stmts_ok(ts, acc.2)
}

/// The statements that one labelled statement gives: at most two labels
/// (a `name:` label, then a line number), then the statement itself; with no
/// label in front, the statement alone.
pub open spec fn labeled_shape(ts: Toks, p: int, v: Seq<SpecStmt>) -> bool {
    &&& 1 <= v.len() <= 3
    &&& forall|j: int| 0 <= j < v.len() - 1 ==> (#[trigger] v[j]).desc is Label
    &&& !starts_name_label(ts, p) && !starts_number_label(ts, p) ==> v.len() == 1
}

/// The shape of the branches of an `if` that `if_chain` adds to `pairs`.
pub open spec fn if_shape(
    ts: Toks,
    pairs: Seq<(SpecExpr, SpecStmt)>,
    q: int,
    r: (Seq<(SpecExpr, SpecStmt)>, Option<Box<SpecStmt>>),
) -> bool {
    &&& r.0.len() > pairs.len()
    &&& forall|j: int| 0 <= j < pairs.len() ==> r.0[j] == pairs[j]
    &&& forall|j: int| pairs.len() <= j < r.0.len() ==> (#[trigger] r.0[j]).1.desc is Block
    &&& r.1 matches Some(b) ==> b.desc is Block
    &&& is_name(tok(ts, q - 1), "end"@)
}

/// A step that ends where it started stopped on a raw string token.
pub open spec fn stalls_only_on_raw(ts: Toks, p: int, q: int) -> bool {
    q > p || (q == p && tok(ts, p) is RawString)
}

/// What every grammar function yields: on success a position in
/// `[lo, ts.len())` and a value satisfying `ok`; on failure a mark of `ts`.
pub open spec fn sound<A>(ts: Toks, r: Parsed<A>, lo: int, ok: spec_fn(A) -> bool) -> bool {
    match r {
        Ok((q, v)) => lo <= q < ts.len() && ok(v),
        Err((_, e)) => mark_in(ts, e.mark),
    }
}

proof fn lemma_mark(ts: Toks, p: int)
    requires
        0 <= p < ts.len(),
    ensures
        mark_in(ts, mark_at(ts, p)),
{
    assert(0 <= p < ts.len() && mark_at(ts, p) == mark_at(ts, p));
}

proof fn lemma_next(ts: Toks, p: int)
    requires
        well_formed(ts),
        0 <= p < ts.len(),
        !(tok(ts, p) is EOF),
    ensures
        p + 1 < ts.len(),
{
}

proof fn lemma_skip(ts: Toks, p: int)
    requires
        well_formed(ts),
        0 <= p < ts.len(),
    ensures
        p <= skip_delims(ts, p) < ts.len(),
    decreases ts.len() - p,
{
    if tok(ts, p) is Newline || tok(ts, p) is Semicolon {
        lemma_next(ts, p);
        lemma_skip(ts, p + 1);
    }
}

/// No reserved word starts with a digit.
proof fn lemma_keywords_start_with_letters(s: Seq<char>)
    requires
        is_keyword(s),
    ensures
        s.len() > 0,
        'A' <= s[0] <= 'Z' || 'a' <= s[0] <= 'z',
        forall|i: int| 0 <= i < s.len() ==> s[i] != '.',
{
    reveal_strlit("fn");
    reveal_strlit("import");
    reveal_strlit("var");
    reveal_strlit("if");
    reveal_strlit("elif");
    reveal_strlit("else");
    reveal_strlit("end");
    reveal_strlit("is");
    reveal_strlit("not");
    reveal_strlit("and");
    reveal_strlit("or");
    reveal_strlit("in");
    reveal_strlit("PRINT");
    reveal_strlit("GOTO");
}

proof fn lemma_decimal_starts_with_digit(n: nat)
    ensures
        decimal(n).len() > 0,
        '0' <= decimal(n)[0] <= '9',
    decreases n,
{
    if n >= 10 {
        lemma_decimal_starts_with_digit(n / 10);
    }
}

/// The decimal text of a number is never a reserved word.
proof fn lemma_decimal_not_keyword(n: nat)
    ensures
        !is_keyword(decimal(n)),
{
    lemma_decimal_starts_with_digit(n);
    if is_keyword(decimal(n)) {
        lemma_keywords_start_with_letters(decimal(n));
    }
}

/// A dotted path is never a reserved word.
proof fn lemma_dotted_not_keyword(a: Seq<char>, b: Seq<char>)
    ensures
        !is_keyword(a + seq!['.'] + b),
{
    let s = a + seq!['.'] + b;
    assert(s[a.len() as int] == '.');
    if is_keyword(s) {
        lemma_keywords_start_with_letters(s);
    }
}

proof fn lemma_expect(ts: Toks, p: int, pat: SpecPat)
    requires
        well_formed(ts),
        0 <= p < ts.len(),
        !pat_matches(pat, SpecToken::EOF),
    ensures
        sound(ts, expect(ts, p, pat), p + 1, |t: SpecToken| true),
        expect(ts, p, pat) matches Ok((q, _)) ==> q == p + 1,
{
    lemma_mark(ts, p);
    if pat_matches(pat, tok(ts, p)) {
        lemma_next(ts, p);
    }
}

proof fn lemma_expect_name(ts: Toks, p: int)
    requires
        well_formed(ts),
        0 <= p < ts.len(),
    ensures
        sound(ts, expect_name(ts, p), p + 1, |n: Seq<char>| !is_keyword(n)),
        expect_name(ts, p) matches Ok((q, _)) ==> q == p + 1,
{
    lemma_mark(ts, p);
    if tok(ts, p) is Name {
        lemma_next(ts, p);
    }
}

proof fn lemma_expect_label(ts: Toks, p: int)
    requires
        well_formed(ts),
        0 <= p < ts.len(),
    ensures
        sound(ts, expect_label(ts, p), p + 1, |n: Seq<char>| !is_keyword(n)),
        expect_label(ts, p) matches Ok((q, _)) ==> q == p + 1,
{
    lemma_mark(ts, p);
    lemma_expect_name(ts, p);
    if let SpecToken::Number(x) = tok(ts, p) {
        lemma_next(ts, p);
        lemma_decimal_not_keyword(x);
    }
}

proof fn lemma_delim(ts: Toks, p: int)
    requires
        well_formed(ts),
        0 <= p < ts.len(),
    ensures
        sound(ts, delim(ts, p), p, |u: ()| true),
        delim(ts, p) is Ok ==> !(tok(ts, p) is RawString),
{
    lemma_mark(ts, p);
    lemma_skip(ts, p);
}


proof fn lemma_block(ts: Toks, p: int)
    requires
        well_formed(ts),
        0 <= p < ts.len(),
    ensures
        sound(ts, block(ts, p), p + 1, |s: SpecStmt| stmt_ok(ts, s)),
        block(ts, p) matches Ok((q, s)) ==> {
            &&& s.mark == mark_at(ts, p)
            &&& s.desc is Block
            &&& is_name(tok(ts, q - 1), "end"@)
        },
    decreases ts.len() - p, 9nat,
{
    lemma_block_body(ts, p);
    if let Ok((q, _)) = block_body(ts, p) {
        lemma_expect(ts, q, SpecPat::Exact(SpecToken::Name("end"@)));
    }
}

proof fn lemma_block_body(ts: Toks, p: int)
    requires
        well_formed(ts),
        0 <= p < ts.len(),
    ensures
        sound(ts, block_body(ts, p), p, |s: SpecStmt| stmt_ok(ts, s)),
        block_body(ts, p) matches Ok((q, s)) ==> {
            &&& s.mark == mark_at(ts, p)
            &&& s.desc is Block
            &&& ends_block(tok(ts, q))
        },
    decreases ts.len() - p, 8nat,
{
    lemma_skip(ts, p);
    lemma_mark(ts, p);
    let q = skip_delims(ts, p);
    assert(stmts_ok(ts, Seq::<SpecStmt>::empty()));
    lemma_block_stmts(ts, q, Seq::empty());
}

proof fn lemma_block_stmts(ts: Toks, p: int, acc: Seq<SpecStmt>)
    requires
        well_formed(ts),
        0 <= p < ts.len(),
        stmts_ok(ts, acc),
    ensures
        sound(ts, block_stmts(ts, p, acc), p, |ss: Seq<SpecStmt>| stmts_ok(ts, ss)),
        block_stmts(ts, p, acc) matches Ok((q, _)) ==> ends_block(tok(ts, q)),
    decreases ts.len() - p, 7nat,
{
    lemma_labeled_stmt(ts, p);
    if let Ok((q, new)) = labeled_stmt(ts, p) {
        lemma_delim(ts, q);
        if let Ok((q2, _)) = delim(ts, q) {
            assert(stmts_ok(ts, acc + new));
            lemma_block_stmts(ts, q2, acc + new);
        }
    }
}

proof fn lemma_name_label(ts: Toks, p: int)
    requires
        well_formed(ts),
        0 <= p < ts.len(),
    ensures
        sound(ts, name_label(ts, p), p, |ss: Seq<SpecStmt>| stmts_ok(ts, ss)),
        name_label(ts, p) matches Ok((q, ss)) ==> (q > p || ss.len() == 0),
        name_label(ts, p) matches Ok((q, ss)) ==> {
            &&& ss.len() <= 1
            &&& forall|j: int| 0 <= j < ss.len() ==> (#[trigger] ss[j]).desc is Label
            &&& !starts_name_label(ts, p) ==> q == p && ss.len() == 0
        },
{
    lemma_mark(ts, p);
    lemma_expect_label(ts, p);
    if let Ok((q, _)) = expect_label(ts, p) {
        lemma_expect(ts, q, SpecPat::Exact(SpecToken::Colon));
        if let Ok((q2, _)) = expect(ts, q, SpecPat::Exact(SpecToken::Colon)) {
            lemma_skip(ts, q2);
        }
    }
}

proof fn lemma_number_label(ts: Toks, p: int, ret: Seq<SpecStmt>)
    requires
        well_formed(ts),
        0 <= p < ts.len(),
        stmts_ok(ts, ret),
    ensures
        sound(ts, number_label(ts, p, ret), p, |ss: Seq<SpecStmt>| stmts_ok(ts, ss)),
        number_label(ts, p, ret) matches Ok((q, ss)) ==> (q > p || ss == ret),
        number_label(ts, p, ret) matches Ok((q, ss)) ==> {
            &&& ret.len() <= ss.len() <= ret.len() + 1
            &&& forall|j: int| 0 <= j < ret.len() ==> ss[j] == ret[j]
            &&& forall|j: int| ret.len() <= j < ss.len() ==> (#[trigger] ss[j]).desc is Label
            &&& !starts_number_label(ts, p) ==> q == p && ss == ret
        },
{
    lemma_mark(ts, p);
    lemma_expect_label(ts, p);
}

proof fn lemma_labeled_stmt(ts: Toks, p: int)
    requires
        well_formed(ts),
        0 <= p < ts.len(),
    ensures
        sound(ts, labeled_stmt(ts, p), p, |ss: Seq<SpecStmt>| stmts_ok(ts, ss)),
        labeled_stmt(ts, p) matches Ok((q, _)) ==> stalls_only_on_raw(ts, p, q),
        labeled_stmt(ts, p) matches Ok((q, v)) ==> labeled_shape(ts, p, v),
    decreases ts.len() - p, 6nat,
{
    lemma_name_label(ts, p);
    if let Ok((q, ret)) = name_label(ts, p) {
        lemma_number_label(ts, q, ret);
        if let Ok((q2, ret2)) = number_label(ts, q, ret) {
            lemma_stmt(ts, q2);
            if let Ok((q3, st)) = stmt(ts, q2) {
                assert(stmts_ok(ts, ret2.push(st)));
            }
        }
    }
}

proof fn lemma_stmt(ts: Toks, p: int)
    requires
        well_formed(ts),
        0 <= p < ts.len(),
    ensures
        sound(ts, stmt(ts, p), p, |s: SpecStmt| stmt_ok(ts, s)),
        stmt(ts, p) matches Ok((q, _)) ==> stalls_only_on_raw(ts, p, q),
    decreases ts.len() - p, 5nat,
{
    lemma_mark(ts, p);
    let t = tok(ts, p);
    if t is Name {
        lemma_next(ts, p);
    }
    if is_name(t, "PRINT"@) {
        lemma_expr(ts, p + 1, 0);
    } else if is_name(t, "GOTO"@) {
        lemma_expect_label(ts, p + 1);
    } else if is_name(t, "var"@) {
        lemma_expect_name(ts, p + 1);
        if let Ok((q, _)) = expect_name(ts, p + 1) {
            lemma_expect(ts, q, SpecPat::Exact(SpecToken::Eq));
            if let Ok((q2, _)) = expect(ts, q, SpecPat::Exact(SpecToken::Eq)) {
                lemma_expr(ts, q2, 0);
            }
        }
    } else if is_name(t, "if"@) {
        assert(pairs_ok(ts, Seq::<(SpecExpr, SpecStmt)>::empty()));
        lemma_if_chain(ts, p + 1, Seq::empty());
    } else if is_name(t, "while"@) {
        lemma_expr(ts, p + 1, 0);
        if let Ok((q, _)) = expr(ts, p + 1, 0) {
            lemma_delim(ts, q);
            if let Ok((q2, _)) = delim(ts, q) {
                lemma_block(ts, q2);
            }
        }
    } else if starts_name_label(ts, p) {
        lemma_expect_label(ts, p);
        if let Ok((q, _)) = expect_label(ts, p) {
            lemma_expect(ts, q, SpecPat::Exact(SpecToken::Colon));
        }
    } else {
        lemma_expr(ts, p, 0);
    }
}

proof fn lemma_if_chain(ts: Toks, p: int, pairs: Seq<(SpecExpr, SpecStmt)>)
    requires
        well_formed(ts),
        0 <= p < ts.len(),
        pairs_ok(ts, pairs),
    ensures
        sound(
            ts,
            if_chain(ts, p, pairs),
            p + 1,
            |r: (Seq<(SpecExpr, SpecStmt)>, Option<Box<SpecStmt>>)|
                pairs_ok(ts, r.0) && match r.1 {
                    Some(b) => stmt_ok(ts, *b),
                    None => true,
                },
        ),
    decreases ts.len() - p, 5nat,
{
    lemma_if_chain_shape(ts, p, pairs);
    lemma_expr(ts, p, 0);
    if let Ok((q, cond)) = expr(ts, p, 0) {
        lemma_delim(ts, q);
        if let Ok((q2, _)) = delim(ts, q) {
            lemma_block_body(ts, q2);
            if let Ok((q3, body)) = block_body(ts, q2) {
                let pairs2 = pairs.push((cond, body));
                assert(pairs_ok(ts, pairs2));
                if is_name(tok(ts, q3), "elif"@) {
                    lemma_next(ts, q3);
                    lemma_if_chain(ts, q3 + 1, pairs2);
                } else if is_name(tok(ts, q3), "else"@) {
                    lemma_next(ts, q3);
                    lemma_delim(ts, q3 + 1);
                    if let Ok((q4, _)) = delim(ts, q3 + 1) {
                        lemma_block_body(ts, q4);
                        if let Ok((q5, _)) = block_body(ts, q4) {
                            lemma_expect(ts, q5, SpecPat::Exact(SpecToken::Name("end"@)));
                        }
                    }
                } else {
                    lemma_expect(ts, q3, SpecPat::Exact(SpecToken::Name("end"@)));
                }
            }
        }
    }
}

proof fn lemma_if_chain_shape(ts: Toks, p: int, pairs: Seq<(SpecExpr, SpecStmt)>)
    requires
        well_formed(ts),
        0 <= p < ts.len(),
    ensures
        if_chain(ts, p, pairs) matches Ok((q, r)) ==> if_shape(ts, pairs, q, r),
    decreases ts.len() - p, 4nat,
{
    lemma_expr(ts, p, 0);
    if let Ok((q, cond)) = expr(ts, p, 0) {
        lemma_delim(ts, q);
        if let Ok((q2, _)) = delim(ts, q) {
            lemma_block_body(ts, q2);
            if let Ok((q3, body)) = block_body(ts, q2) {
                let pairs2 = pairs.push((cond, body));
                if is_name(tok(ts, q3), "elif"@) {
                    lemma_next(ts, q3);
                    lemma_if_chain_shape(ts, q3 + 1, pairs2);
                    if let Ok((q4, r)) = if_chain(ts, q3 + 1, pairs2) {
                        assert forall|j: int| 0 <= j < pairs.len() implies r.0[j] == pairs[j] by {
                            assert(r.0[j] == pairs2[j]);
                        }
                        assert forall|j: int| pairs.len() <= j < r.0.len() implies (#[trigger] r.0[j]).1.desc is Block by {
                            if j == pairs.len() {
                                assert(r.0[j] == pairs2[j]);
                            }
                        }
                    }
                } else if is_name(tok(ts, q3), "else"@) {
                    lemma_next(ts, q3);
                    lemma_delim(ts, q3 + 1);
                    if let Ok((q4, _)) = delim(ts, q3 + 1) {
                        lemma_block_body(ts, q4);
                        if let Ok((q5, _)) = block_body(ts, q4) {
                            lemma_expect(ts, q5, SpecPat::Exact(SpecToken::Name("end"@)));
                        }
                    }
                } else {
                    lemma_expect(ts, q3, SpecPat::Exact(SpecToken::Name("end"@)));
                }
            }
        }
    }
}

proof fn lemma_call_args(ts: Toks, p: int, acc: Seq<SpecExpr>)
    requires
        well_formed(ts),
        0 <= p < ts.len(),
        exprs_ok(ts, acc),
    ensures
        sound(ts, call_args(ts, p, acc), p + 1, |es: Seq<SpecExpr>| exprs_ok(ts, es)),
    decreases ts.len() - p, 4nat,
{
    lemma_mark(ts, p);
    if tok(ts, p) is RParen {
        lemma_next(ts, p);
    } else {
        lemma_expr(ts, p, 0);
        if let Ok((q, a)) = expr(ts, p, 0) {
            assert(exprs_ok(ts, acc.push(a)));
            if tok(ts, q) is Comma {
                lemma_next(ts, q);
                lemma_call_args(ts, q + 1, acc.push(a));
            } else {
                lemma_expect(ts, q, SpecPat::Exact(SpecToken::RParen));
            }
        }
    }
}

proof fn lemma_expr(ts: Toks, p: int, prec: int)
    requires
        well_formed(ts),
        0 <= p < ts.len(),
    ensures
        sound(ts, expr(ts, p, prec), p, |e: SpecExpr| expr_ok(ts, e)),
        expr(ts, p, prec) matches Ok((q, _)) ==> stalls_only_on_raw(ts, p, q),
        expr(ts, p, prec) matches Ok((q, _)) ==> precedence(tok(ts, q)) < prec,
    decreases ts.len() - p, 3nat,
{
    lemma_atom(ts, p);
    if let Ok((q, e)) = atom(ts, p) {
        lemma_expr_rest(ts, q, prec, e);
    }
}

proof fn lemma_expr_rest(ts: Toks, p: int, prec: int, e: SpecExpr)
    requires
        well_formed(ts),
        0 <= p < ts.len(),
        expr_ok(ts, e),
    ensures
        sound(ts, expr_rest(ts, p, prec, e), p, |e2: SpecExpr| expr_ok(ts, e2)),
        expr_rest(ts, p, prec, e) matches Ok((q, _)) ==> precedence(tok(ts, q)) < prec,
    decreases ts.len() - p, 2nat,
{
    if precedence(tok(ts, p)) >= prec {
        lemma_infix(ts, p, e);
        if let Ok((q, e2)) = infix(ts, p, e) {
            lemma_expr_rest(ts, q, prec, e2);
        }
    }
}

proof fn lemma_infix(ts: Toks, p: int, e: SpecExpr)
    requires
        well_formed(ts),
        0 <= p < ts.len(),
        expr_ok(ts, e),
    ensures
        sound(ts, infix(ts, p, e), p + 1, |e2: SpecExpr| expr_ok(ts, e2)),
    decreases ts.len() - p, 1nat,
{
    lemma_mark(ts, p);
    let t = tok(ts, p);
    if !(t is EOF) {
        lemma_next(ts, p);
    }
    match t {
        SpecToken::Dot => {
            lemma_expect_name(ts, p + 1);
        },
        SpecToken::LParen => {
            assert(exprs_ok(ts, Seq::<SpecExpr>::empty()));
            lemma_call_args(ts, p + 1, Seq::empty());
        },
        SpecToken::Eq => {
            if e.desc is GetVar {
                lemma_expr(ts, p + 1, 0);
            }
        },
        _ => {
            if binop_of(t) is Some {
                lemma_expr(ts, p + 1, precedence(t) + 1);
            }
        },
    }
}

proof fn lemma_atom(ts: Toks, p: int)
    requires
        well_formed(ts),
        0 <= p < ts.len(),
    ensures
        sound(ts, atom(ts, p), p, |e: SpecExpr| expr_ok(ts, e)),
        atom(ts, p) matches Ok((q, _)) ==> stalls_only_on_raw(ts, p, q),
    decreases ts.len() - p, 0nat,
{
    lemma_mark(ts, p);
    let t = tok(ts, p);
    if !(t is EOF) {
        lemma_next(ts, p);
    }
    match t {
        SpecToken::LParen => {
            lemma_expr(ts, p + 1, 0);
            if let Ok((q, _)) = expr(ts, p + 1, 0) {
                lemma_expect(ts, q, SpecPat::Exact(SpecToken::RParen));
            }
        },
        SpecToken::Minus | SpecToken::Plus => {
            lemma_expr(ts, p + 1, UNARY_PREC as int);
        },
        _ => {},
    }
}


proof fn lemma_import_tail(ts: Toks, p: int, module: Seq<char>, last: Seq<char>)
    requires
        well_formed(ts),
        0 <= p < ts.len(),
        !is_keyword(module),
        !is_keyword(last),
    ensures
        sound(
            ts,
            import_tail(ts, p, module, last),
            p,
            |r: (Seq<char>, Seq<char>)| !is_keyword(r.0) && !is_keyword(r.1),
        ),
    decreases ts.len() - p,
{
    if tok(ts, p) is Dot {
        lemma_next(ts, p);
        lemma_expect_name(ts, p + 1);
        if let Ok((q, part)) = expect_name(ts, p + 1) {
            lemma_dotted_not_keyword(module, part);
            lemma_import_tail(ts, q, module + seq!['.'] + part, part);
        }
    }
}

proof fn lemma_import(ts: Toks, p: int)
    requires
        well_formed(ts),
        0 <= p < ts.len(),
    ensures
        sound(ts, import(ts, p), p + 1, |i: SpecImport| import_ok(ts, i)),
{
    lemma_mark(ts, p);
    let pat = SpecPat::Exact(SpecToken::Name("import"@));
    lemma_expect(ts, p, pat);
    if let Ok((p1, _)) = expect(ts, p, pat) {
        lemma_expect_name(ts, p1);
        if let Ok((p2, name)) = expect_name(ts, p1) {
            lemma_import_tail(ts, p2, name, name);
            if let Ok((p3, _)) = import_tail(ts, p2, name, name) {
                if is_name(tok(ts, p3), "as"@) {
                    lemma_next(ts, p3);
                    lemma_expect_name(ts, p3 + 1);
                }
            }
        }
    }
}

proof fn lemma_params(ts: Toks, p: int, acc: Seq<Seq<char>>)
    requires
        well_formed(ts),
        0 <= p < ts.len(),
        forall|i: int| 0 <= i < acc.len() ==> !is_keyword(#[trigger] acc[i]),
    ensures
        sound(
            ts,
            params(ts, p, acc),
            p + 1,
            |ps: Seq<Seq<char>>| forall|i: int| 0 <= i < ps.len() ==> !is_keyword(#[trigger] ps[i]),
        ),
    decreases ts.len() - p,
{
    if tok(ts, p) is RParen {
        lemma_next(ts, p);
    } else {
        lemma_expect_name(ts, p);
        if let Ok((q, name)) = expect_name(ts, p) {
            let acc2 = acc.push(name);
            assert(forall|i: int| 0 <= i < acc2.len() ==> !is_keyword(#[trigger] acc2[i]));
            if tok(ts, q) is Comma {
                lemma_next(ts, q);
                lemma_params(ts, q + 1, acc2);
            } else {
                lemma_expect(ts, q, SpecPat::Exact(SpecToken::RParen));
            }
        }
    }
}

proof fn lemma_func(ts: Toks, p: int)
    requires
        well_formed(ts),
        0 <= p < ts.len(),
    ensures
        sound(ts, func(ts, p), p + 1, |f: SpecFunc| func_ok(ts, f)),
        func(ts, p) matches Ok((q, f)) ==> {
            &&& f.mark == mark_at(ts, p)
            &&& f.body.desc is Block
            &&& is_name(tok(ts, q - 1), "end"@)
        },
{
    lemma_mark(ts, p);
    let pat = SpecPat::Exact(SpecToken::Name("fn"@));
    lemma_expect(ts, p, pat);
    if let Ok((p1, _)) = expect(ts, p, pat) {
        lemma_expect_name(ts, p1);
        if let Ok((p2, _)) = expect_name(ts, p1) {
            lemma_expect(ts, p2, SpecPat::Exact(SpecToken::LParen));
            if let Ok((p3, _)) = expect(ts, p2, SpecPat::Exact(SpecToken::LParen)) {
                lemma_params(ts, p3, Seq::empty());
                if let Ok((p4, _)) = params(ts, p3, Seq::empty()) {
                    lemma_block(ts, p4);
                }
            }
        }
    }
}

proof fn lemma_file_items(ts: Toks, p: int, acc: FileParts)
    requires
        well_formed(ts),
        0 <= p < ts.len(),
        parts_ok(ts, acc),
    ensures
        sound(ts, file_items(ts, p, acc), p, |r: FileParts| parts_ok(ts, r)),
        file_items(ts, p, acc) matches Ok((q, _)) ==> tok(ts, q) is EOF,
    decreases ts.len() - p,
{
    if !(tok(ts, p) is EOF) {
        if is_name(tok(ts, p), "import"@) {
            lemma_import(ts, p);
            if let Ok((q, imp)) = import(ts, p) {
                lemma_delim(ts, q);
                if let Ok((q2, _)) = delim(ts, q) {
                    let acc2 = (acc.0.push(imp), acc.1, acc.2);
                    assert(parts_ok(ts, acc2));
                    lemma_file_items(ts, q2, acc2);
                }
            }
        } else if is_name(tok(ts, p), "fn"@) {
            lemma_func(ts, p);
            if let Ok((q, f)) = func(ts, p) {
                lemma_delim(ts, q);
                if let Ok((q2, _)) = delim(ts, q) {
                    let acc2 = (acc.0, acc.1.push(f), acc.2);
                    assert(parts_ok(ts, acc2));
                    lemma_file_items(ts, q2, acc2);
                }
            }
        } else {
            lemma_labeled_stmt(ts, p);
            if let Ok((q, new)) = labeled_stmt(ts, p) {
                lemma_delim(ts, q);
                if let Ok((q2, _)) = delim(ts, q) {
                    let acc2 = (acc.0, acc.1, acc.2 + new);
                    assert(parts_ok(ts, acc2));
                    lemma_file_items(ts, q2, acc2);
                }
            }
        }
    }
}

proof fn lemma_file(ts: Toks)
    requires
        well_formed(ts),
    ensures
        match file(ts) {
            Ok((q, f)) => file_ok(ts, f) && tok(ts, q) is EOF && 0 <= q < ts.len(),
            Err((_, e)) => mark_in(ts, e.mark),
        },
{
    lemma_skip(ts, 0);
    lemma_mark(ts, 0);
    let empty: FileParts = (Seq::empty(), Seq::empty(), Seq::empty());
    assert(parts_ok(ts, empty));
    lemma_file_items(ts, skip_delims(ts, 0), empty);
}

/// A parsed file never uses a reserved word as a name: no variable, assigned
/// variable, attribute, label, declared variable, function name, parameter,
/// module path or import alias in it is a reserved word. Every mark in it is
/// the mark of one of the input tokens.
pub proof fn law_parsed_names_are_not_reserved(ts: Toks)
    requires
        well_formed(ts),
    ensures
        file_result(ts) matches Ok(f) ==> file_ok(ts, f),
{
    lemma_file(ts);
}

/// A parse error points at one of the input tokens: its mark is the mark of
/// a token of the input.
pub proof fn law_errors_point_into_the_input(ts: Toks)
    requires
        well_formed(ts),
    ensures
        file_result(ts) matches Err(e) ==> mark_in(ts, e.mark),
{
    lemma_file(ts);
}

/// A parse that succeeds has read the whole file: it stops at `EOF`, which
/// is the last token when no earlier token is `EOF`.
pub proof fn law_successful_parse_stops_at_eof(ts: Toks)
    requires
        well_formed(ts),
    ensures
        file(ts) matches Ok((q, _)) ==> tok(ts, q) is EOF,
        file(ts) matches Ok((q, _)) ==> (forall|k: int| 0 <= k < ts.len() - 1 ==> !(#[trigger] tok(ts, k) is EOF))
            ==> q == ts.len() - 1,
{
    lemma_file(ts);
    if let Ok((q, _)) = file(ts) {
        assert(tok(ts, q) is EOF);
    }
}


/// The token at `p` is a name that reads as a variable.
pub open spec fn is_var_at(ts: Toks, p: int) -> bool {
    tok(ts, p) matches SpecToken::Name(n) && !is_keyword(n) && n != "nil"@
}

/// The name of the token at `p`.
pub open spec fn name_at(ts: Toks, p: int) -> Seq<char> {
    tok(ts, p)->Name_0
}

/// The variable read at position `p`.
pub open spec fn var_at(ts: Toks, p: int) -> SpecExpr {
    mk_expr(mark_at(ts, p), SpecExprDesc::GetVar(name_at(ts, p)))
}

/// The binary operation of the operator token at `p` on `l` and `r`.
pub open spec fn binop_at(ts: Toks, p: int, l: SpecExpr, r: SpecExpr) -> SpecExpr {
    mk_expr(mark_at(ts, p), SpecExprDesc::Binop(binop_of(tok(ts, p))->0, Box::new(l), Box::new(r)))
}

/// Binary operators group by binding strength: in `a op1 b op2 c`, the
/// operator that binds more strongly takes `b`, and of two operators that
/// bind equally the left one does (left associativity).
pub proof fn law_binary_operators_group_by_precedence(ts: Toks, p: int)
    requires
        well_formed(ts),
        0 <= p,
        p + 5 < ts.len(),
        is_var_at(ts, p),
        binop_of(tok(ts, p + 1)) is Some,
        is_var_at(ts, p + 2),
        binop_of(tok(ts, p + 3)) is Some,
        is_var_at(ts, p + 4),
        precedence(tok(ts, p + 5)) < 0,
    ensures
        expr(ts, p, 0) == Ok::<(int, SpecExpr), (int, SpecError)>(
            (
                p + 5,
                if precedence(tok(ts, p + 1)) >= precedence(tok(ts, p + 3)) {
                    binop_at(
                        ts,
                        p + 3,
                        binop_at(ts, p + 1, var_at(ts, p), var_at(ts, p + 2)),
                        var_at(ts, p + 4),
                    )
                } else {
                    binop_at(
                        ts,
                        p + 1,
                        var_at(ts, p),
                        binop_at(ts, p + 3, var_at(ts, p + 2), var_at(ts, p + 4)),
                    )
                },
            ),
        ),
{
    let a = var_at(ts, p);
    let b = var_at(ts, p + 2);
    let c = var_at(ts, p + 4);
    let prec1 = precedence(tok(ts, p + 1));
    let prec2 = precedence(tok(ts, p + 3));
    assert(atom(ts, p) == Ok::<(int, SpecExpr), (int, SpecError)>((p + 1, a)));
    assert(atom(ts, p + 2) == Ok::<(int, SpecExpr), (int, SpecError)>((p + 3, b)));
    assert(atom(ts, p + 4) == Ok::<(int, SpecExpr), (int, SpecError)>((p + 5, c)));
    if prec1 >= prec2 {
        assert(expr_rest(ts, p + 3, prec1 + 1, b) == Ok::<(int, SpecExpr), (int, SpecError)>((p + 3, b)));
        assert(expr(ts, p + 2, prec1 + 1) == Ok::<(int, SpecExpr), (int, SpecError)>((p + 3, b)));
        let ab = binop_at(ts, p + 1, a, b);
        assert(infix(ts, p + 1, a) == Ok::<(int, SpecExpr), (int, SpecError)>((p + 3, ab)));
        assert(expr_rest(ts, p + 5, prec2 + 1, c) == Ok::<(int, SpecExpr), (int, SpecError)>((p + 5, c)));
        assert(expr(ts, p + 4, prec2 + 1) == Ok::<(int, SpecExpr), (int, SpecError)>((p + 5, c)));
        let abc = binop_at(ts, p + 3, ab, c);
        assert(infix(ts, p + 3, ab) == Ok::<(int, SpecExpr), (int, SpecError)>((p + 5, abc)));
        assert(expr_rest(ts, p + 5, 0, abc) == Ok::<(int, SpecExpr), (int, SpecError)>((p + 5, abc)));
        assert(expr_rest(ts, p + 3, 0, ab) == Ok::<(int, SpecExpr), (int, SpecError)>((p + 5, abc)));
        assert(expr_rest(ts, p + 1, 0, a) == Ok::<(int, SpecExpr), (int, SpecError)>((p + 5, abc)));
    } else {
        assert(expr_rest(ts, p + 5, prec2 + 1, c) == Ok::<(int, SpecExpr), (int, SpecError)>((p + 5, c)));
        assert(expr(ts, p + 4, prec2 + 1) == Ok::<(int, SpecExpr), (int, SpecError)>((p + 5, c)));
        let bc = binop_at(ts, p + 3, b, c);
        assert(infix(ts, p + 3, b) == Ok::<(int, SpecExpr), (int, SpecError)>((p + 5, bc)));
        assert(expr_rest(ts, p + 5, prec1 + 1, bc) == Ok::<(int, SpecExpr), (int, SpecError)>((p + 5, bc)));
        assert(expr_rest(ts, p + 3, prec1 + 1, b) == Ok::<(int, SpecExpr), (int, SpecError)>((p + 5, bc)));
        assert(expr(ts, p + 2, prec1 + 1) == Ok::<(int, SpecExpr), (int, SpecError)>((p + 5, bc)));
        let abc = binop_at(ts, p + 1, a, bc);
        assert(infix(ts, p + 1, a) == Ok::<(int, SpecExpr), (int, SpecError)>((p + 5, abc)));
        assert(expr_rest(ts, p + 5, 0, abc) == Ok::<(int, SpecExpr), (int, SpecError)>((p + 5, abc)));
        assert(expr_rest(ts, p + 1, 0, a) == Ok::<(int, SpecExpr), (int, SpecError)>((p + 5, abc)));
    }
}


/// The unary operator of a `-` or `+` token.
pub open spec fn unop_of(t: SpecToken) -> Unop {
    if t is Minus {
        Unop::Negative
    } else {
        Unop::Positive
    }
}

/// A unary operator binds more strongly than every binary operator:
/// `-a op b` applies `op` to `-a` and `b`.
pub proof fn law_unary_binds_tighter_than_binary(ts: Toks, p: int)
    requires
        well_formed(ts),
        0 <= p,
        p + 4 < ts.len(),
        tok(ts, p) is Minus || tok(ts, p) is Plus,
        is_var_at(ts, p + 1),
        binop_of(tok(ts, p + 2)) is Some,
        is_var_at(ts, p + 3),
        precedence(tok(ts, p + 4)) < 0,
    ensures
        expr(ts, p, 0) == Ok::<(int, SpecExpr), (int, SpecError)>(
            (
                p + 4,
                binop_at(
                    ts,
                    p + 2,
                    mk_expr(
                        mark_at(ts, p),
                        SpecExprDesc::Unop(unop_of(tok(ts, p)), Box::new(var_at(ts, p + 1))),
                    ),
                    var_at(ts, p + 3),
                ),
            ),
        ),
{
    let a = var_at(ts, p + 1);
    let b = var_at(ts, p + 3);
    let neg = mk_expr(mark_at(ts, p), SpecExprDesc::Unop(unop_of(tok(ts, p)), Box::new(a)));
    let prec = precedence(tok(ts, p + 2));
    assert(atom(ts, p + 1) == Ok::<(int, SpecExpr), (int, SpecError)>((p + 2, a)));
    assert(expr_rest(ts, p + 2, UNARY_PREC as int, a) == Ok::<(int, SpecExpr), (int, SpecError)>((p + 2, a)));
    assert(expr(ts, p + 1, UNARY_PREC as int) == Ok::<(int, SpecExpr), (int, SpecError)>((p + 2, a)));
    assert(atom(ts, p) == Ok::<(int, SpecExpr), (int, SpecError)>((p + 2, neg)));
    assert(atom(ts, p + 3) == Ok::<(int, SpecExpr), (int, SpecError)>((p + 4, b)));
    assert(expr_rest(ts, p + 4, prec + 1, b) == Ok::<(int, SpecExpr), (int, SpecError)>((p + 4, b)));
    assert(expr(ts, p + 3, prec + 1) == Ok::<(int, SpecExpr), (int, SpecError)>((p + 4, b)));
    let whole = binop_at(ts, p + 2, neg, b);
    assert(infix(ts, p + 2, neg) == Ok::<(int, SpecExpr), (int, SpecError)>((p + 4, whole)));
    assert(expr_rest(ts, p + 4, 0, whole) == Ok::<(int, SpecExpr), (int, SpecError)>((p + 4, whole)));
    assert(expr_rest(ts, p + 2, 0, neg) == Ok::<(int, SpecExpr), (int, SpecError)>((p + 4, whole)));
}

/// Attribute access binds more strongly than a unary operator: `-a.x`
/// negates `a.x`.
pub proof fn law_attribute_binds_tighter_than_unary(ts: Toks, p: int)
    requires
        well_formed(ts),
        0 <= p,
        p + 4 < ts.len(),
        tok(ts, p) is Minus || tok(ts, p) is Plus,
        is_var_at(ts, p + 1),
        tok(ts, p + 2) is Dot,
        is_var_at(ts, p + 3),
        precedence(tok(ts, p + 4)) < 0,
    ensures
        expr(ts, p, 0) == Ok::<(int, SpecExpr), (int, SpecError)>(
            (
                p + 4,
                mk_expr(
                    mark_at(ts, p),
                    SpecExprDesc::Unop(
                        unop_of(tok(ts, p)),
                        Box::new(
                            mk_expr(
                                mark_at(ts, p + 2),
                                SpecExprDesc::GetAttr(Box::new(var_at(ts, p + 1)), name_at(ts, p + 3)),
                            ),
                        ),
                    ),
                ),
            ),
        ),
{
    let a = var_at(ts, p + 1);
    let attr = mk_expr(mark_at(ts, p + 2), SpecExprDesc::GetAttr(Box::new(a), name_at(ts, p + 3)));
    let whole = mk_expr(mark_at(ts, p), SpecExprDesc::Unop(unop_of(tok(ts, p)), Box::new(attr)));
    assert(atom(ts, p + 1) == Ok::<(int, SpecExpr), (int, SpecError)>((p + 2, a)));
    assert(infix(ts, p + 2, a) == Ok::<(int, SpecExpr), (int, SpecError)>((p + 4, attr)));
    assert(expr_rest(ts, p + 4, UNARY_PREC as int, attr) == Ok::<(int, SpecExpr), (int, SpecError)>((p + 4, attr)));
    assert(expr_rest(ts, p + 2, UNARY_PREC as int, a) == Ok::<(int, SpecExpr), (int, SpecError)>((p + 4, attr)));
    assert(expr(ts, p + 1, UNARY_PREC as int) == Ok::<(int, SpecExpr), (int, SpecError)>((p + 4, attr)));
    assert(atom(ts, p) == Ok::<(int, SpecExpr), (int, SpecError)>((p + 4, whole)));
    assert(expr_rest(ts, p + 4, 0, whole) == Ok::<(int, SpecExpr), (int, SpecError)>((p + 4, whole)));
}


proof fn lemma_reserved_words_differ()
    ensures
        !is_keyword("nil"@),
        "if"@ != "PRINT"@,
        "if"@ != "GOTO"@,
        "if"@ != "var"@,
{
    reveal_strlit("nil");
    reveal_strlit("fn");
    reveal_strlit("import");
    reveal_strlit("var");
    reveal_strlit("if");
    reveal_strlit("elif");
    reveal_strlit("else");
    reveal_strlit("end");
    reveal_strlit("is");
    reveal_strlit("not");
    reveal_strlit("and");
    reveal_strlit("or");
    reveal_strlit("in");
    reveal_strlit("PRINT");
    reveal_strlit("GOTO");
    assert("nil"@[1] != "not"@[1]);
    assert("nil"@[0] != "in"@[0]);
    assert("if"@.len() != "PRINT"@.len());
    assert("if"@.len() != "GOTO"@.len());
    assert("if"@.len() != "var"@.len());
}

/// An `if` statement has at least one branch; each branch body, and the
/// `else` body when there is one, is a block; the statement carries the mark
/// of `if` and ends just after the one `end` that closes the whole chain.
pub proof fn law_if_statement_shape(ts: Toks, p: int)
    requires
        well_formed(ts),
        0 <= p < ts.len(),
        is_name(tok(ts, p), "if"@),
    ensures
        stmt(ts, p) matches Ok((q, s)) ==> {
            &&& s.mark == mark_at(ts, p)
            &&& s.desc matches SpecStmtDesc::If(pairs, other) && {
                &&& pairs.len() >= 1
                &&& forall|j: int| 0 <= j < pairs.len() ==> (#[trigger] pairs[j]).1.desc is Block
                &&& other matches Some(b) ==> b.desc is Block
            }
            &&& is_name(tok(ts, q - 1), "end"@)
        },
{
    lemma_reserved_words_differ();
    lemma_next(ts, p);
    lemma_if_chain_shape(ts, p + 1, Seq::empty());
}

/// A block body carries the mark of its first token and stops only in front
/// of `end`, `elif` or `else`; a body that runs into `EOF` is an error.
pub proof fn law_block_body_stops_at_end_elif_or_else(ts: Toks, p: int)
    requires
        well_formed(ts),
        0 <= p < ts.len(),
    ensures
        block_body(ts, p) matches Ok((q, s)) ==> {
            &&& s.mark == mark_at(ts, p)
            &&& s.desc is Block
            &&& ends_block(tok(ts, q))
            &&& !(tok(ts, q) is EOF)
        },
{
    lemma_block_body(ts, p);
}

/// A block is a block body followed by `end`, which it consumes; an `elif`
/// or `else` in place of `end` is an error at that token.
pub proof fn law_block_needs_end(ts: Toks, p: int)
    requires
        well_formed(ts),
        0 <= p < ts.len(),
    ensures
        block(ts, p) == match block_body(ts, p) {
            Err(e) => Err(e),
            Ok((j, s)) => if is_name(tok(ts, j), "end"@) {
                Ok((j + 1, s))
            } else {
                fail(
                    j,
                    mark_at(ts, j),
                    SpecErrorKind::Expected {
                        expected: SpecPat::Exact(SpecToken::Name("end"@)),
                        got: tok(ts, j),
                    },
                )
            },
        },
{
}

/// An expression parsed under the bound `prec` stops at the first token
/// that does not bind at least that strongly.
pub proof fn law_expression_stops_below_bound(ts: Toks, p: int, prec: int)
    requires
        well_formed(ts),
        0 <= p < ts.len(),
    ensures
        expr(ts, p, prec) matches Ok((q, _)) ==> precedence(tok(ts, q)) < prec,
{
    lemma_expr(ts, p, prec);
}

/// Skipping delimiters lands on the first position at or after `p` whose
/// token is neither a newline nor a semicolon.
pub proof fn law_skip_delims_lands_on_first_non_delimiter(ts: Toks, p: int)
    requires
        well_formed(ts),
        0 <= p < ts.len(),
    ensures
        p <= skip_delims(ts, p) < ts.len(),
        !(tok(ts, skip_delims(ts, p)) is Newline),
        !(tok(ts, skip_delims(ts, p)) is Semicolon),
        forall|k: int|
            p <= k < skip_delims(ts, p) ==> (#[trigger] tok(ts, k)) is Newline || tok(ts, k) is Semicolon,
    decreases ts.len() - p,
{
    lemma_skip(ts, p);
    if tok(ts, p) is Newline || tok(ts, p) is Semicolon {
        lemma_next(ts, p);
        law_skip_delims_lands_on_first_non_delimiter(ts, p + 1);
    }
}

/// `=` after anything but a variable is an error at the left operand's mark,
/// with the parser standing just past the `=`.
pub proof fn law_assignment_needs_a_variable(ts: Toks, p: int, e: SpecExpr)
    requires
        well_formed(ts),
        0 <= p < ts.len(),
        tok(ts, p) is Eq,
        !(e.desc is GetVar),
    ensures
        infix(ts, p, e) == fail::<SpecExpr>(p + 1, e.mark, SpecErrorKind::NotAssignable),
{
}

/// A token that binds but is no operator (the word `is`) is an error at
/// that token, with the parser standing just past it.
pub proof fn law_non_operator_is_refused(ts: Toks, p: int, e: SpecExpr)
    requires
        well_formed(ts),
        0 <= p < ts.len(),
        !(tok(ts, p) is Dot || tok(ts, p) is LParen || tok(ts, p) is Eq),
        binop_of(tok(ts, p)) is None,
    ensures
        infix(ts, p, e) == fail::<SpecExpr>(
            p + 1,
            mark_at(ts, p),
            SpecErrorKind::ExpectedInfixOperator,
        ),
{
}

/// A number, `nil` and a variable name are each one token and give the
/// operand they spell, marked with that token.
pub proof fn law_simple_operands(ts: Toks, p: int)
    requires
        well_formed(ts),
        0 <= p < ts.len(),
    ensures
        tok(ts, p) matches SpecToken::Number(x) ==> atom(ts, p) == Ok::<(int, SpecExpr), (int, SpecError)>(
            (p + 1, mk_expr(mark_at(ts, p), SpecExprDesc::Number(x))),
        ),
        is_name(tok(ts, p), "nil"@) ==> atom(ts, p) == Ok::<(int, SpecExpr), (int, SpecError)>(
            (p + 1, mk_expr(mark_at(ts, p), SpecExprDesc::Nil)),
        ),
        is_var_at(ts, p) ==> atom(ts, p) == Ok::<(int, SpecExpr), (int, SpecError)>(
            (p + 1, var_at(ts, p)),
        ),
{
}

/// A reserved word, or a token that cannot start an operand, is an error at
/// that token, which stays unconsumed.
pub proof fn law_operand_errors(ts: Toks, p: int)
    requires
        well_formed(ts),
        0 <= p < ts.len(),
    ensures
        tok(ts, p) is Name && is_keyword(name_at(ts, p)) ==> atom(ts, p) == fail::<SpecExpr>(
            p,
            mark_at(ts, p),
            SpecErrorKind::KeywordAsExpression { keyword: name_at(ts, p) },
        ),
        !(tok(ts, p) is LParen || tok(ts, p) is Number || tok(ts, p) is String || tok(ts, p) is RawString
            || tok(ts, p) is Minus || tok(ts, p) is Plus || tok(ts, p) is Name) ==> atom(ts, p)
            == fail::<SpecExpr>(
            p,
            mark_at(ts, p),
            SpecErrorKind::ExpectedExpression { got: tok(ts, p) },
        ),
{
    lemma_reserved_words_differ();
}

/// A label is a number, read as its decimal text, or a name that is not a
/// reserved word; either way one token is consumed. Anything else is an
/// error at that token.
pub proof fn law_labels(ts: Toks, p: int)
    requires
        well_formed(ts),
        0 <= p < ts.len(),
    ensures
        tok(ts, p) matches SpecToken::Number(x) ==> expect_label(ts, p)
            == Ok::<(int, Seq<char>), (int, SpecError)>((p + 1, decimal(x))),
        tok(ts, p) is Name && !is_keyword(name_at(ts, p)) ==> expect_label(ts, p)
            == Ok::<(int, Seq<char>), (int, SpecError)>((p + 1, name_at(ts, p))),
        tok(ts, p) is Name && is_keyword(name_at(ts, p)) ==> expect_label(ts, p)
            == fail::<Seq<char>>(p + 1, mark_at(ts, p), SpecErrorKind::KeywordAsName),
        !(tok(ts, p) is Number || tok(ts, p) is Name) ==> expect_label(ts, p) == fail::<Seq<char>>(
            p,
            mark_at(ts, p),
            SpecErrorKind::ExpectedLabel { got: tok(ts, p) },
        ),
{
}

/// A statement with labels in front gives at most two labels (a `name:`
/// label, then a line number) followed by the statement; with no label in
/// front it gives the statement alone.
pub proof fn law_labeled_statement_shape(ts: Toks, p: int)
    requires
        well_formed(ts),
        0 <= p < ts.len(),
    ensures
        labeled_stmt(ts, p) matches Ok((q, v)) ==> labeled_shape(ts, p, v),
{
    lemma_labeled_stmt(ts, p);
}

/// A function definition carries the mark of `fn`; neither its name nor a
/// parameter is a reserved word; its body is a block, and it ends just after
/// the body's `end`.
pub proof fn law_function_shape(ts: Toks, p: int)
    requires
        well_formed(ts),
        0 <= p < ts.len(),
    ensures
        func(ts, p) matches Ok((q, f)) ==> {
            &&& f.mark == mark_at(ts, p)
            &&& !is_keyword(f.short_name)
            &&& forall|i: int| 0 <= i < f.params.len() ==> !is_keyword(#[trigger] f.params[i])
            &&& f.body.desc is Block
            &&& is_name(tok(ts, q - 1), "end"@)
        },
{
    lemma_func(ts, p);
}

/// The binding strengths: only comparisons (and the word `is`), the
/// arithmetic operators, `(` and `.` bind; comparisons bind less than `+`
/// and `-`, which bind less than `*`, `/`, `//` and `%`, which bind less
/// than unary operators, which bind less than calls and attribute access.
pub proof fn law_precedence_table(t: SpecToken)
    ensures
        precedence(t) >= 0 <==> (is_name(t, "is"@) || t is Eq || t is LessThan
            || t is LessThanOrEqual || t is GreaterThan || t is GreaterThanOrEqual || t is Plus
            || t is Minus || t is Star || t is Slash || t is Slash2 || t is Percent || t is LParen
            || t is Dot),
        precedence(t) < 0 ==> precedence(t) == -1,
        (is_name(t, "is"@) || t is Eq || t is LessThan || t is LessThanOrEqual || t is GreaterThan
            || t is GreaterThanOrEqual) ==> precedence(t) == CMP_PREC,
        (t is Plus || t is Minus) ==> precedence(t) == ADD_PREC,
        (t is Star || t is Slash || t is Slash2 || t is Percent) ==> precedence(t) == MUL_PREC,
        (t is LParen || t is Dot) ==> precedence(t) == POSTFIX_PREC,
        0 <= CMP_PREC < ADD_PREC < MUL_PREC < UNARY_PREC < POSTFIX_PREC,
{
}


/// `x = rhs`: the right-hand side of `=` is a whole expression, parsed with
/// no bound, so the assignment takes every operator that follows: the
/// expression at `p` is the assignment of what the expression after `=`
/// gives, and fails exactly as that expression does.
pub proof fn law_assignment_takes_the_whole_right_side(ts: Toks, p: int)
    requires
        well_formed(ts),
        0 <= p,
        p + 1 < ts.len(),
        is_var_at(ts, p),
        tok(ts, p + 1) is Eq,
    ensures
        p + 2 < ts.len(),
        expr(ts, p, 0) == match expr(ts, p + 2, 0) {
            Ok((q, e)) => Ok(
                (
                    q,
                    mk_expr(
                        mark_at(ts, p + 1),
                        SpecExprDesc::SetVar(name_at(ts, p), Box::new(e)),
                    ),
                ),
            ),
            Err(err) => Err(err),
        },
{
    lemma_next(ts, p + 1);
    let x = var_at(ts, p);
    assert(atom(ts, p) == Ok::<(int, SpecExpr), (int, SpecError)>((p + 1, x)));
    lemma_expr(ts, p + 2, 0);
    if let Ok((q, e)) = expr(ts, p + 2, 0) {
        let set = mk_expr(mark_at(ts, p + 1), SpecExprDesc::SetVar(name_at(ts, p), Box::new(e)));
        assert(infix(ts, p + 1, x) == Ok::<(int, SpecExpr), (int, SpecError)>((q, set)));
        assert(expr_rest(ts, q, 0, set) == Ok::<(int, SpecExpr), (int, SpecError)>((q, set)));
        assert(expr_rest(ts, p + 1, 0, x) == Ok::<(int, SpecExpr), (int, SpecError)>((q, set)));
    }
}

/// `if cond; body end`: the condition of `if` is a whole expression, parsed
/// with no bound. When the expression after `if` ends at a newline or a
/// semicolon and the block body after it ends at `end`, the statement is
/// the `if` with that one branch and no `else`, ending just past `end`.
pub proof fn law_if_condition_is_a_whole_expression(ts: Toks, p: int)
    requires
        well_formed(ts),
        0 <= p < ts.len(),
        is_name(tok(ts, p), "if"@),
        expr(ts, p + 1, 0) is Ok,
        ({
            let q = expr(ts, p + 1, 0)->Ok_0.0;
            &&& tok(ts, q) is Semicolon || tok(ts, q) is Newline
            &&& block_body(ts, skip_delims(ts, q)) is Ok
            &&& is_name(tok(ts, block_body(ts, skip_delims(ts, q))->Ok_0.0), "end"@)
        }),
    ensures
        ({
            let (q, c) = expr(ts, p + 1, 0)->Ok_0;
            let (r, b) = block_body(ts, skip_delims(ts, q))->Ok_0;
            stmt(ts, p) == Ok::<(int, SpecStmt), (int, SpecError)>(
                (r + 1, mk_stmt(mark_at(ts, p), SpecStmtDesc::If(seq![(c, b)], None))),
            )
        }),
{
    lemma_reserved_words_differ();
    reveal_strlit("end");
    reveal_strlit("elif");
    reveal_strlit("else");
    assert("end"@[1] != "elif"@[1]);
    assert("end"@[1] != "else"@[1]);
    lemma_next(ts, p);
    lemma_expr(ts, p + 1, 0);
    let (q, c) = expr(ts, p + 1, 0)->Ok_0;
    lemma_skip(ts, q);
    let q2 = skip_delims(ts, q);
    lemma_block_body(ts, q2);
    let (r, b) = block_body(ts, q2)->Ok_0;
    lemma_expect(ts, r, SpecPat::Exact(SpecToken::Name("end"@)));
    assert(Seq::<(SpecExpr, SpecStmt)>::empty().push((c, b)) =~= seq![(c, b)]);
}

/// A block body keeps the source order of its statements: when the first
/// statement (after any leading delimiters) gives `v` and is followed by a
/// delimiter, the body is `v` followed by the statements of the block body
/// that starts after that delimiter, and fails exactly as that body does.
pub proof fn law_block_body_keeps_source_order(ts: Toks, p: int)
    requires
        well_formed(ts),
        0 <= p < ts.len(),
        !ends_block(tok(ts, skip_delims(ts, p))),
        labeled_stmt(ts, skip_delims(ts, p)) is Ok,
        crate::grammar::at_delim(tok(ts, labeled_stmt(ts, skip_delims(ts, p))->Ok_0.0)),
    ensures
        ({
            let (q, v) = labeled_stmt(ts, skip_delims(ts, p))->Ok_0;
            block_body(ts, p) == match block_body(ts, skip_delims(ts, q)) {
                Ok((r, s2)) => Ok(
                    (r, mk_stmt(mark_at(ts, p), SpecStmtDesc::Block(v + s2.desc->Block_0))),
                ),
                Err(e) => Err(e),
            }
        }),
{
    lemma_skip(ts, p);
    let p0 = skip_delims(ts, p);
    lemma_labeled_stmt(ts, p0);
    let (q, v) = labeled_stmt(ts, p0)->Ok_0;
    lemma_delim(ts, q);
    lemma_skip(ts, q);
    let q2 = skip_delims(ts, q);
    law_skip_delims_lands_on_first_non_delimiter(ts, q);
    assert(skip_delims(ts, q2) == q2);
    assert(Seq::<SpecStmt>::empty() + v =~= v);
    assert(block_stmts(ts, p0, Seq::empty()) == block_stmts(ts, q2, v));
    lemma_block_stmts_acc(ts, q2, v);
    if let Ok((r, ss)) = block_stmts(ts, q2, Seq::empty()) {
        assert(block_body(ts, q2) == Ok::<(int, SpecStmt), (int, SpecError)>(
            (r, mk_stmt(mark_at(ts, q2), SpecStmtDesc::Block(ss))),
        ));
    }
}

/// The statements that a block collects after `acc` are `acc` followed by
/// what it collects from nothing.
proof fn lemma_block_stmts_acc(ts: Toks, p: int, acc: Seq<SpecStmt>)
    requires
        well_formed(ts),
        0 <= p < ts.len(),
    ensures
        block_stmts(ts, p, acc) == match block_stmts(ts, p, Seq::empty()) {
            Ok((q, ss)) => Ok((q, acc + ss)),
            Err(e) => Err(e),
        },
    decreases ts.len() - p,
{
    let empty = Seq::<SpecStmt>::empty();
    if ends_block(tok(ts, p)) {
        assert(acc + empty =~= acc);
    } else {
        lemma_labeled_stmt(ts, p);
        if let Ok((q, new)) = labeled_stmt(ts, p) {
            lemma_delim(ts, q);
            if let Ok((q2, _)) = delim(ts, q) {
                lemma_block_stmts_acc(ts, q2, acc + new);
                lemma_block_stmts_acc(ts, q2, empty + new);
                assert(empty + new =~= new);
                if let Ok((r, ss)) = block_stmts(ts, q2, empty) {
                    assert(acc + new + ss =~= acc + (new + ss));
                }
            }
        }
    }
}

/// `N name ...` and `N (...`: a number followed by any name (reserved or
/// not) or by `(` is a line-number label; the statement gives the label,
/// the decimal text of the number, then the statement that starts at the
/// next token, and fails exactly as that statement does.
pub proof fn law_number_before_a_name_is_a_line_number(ts: Toks, p: int)
    requires
        well_formed(ts),
        0 <= p,
        p + 1 < ts.len(),
        tok(ts, p) is Number,
        tok(ts, p + 1) is Name || tok(ts, p + 1) is LParen,
    ensures
        labeled_stmt(ts, p) == match stmt(ts, p + 1) {
            Ok((q, s)) => Ok(
                (
                    q,
                    seq![
                        mk_stmt(mark_at(ts, p), SpecStmtDesc::Label(decimal(tok(ts, p)->Number_0))),
                        s,
                    ],
                ),
            ),
            Err(e) => Err(e),
        },
{
    let label = mk_stmt(mark_at(ts, p), SpecStmtDesc::Label(decimal(tok(ts, p)->Number_0)));
    assert(name_label(ts, p) == Ok::<(int, Seq<SpecStmt>), (int, SpecError)>((p, Seq::empty())));
    assert(Seq::<SpecStmt>::empty().push(label) =~= seq![label]);
    assert(number_label(ts, p, Seq::empty()) == Ok::<(int, Seq<SpecStmt>), (int, SpecError)>(
        (p + 1, seq![label]),
    ));
    if let Ok((q, s)) = stmt(ts, p + 1) {
        assert(seq![label].push(s) =~= seq![label, s]);
    }
}

/// `import path as alias`: `as` changes only the alias. The module name is
/// the whole dotted path that follows `import` (the same as without `as`);
/// the alias is the name after `as`, or else the last part of the path.
pub proof fn law_import_alias_keeps_the_module_path(ts: Toks, p: int)
    requires
        well_formed(ts),
        0 <= p,
        p + 1 < ts.len(),
        is_name(tok(ts, p), "import"@),
        tok(ts, p + 1) is Name && !is_keyword(name_at(ts, p + 1)),
    ensures
        import(ts, p) is Ok ==> ({
            let (q, i) = import(ts, p)->Ok_0;
            let path = import_tail(ts, p + 2, name_at(ts, p + 1), name_at(ts, p + 1));
            let (p3, (m, l)) = path->Ok_0;
            &&& path is Ok
            &&& i.mark == mark_at(ts, p)
            &&& i.module_name == m
            &&& i.alias == if is_name(tok(ts, p3), "as"@) {
                name_at(ts, p3 + 1)
            } else {
                l
            }
            &&& i.unique_name == Seq::<char>::empty()
            &&& q == if is_name(tok(ts, p3), "as"@) {
                p3 + 2
            } else {
                p3
            }
        }),
{
}


/// `while cond; body end`: the condition of `while` is a whole expression,
/// parsed with no bound. When it ends at a newline or a semicolon, the loop
/// is that condition and the block after it, and fails exactly as the block
/// does.
pub proof fn law_while_condition_is_a_whole_expression(ts: Toks, p: int)
    requires
        well_formed(ts),
        0 <= p < ts.len(),
        is_name(tok(ts, p), "while"@),
        expr(ts, p + 1, 0) is Ok,
        tok(ts, expr(ts, p + 1, 0)->Ok_0.0) is Semicolon || tok(ts, expr(ts, p + 1, 0)->Ok_0.0) is Newline,
    ensures
        ({
            let (q, c) = expr(ts, p + 1, 0)->Ok_0;
            stmt(ts, p) == match block(ts, skip_delims(ts, q)) {
                Ok((r, b)) => Ok(
                    (r, mk_stmt(mark_at(ts, p), SpecStmtDesc::While(c, Box::new(b)))),
                ),
                Err(e) => Err(e),
            }
        }),
{
    reveal_strlit("while");
    reveal_strlit("PRINT");
    reveal_strlit("GOTO");
    reveal_strlit("var");
    reveal_strlit("if");
    assert("while"@[0] != "PRINT"@[0]);
    assert("while"@.len() != "GOTO"@.len());
    assert("while"@.len() != "var"@.len());
    assert("while"@.len() != "if"@.len());
    lemma_next(ts, p);
    lemma_expr(ts, p + 1, 0);
    let (q, c) = expr(ts, p + 1, 0)->Ok_0;
    lemma_skip(ts, q);
}

/// The arguments of a call keep their source order: those collected after
/// `acc` are `acc` followed by what is collected from nothing.
pub proof fn law_call_arguments_keep_source_order(ts: Toks, p: int, acc: Seq<SpecExpr>)
    requires
        well_formed(ts),
        0 <= p < ts.len(),
    ensures
        call_args(ts, p, acc) == match call_args(ts, p, Seq::empty()) {
            Ok((q, args)) => Ok((q, acc + args)),
            Err(e) => Err(e),
        },
    decreases ts.len() - p,
{
    let empty = Seq::<SpecExpr>::empty();
    if tok(ts, p) is RParen {
        assert(acc + empty =~= acc);
    } else {
        lemma_expr(ts, p, 0);
        if let Ok((q, a)) = expr(ts, p, 0) {
            if tok(ts, q) is Comma {
                lemma_next(ts, q);
                law_call_arguments_keep_source_order(ts, q + 1, acc.push(a));
                law_call_arguments_keep_source_order(ts, q + 1, empty.push(a));
                if let Ok((r, rest)) = call_args(ts, q + 1, empty) {
                    assert(acc.push(a) + rest =~= acc + (empty.push(a) + rest));
                }
            } else {
                assert(acc.push(a) =~= acc + empty.push(a));
            }
        }
    }
}

/// The parameters of a function keep their source order: those collected
/// after `acc` are `acc` followed by what is collected from nothing.
pub proof fn law_parameters_keep_source_order(ts: Toks, p: int, acc: Seq<Seq<char>>)
    requires
        well_formed(ts),
        0 <= p < ts.len(),
    ensures
        params(ts, p, acc) == match params(ts, p, Seq::empty()) {
            Ok((q, ps)) => Ok((q, acc + ps)),
            Err(e) => Err(e),
        },
    decreases ts.len() - p,
{
    let empty = Seq::<Seq<char>>::empty();
    if tok(ts, p) is RParen {
        assert(acc + empty =~= acc);
    } else {
        lemma_expect_name(ts, p);
        if let Ok((q, n)) = expect_name(ts, p) {
            if tok(ts, q) is Comma {
                lemma_next(ts, q);
                law_parameters_keep_source_order(ts, q + 1, acc.push(n));
                law_parameters_keep_source_order(ts, q + 1, empty.push(n));
                if let Ok((r, rest)) = params(ts, q + 1, empty) {
                    assert(acc.push(n) + rest =~= acc + (empty.push(n) + rest));
                }
            } else {
                assert(acc.push(n) =~= acc + empty.push(n));
            }
        }
    }
}

/// The items of a file keep their source order: the imports, functions and
/// statements collected after `acc` are those of `acc` followed by what is
/// collected from nothing.
pub proof fn law_file_items_keep_source_order(ts: Toks, p: int, acc: FileParts)
    requires
        well_formed(ts),
        0 <= p < ts.len(),
    ensures
        file_items(ts, p, acc) == match file_items(
            ts,
            p,
            (Seq::empty(), Seq::empty(), Seq::empty()),
        ) {
            Ok((q, r)) => Ok((q, (acc.0 + r.0, acc.1 + r.1, acc.2 + r.2))),
            Err(e) => Err(e),
        },
    decreases ts.len() - p,
{
    let e0 = Seq::<SpecImport>::empty();
    let e1 = Seq::<SpecFunc>::empty();
    let e2 = Seq::<SpecStmt>::empty();
    let empty: FileParts = (e0, e1, e2);
    if tok(ts, p) is EOF {
        assert(acc.0 + e0 =~= acc.0);
        assert(acc.1 + e1 =~= acc.1);
        assert(acc.2 + e2 =~= acc.2);
    } else if is_name(tok(ts, p), "import"@) {
        lemma_import(ts, p);
        if let Ok((q, imp)) = import(ts, p) {
            lemma_delim(ts, q);
            if let Ok((q2, _)) = delim(ts, q) {
                law_file_items_keep_source_order(ts, q2, (acc.0.push(imp), acc.1, acc.2));
                law_file_items_keep_source_order(ts, q2, (e0.push(imp), e1, e2));
                if let Ok((r, rest)) = file_items(ts, q2, empty) {
                    assert(acc.0.push(imp) + rest.0 =~= acc.0 + (e0.push(imp) + rest.0));
                    assert(acc.1 + rest.1 =~= acc.1 + (e1 + rest.1));
                    assert(acc.2 + rest.2 =~= acc.2 + (e2 + rest.2));
                }
            }
        }
    } else if is_name(tok(ts, p), "fn"@) {
        lemma_func(ts, p);
        if let Ok((q, f)) = func(ts, p) {
            lemma_delim(ts, q);
            if let Ok((q2, _)) = delim(ts, q) {
                law_file_items_keep_source_order(ts, q2, (acc.0, acc.1.push(f), acc.2));
                law_file_items_keep_source_order(ts, q2, (e0, e1.push(f), e2));
                if let Ok((r, rest)) = file_items(ts, q2, empty) {
                    assert(acc.0 + rest.0 =~= acc.0 + (e0 + rest.0));
                    assert(acc.1.push(f) + rest.1 =~= acc.1 + (e1.push(f) + rest.1));
                    assert(acc.2 + rest.2 =~= acc.2 + (e2 + rest.2));
                }
            }
        }
    } else {
        lemma_labeled_stmt(ts, p);
        if let Ok((q, new)) = labeled_stmt(ts, p) {
            lemma_delim(ts, q);
            if let Ok((q2, _)) = delim(ts, q) {
                law_file_items_keep_source_order(ts, q2, (acc.0, acc.1, acc.2 + new));
                law_file_items_keep_source_order(ts, q2, (e0, e1, e2 + new));
                if let Ok((r, rest)) = file_items(ts, q2, empty) {
                    assert(acc.0 + rest.0 =~= acc.0 + (e0 + rest.0));
                    assert(acc.1 + rest.1 =~= acc.1 + (e1 + rest.1));
                    assert(acc.2 + new + rest.2 =~= acc.2 + (e2 + new + rest.2));
                }
            }
        }
    }
}

} // verus!
