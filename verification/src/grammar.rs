//! The language's grammar as a mathematical function from a token sequence
//! to a syntax tree or an error. Each nonterminal is a function from a
//! position in the token sequence to either the position after the phrase
//! and the phrase's model, or the error that the parser reports.
//!
//! Where a phrase goes on at a position that a sub-phrase produced, the
//! definition first checks that the position has moved on (`moved`,
//! `not_back`); this is what makes the mutual recursion well founded. The
//! check always holds for the positions that sub-phrases produce (the parser
//! and the lemmas of `laws` prove it), so the `arbitrary()` branches are
//! never taken.
use vstd::prelude::*;
use crate::ast::{Binop, SpecExpr, SpecExprDesc, SpecFile, SpecFunc, SpecImport, SpecStmt, SpecStmtDesc, Unop};
use crate::error::{SpecError, SpecErrorKind};
use crate::text::{decimal, is_keyword};
use crate::token::{pat_matches, Mark, SpecPat, SpecToken};

verus! {

/// A token sequence with the mark of each token.
pub type Toks = Seq<(SpecToken, Mark)>;

/// The outcome of parsing a phrase: the position just after it and its
/// model, or the position the parser stands at when it fails and the error.
pub type Parsed<A> = Result<(int, A), (int, SpecError)>;

pub const CMP_PREC: i64 = 100;

pub const ADD_PREC: i64 = 120;

pub const MUL_PREC: i64 = 160;

pub const UNARY_PREC: i64 = 200;

pub const POSTFIX_PREC: i64 = 1000;

/// The token at position `p`.
pub open spec fn tok(ts: Toks, p: int) -> SpecToken {
    ts[p].0
}

/// The mark of the token at position `p`.
pub open spec fn mark_at(ts: Toks, p: int) -> Mark {
    ts[p].1
}

/// A token sequence that a parse can start on: it ends with `EOF`.
pub open spec fn well_formed(ts: Toks) -> bool {
    &&& ts.len() > 0
    &&& tok(ts, ts.len() - 1) is EOF
}

pub open spec fn in_range(ts: Toks, p: int) -> bool {
    0 <= p < ts.len()
}

/// `q` lies strictly after `p`, before the end of the sequence.
pub open spec fn moved(ts: Toks, p: int, q: int) -> bool {
    p < q < ts.len()
}

/// `q` lies at or after `p`, before the end of the sequence.
pub open spec fn not_back(ts: Toks, p: int, q: int) -> bool {
    p <= q < ts.len()
}

/// A failure with the parser standing at `q`.
pub open spec fn fail<A>(q: int, m: Mark, k: SpecErrorKind) -> Parsed<A> {
    Err((q, SpecError { mark: m, kind: k }))
}

/// `t` is a name token spelling `s`.
pub open spec fn is_name(t: SpecToken, s: Seq<char>) -> bool {
    t matches SpecToken::Name(n) && n == s
}

/// The binding strength of `t` as an infix operator; -1 when it is none.
pub open spec fn precedence(t: SpecToken) -> int {
    match t {
        SpecToken::Name(n) => if n == "is"@ {
            CMP_PREC as int
        } else {
            -1
        },
        SpecToken::Eq | SpecToken::LessThan | SpecToken::LessThanOrEqual | SpecToken::GreaterThan
        | SpecToken::GreaterThanOrEqual => CMP_PREC as int,
        SpecToken::Minus | SpecToken::Plus => ADD_PREC as int,
        SpecToken::Star | SpecToken::Slash | SpecToken::Slash2 | SpecToken::Percent => MUL_PREC as int,
        SpecToken::LParen | SpecToken::Dot => POSTFIX_PREC as int,
        _ => -1,
    }
}

/// The binary operator that `t` denotes, if any.
pub open spec fn binop_of(t: SpecToken) -> Option<Binop> {
    match t {
        SpecToken::Plus => Some(Binop::Add),
        SpecToken::Minus => Some(Binop::Subtract),
        SpecToken::Star => Some(Binop::Multiply),
        SpecToken::Slash => Some(Binop::Divide),
        SpecToken::Slash2 => Some(Binop::TruncDivide),
        SpecToken::Percent => Some(Binop::Remainder),
        SpecToken::LessThan => Some(Binop::LessThan),
        SpecToken::LessThanOrEqual => Some(Binop::LessThanOrEqual),
        SpecToken::GreaterThan => Some(Binop::GreaterThan),
        SpecToken::GreaterThanOrEqual => Some(Binop::GreaterThanOrEqual),
        _ => None,
    }
}

/// Tokens that end a statement.
pub open spec fn at_delim(t: SpecToken) -> bool {
    is_name(t, "end"@) || t is EOF || t is Semicolon || t is Newline
}

/// The position of the first token at or after `p` that is neither a newline
/// nor a semicolon.
pub open spec fn skip_delims(ts: Toks, p: int) -> int
    decreases ts.len() - p,
{
    if 0 <= p < ts.len() && (tok(ts, p) is Newline || tok(ts, p) is Semicolon) {
        skip_delims(ts, p + 1)
    } else {
        p
    }
}

/// A statement delimiter: at least one of newline, semicolon, `end` or EOF,
/// after which newlines and semicolons are skipped.
pub open spec fn delim(ts: Toks, p: int) -> Parsed<()> {
    if at_delim(tok(ts, p)) {
        Ok((skip_delims(ts, p), ()))
    } else {
        fail(p, mark_at(ts, p), SpecErrorKind::ExpectedDelimiter { got: tok(ts, p) })
    }
}

/// One token fitting `pat`.
pub open spec fn expect(ts: Toks, p: int, pat: SpecPat) -> Parsed<SpecToken> {
    if pat_matches(pat, tok(ts, p)) {
        Ok((p + 1, tok(ts, p)))
    } else {
        fail(p, mark_at(ts, p), SpecErrorKind::Expected { expected: pat, got: tok(ts, p) })
    }
}

/// A name that is not a reserved word.
pub open spec fn expect_name(ts: Toks, p: int) -> Parsed<Seq<char>> {
    match tok(ts, p) {
        SpecToken::Name(n) => if is_keyword(n) {
            fail(p + 1, mark_at(ts, p), SpecErrorKind::KeywordAsName)
        } else {
            Ok((p + 1, n))
        },
        t => fail(p, mark_at(ts, p), SpecErrorKind::Expected { expected: SpecPat::Name, got: t }),
    }
}

/// A label: a number, read as its decimal text, or a name.
pub open spec fn expect_label(ts: Toks, p: int) -> Parsed<Seq<char>> {
    match tok(ts, p) {
        SpecToken::Number(x) => Ok((p + 1, decimal(x))),
        SpecToken::Name(_) => expect_name(ts, p),
        t => fail(p, mark_at(ts, p), SpecErrorKind::ExpectedLabel { got: t }),
    }
}

/// A name followed by `:` (and not a reserved word) opens a labelled statement.
pub open spec fn starts_name_label(ts: Toks, p: int) -> bool {
    &&& tok(ts, p) matches SpecToken::Name(n) && !is_keyword(n)
    &&& p + 1 < ts.len()
    &&& tok(ts, p + 1) is Colon
}

/// A number followed by a name or `(` is a line-number label.
pub open spec fn starts_number_label(ts: Toks, p: int) -> bool {
    &&& tok(ts, p) is Number
    &&& p + 1 < ts.len()
    &&& (tok(ts, p + 1) is Name || tok(ts, p + 1) is LParen)
}

pub open spec fn label_stmt(m: Mark, label: Seq<char>) -> SpecStmt {
    SpecStmt { mark: m, desc: SpecStmtDesc::Label(label) }
}

/// The optional `name:` label in front of a statement.
pub open spec fn name_label(ts: Toks, p: int) -> Parsed<Seq<SpecStmt>> {
    if starts_name_label(ts, p) {
        match expect_label(ts, p) {
            Err(e) => Err(e),
            Ok((q, label)) => match expect(ts, q, SpecPat::Exact(SpecToken::Colon)) {
                Err(e) => Err(e),
                Ok((q2, _)) => Ok((skip_delims(ts, q2), seq![label_stmt(mark_at(ts, p), label)])),
            },
        }
    } else {
        Ok((p, Seq::empty()))
    }
}

/// The optional line number in front of a statement, after the labels in `ret`.
pub open spec fn number_label(ts: Toks, p: int, ret: Seq<SpecStmt>) -> Parsed<Seq<SpecStmt>> {
    if starts_number_label(ts, p) {
        match expect_label(ts, p) {
            Err(e) => Err(e),
            Ok((q, label)) => Ok((q, ret.push(label_stmt(mark_at(ts, p), label)))),
        }
    } else {
        Ok((p, ret))
    }
}

/// A block ending with `end`.
pub open spec fn block(ts: Toks, p: int) -> Parsed<SpecStmt>
    decreases ts.len() - p, 9nat
    when in_range(ts, p)
{
    match block_body(ts, p) {
        Err(e) => Err(e),
        Ok((q, s)) => match expect(ts, q, SpecPat::Exact(SpecToken::Name("end"@))) {
            Err(e) => Err(e),
            Ok((q2, _)) => Ok((q2, s)),
        },
    }
}

/// The statements of a block, up to (not including) `end`, `elif` or `else`.
pub open spec fn block_body(ts: Toks, p: int) -> Parsed<SpecStmt>
    decreases ts.len() - p, 8nat
    when in_range(ts, p)
{
    let q = skip_delims(ts, p);
    if not_back(ts, p, q) {
        match block_stmts(ts, q, Seq::empty()) {
            Err(e) => Err(e),
            Ok((q2, stmts)) => Ok((q2, SpecStmt { mark: mark_at(ts, p), desc: SpecStmtDesc::Block(stmts) })),
        }
    } else {
        arbitrary()
    }
}

/// Whether the token closes a block body.
pub open spec fn ends_block(t: SpecToken) -> bool {
    is_name(t, "end"@) || is_name(t, "elif"@) || is_name(t, "else"@)
}

/// The statements of a block from position `p` on, after those in `acc`.
pub open spec fn block_stmts(ts: Toks, p: int, acc: Seq<SpecStmt>) -> Parsed<Seq<SpecStmt>>
    decreases ts.len() - p, 7nat
    when in_range(ts, p)
{
    if ends_block(tok(ts, p)) {
        Ok((p, acc))
    } else {
        match labeled_stmt(ts, p) {
            Err(e) => Err(e),
            Ok((q, new)) => match delim(ts, q) {
                Err(e) => Err(e),
                Ok((q2, _)) => if moved(ts, p, q2) {
                    block_stmts(ts, q2, acc + new)
                } else {
                    arbitrary()
                },
            },
        }
    }
}

/// A statement with its optional labels in front.
pub open spec fn labeled_stmt(ts: Toks, p: int) -> Parsed<Seq<SpecStmt>>
    decreases ts.len() - p, 6nat
    when in_range(ts, p)
{
    match name_label(ts, p) {
        Err(e) => Err(e),
        Ok((q, ret)) => match number_label(ts, q, ret) {
            Err(e) => Err(e),
            Ok((q2, ret2)) => if not_back(ts, p, q2) {
                match stmt(ts, q2) {
                    Err(e) => Err(e),
                    Ok((q3, s)) => Ok((q3, ret2.push(s))),
                }
            } else {
                arbitrary()
            },
        },
    }
}

pub open spec fn mk_stmt(m: Mark, d: SpecStmtDesc) -> SpecStmt {
    SpecStmt { mark: m, desc: d }
}

/// A statement.
pub open spec fn stmt(ts: Toks, p: int) -> Parsed<SpecStmt>
    decreases ts.len() - p, 5nat
    when in_range(ts, p)
{
    let m = mark_at(ts, p);
    let t = tok(ts, p);
    if is_name(t, "PRINT"@) {
        match expr(ts, p + 1, 0) {
            Err(e) => Err(e),
            Ok((q, e)) => Ok((q, mk_stmt(m, SpecStmtDesc::Print(e)))),
        }
    } else if is_name(t, "GOTO"@) {
        match expect_label(ts, p + 1) {
            Err(e) => Err(e),
            Ok((q, label)) => Ok((q, mk_stmt(m, SpecStmtDesc::Goto(label)))),
        }
    } else if is_name(t, "var"@) {
        match expect_name(ts, p + 1) {
            Err(e) => Err(e),
            Ok((q, name)) => match expect(ts, q, SpecPat::Exact(SpecToken::Eq)) {
                Err(e) => Err(e),
                Ok((q2, _)) => if moved(ts, p, q2) {
                    match expr(ts, q2, 0) {
                        Err(e) => Err(e),
                        Ok((q3, e)) => Ok((q3, mk_stmt(m, SpecStmtDesc::DeclVar(name, e)))),
                    }
                } else {
                    arbitrary()
                },
            },
        }
    } else if is_name(t, "if"@) {
        match if_chain(ts, p + 1, Seq::empty()) {
            Err(e) => Err(e),
            Ok((q, (pairs, other))) => Ok((q, mk_stmt(m, SpecStmtDesc::If(pairs, other)))),
        }
    } else if is_name(t, "while"@) {
        match expr(ts, p + 1, 0) {
            Err(e) => Err(e),
            Ok((q, cond)) => match delim(ts, q) {
                Err(e) => Err(e),
                Ok((q2, _)) => if moved(ts, p, q2) {
                    match block(ts, q2) {
                        Err(e) => Err(e),
                        Ok((q3, body)) => Ok(
                            (q3, mk_stmt(m, SpecStmtDesc::While(cond, Box::new(body)))),
                        ),
                    }
                } else {
                    arbitrary()
                },
            },
        }
    } else if starts_name_label(ts, p) {
        match expect_label(ts, p) {
            Err(e) => Err(e),
            Ok((q, label)) => match expect(ts, q, SpecPat::Exact(SpecToken::Colon)) {
                Err(e) => Err(e),
                Ok((q2, _)) => Ok((q2, label_stmt(m, label))),
            },
        }
    } else {
        match expr(ts, p, 0) {
            Err(e) => Err(e),
            Ok((q, e)) => Ok((q, mk_stmt(m, SpecStmtDesc::Expr(e)))),
        }
    }
}

/// The branches of an `if` from a condition at `p` on, after those in
/// `pairs`, with the optional `else` block; the closing `end` included.
pub open spec fn if_chain(ts: Toks, p: int, pairs: Seq<(SpecExpr, SpecStmt)>) -> Parsed<
    (Seq<(SpecExpr, SpecStmt)>, Option<Box<SpecStmt>>),
>
    decreases ts.len() - p, 4nat
    when in_range(ts, p)
{
    match expr(ts, p, 0) {
        Err(e) => Err(e),
        Ok((q, cond)) => match delim(ts, q) {
            Err(e) => Err(e),
            Ok((q2, _)) => if moved(ts, p, q2) {
                match block_body(ts, q2) {
                    Err(e) => Err(e),
                    Ok((q3, body)) => {
                        let pairs2 = pairs.push((cond, body));
                        if is_name(tok(ts, q3), "elif"@) {
                            if moved(ts, p, q3 + 1) {
                                if_chain(ts, q3 + 1, pairs2)
                            } else {
                                arbitrary()
                            }
                        } else if is_name(tok(ts, q3), "else"@) {
                            match delim(ts, q3 + 1) {
                                Err(e) => Err(e),
                                Ok((q4, _)) => if moved(ts, p, q4) {
                                    match block_body(ts, q4) {
                                        Err(e) => Err(e),
                                        Ok((q5, other)) => match expect(
                                            ts,
                                            q5,
                                            SpecPat::Exact(SpecToken::Name("end"@)),
                                        ) {
                                            Err(e) => Err(e),
                                            Ok((q6, _)) => Ok((q6, (pairs2, Some(Box::new(other))))),
                                        },
                                    }
                                } else {
                                    arbitrary()
                                },
                            }
                        } else {
                            match expect(ts, q3, SpecPat::Exact(SpecToken::Name("end"@))) {
                                Err(e) => Err(e),
                                Ok((q4, _)) => Ok((q4, (pairs2, None))),
                            }
                        }
                    },
                }
            } else {
                arbitrary()
            },
        },
    }
}

/// The arguments of a call from position `p` on, after those in `acc`; the
/// closing `)` included.
pub open spec fn call_args(ts: Toks, p: int, acc: Seq<SpecExpr>) -> Parsed<Seq<SpecExpr>>
    decreases ts.len() - p, 4nat
    when in_range(ts, p)
{
    if tok(ts, p) is RParen {
        Ok((p + 1, acc))
    } else {
        match expr(ts, p, 0) {
            Err(e) => Err(e),
            Ok((q, a)) => if tok(ts, q) is Comma {
                if moved(ts, p, q + 1) {
                    call_args(ts, q + 1, acc.push(a))
                } else {
                    arbitrary()
                }
            } else {
                match expect(ts, q, SpecPat::Exact(SpecToken::RParen)) {
                    Err(e) => Err(e),
                    Ok((q2, _)) => Ok((q2, acc.push(a))),
                }
            },
        }
    }
}

/// An expression whose infix operators all bind at least as strongly as `prec`.
pub open spec fn expr(ts: Toks, p: int, prec: int) -> Parsed<SpecExpr>
    decreases ts.len() - p, 3nat
    when in_range(ts, p)
{
    match atom(ts, p) {
        Err(e) => Err(e),
        Ok((q, e)) => if not_back(ts, p, q) {
            expr_rest(ts, q, prec, e)
        } else {
            arbitrary()
        },
    }
}

/// The infix operations that extend the expression `e` from position `p` on.
pub open spec fn expr_rest(ts: Toks, p: int, prec: int, e: SpecExpr) -> Parsed<SpecExpr>
    decreases ts.len() - p, 2nat
    when in_range(ts, p)
{
    if precedence(tok(ts, p)) >= prec {
        match infix(ts, p, e) {
            Err(err) => Err(err),
            Ok((q, e2)) => if moved(ts, p, q) {
                expr_rest(ts, q, prec, e2)
            } else {
                arbitrary()
            },
        }
    } else {
        Ok((p, e))
    }
}

pub open spec fn mk_expr(m: Mark, d: SpecExprDesc) -> SpecExpr {
    SpecExpr { mark: m, desc: d }
}

/// One infix operation (or postfix `.name` or call) applied to `e`, starting
/// at the operator token at `p`.
pub open spec fn infix(ts: Toks, p: int, e: SpecExpr) -> Parsed<SpecExpr>
    decreases ts.len() - p, 1nat
    when in_range(ts, p)
{
    let m = mark_at(ts, p);
    let t = tok(ts, p);
    match t {
        SpecToken::Dot => match expect_name(ts, p + 1) {
            Err(err) => Err(err),
            Ok((q, attr)) => Ok((q, mk_expr(m, SpecExprDesc::GetAttr(Box::new(e), attr)))),
        },
        SpecToken::LParen => match call_args(ts, p + 1, Seq::empty()) {
            Err(err) => Err(err),
            Ok((q, args)) => Ok((q, mk_expr(m, SpecExprDesc::CallFunc(Box::new(e), args)))),
        },
        SpecToken::Eq => match e.desc {
            SpecExprDesc::GetVar(name) => match expr(ts, p + 1, 0) {
                Err(err) => Err(err),
                Ok((q, rhs)) => Ok((q, mk_expr(m, SpecExprDesc::SetVar(name, Box::new(rhs))))),
            },
            _ => fail(p + 1, e.mark, SpecErrorKind::NotAssignable),
        },
        _ => match binop_of(t) {
            Some(op) => match expr(ts, p + 1, precedence(t) + 1) {
                Err(err) => Err(err),
                Ok((q, rhs)) => Ok(
                    (q, mk_expr(m, SpecExprDesc::Binop(op, Box::new(e), Box::new(rhs)))),
                ),
            },
            None => fail(p + 1, m, SpecErrorKind::ExpectedInfixOperator),
        },
    }
}

/// An operand: a parenthesized expression, a literal, a unary operation,
/// `nil` or a variable.
pub open spec fn atom(ts: Toks, p: int) -> Parsed<SpecExpr>
    decreases ts.len() - p, 0nat
    when in_range(ts, p)
{
    let m = mark_at(ts, p);
    match tok(ts, p) {
        SpecToken::LParen => match expr(ts, p + 1, 0) {
            Err(err) => Err(err),
            Ok((q, e)) => match expect(ts, q, SpecPat::Exact(SpecToken::RParen)) {
                Err(err) => Err(err),
                Ok((q2, _)) => Ok((q2, e)),
            },
        },
        SpecToken::Number(x) => Ok((p + 1, mk_expr(m, SpecExprDesc::Number(x)))),
        SpecToken::String(s) => Ok((p + 1, mk_expr(m, SpecExprDesc::String(s)))),
        SpecToken::RawString(s) => Ok((p, mk_expr(m, SpecExprDesc::String(s)))),
        SpecToken::Minus => match expr(ts, p + 1, UNARY_PREC as int) {
            Err(err) => Err(err),
            Ok((q, e)) => Ok((q, mk_expr(m, SpecExprDesc::Unop(Unop::Negative, Box::new(e))))),
        },
        SpecToken::Plus => match expr(ts, p + 1, UNARY_PREC as int) {
            Err(err) => Err(err),
            Ok((q, e)) => Ok((q, mk_expr(m, SpecExprDesc::Unop(Unop::Positive, Box::new(e))))),
        },
        SpecToken::Name(n) => if n == "nil"@ {
            Ok((p + 1, mk_expr(m, SpecExprDesc::Nil)))
        } else if !is_keyword(n) {
            Ok((p + 1, mk_expr(m, SpecExprDesc::GetVar(n))))
        } else {
            fail(p, m, SpecErrorKind::KeywordAsExpression { keyword: n })
        },
        t => fail(p, m, SpecErrorKind::ExpectedExpression { got: t }),
    }
}


/// The `.part` continuations of a dotted module name from `p` on; `module`
/// is the name so far and `last` its last part.
pub open spec fn import_tail(ts: Toks, p: int, module: Seq<char>, last: Seq<char>) -> Parsed<
    (Seq<char>, Seq<char>),
>
    decreases ts.len() - p,
{
    if 0 <= p < ts.len() && tok(ts, p) is Dot {
        match expect_name(ts, p + 1) {
            Err(e) => Err(e),
            Ok((q, part)) => if moved(ts, p, q) {
                import_tail(ts, q, module + seq!['.'] + part, part)
            } else {
                arbitrary()
            },
        }
    } else {
        Ok((p, (module, last)))
    }
}

/// The optional `as alias` at the end of an import; `module` is the
/// dotted module name and `last` its last part.
pub open spec fn import_alias(ts: Toks, p: int, m: Mark, module: Seq<char>, last: Seq<char>) -> Parsed<SpecImport> {
    if is_name(tok(ts, p), "as"@) {
        match expect_name(ts, p + 1) {
            Err(e) => Err(e),
            Ok((q, alias)) => Ok(
                (q, SpecImport { mark: m, module_name: module, alias, unique_name: Seq::empty() }),
            ),
        }
    } else {
        Ok((p, SpecImport { mark: m, module_name: module, alias: last, unique_name: Seq::empty() }))
    }
}

/// `import a.b.c` or `import a.b.c as d`; the alias defaults to the last part.
pub open spec fn import(ts: Toks, p: int) -> Parsed<SpecImport> {
    match expect(ts, p, SpecPat::Exact(SpecToken::Name("import"@))) {
        Err(e) => Err(e),
        Ok((p1, _)) => match expect_name(ts, p1) {
            Err(e) => Err(e),
            Ok((p2, name)) => match import_tail(ts, p2, name, name) {
                Err(e) => Err(e),
                Ok((p3, (module, last))) => import_alias(ts, p3, mark_at(ts, p), module, last),
            },
        },
    }
}

/// The parameter names of a function from `p` on, after those in `acc`; the
/// closing `)` included.
pub open spec fn params(ts: Toks, p: int, acc: Seq<Seq<char>>) -> Parsed<Seq<Seq<char>>>
    decreases ts.len() - p,
{
    if tok(ts, p) is RParen {
        Ok((p + 1, acc))
    } else {
        match expect_name(ts, p) {
            Err(e) => Err(e),
            Ok((q, name)) => if tok(ts, q) is Comma {
                if moved(ts, p, q + 1) {
                    params(ts, q + 1, acc.push(name))
                } else {
                    arbitrary()
                }
            } else {
                match expect(ts, q, SpecPat::Exact(SpecToken::RParen)) {
                    Err(e) => Err(e),
                    Ok((q2, _)) => Ok((q2, acc.push(name))),
                }
            },
        }
    }
}

/// The body of a function definition, after its parameter list.
pub open spec fn func_body(ts: Toks, p: int, m: Mark, name: Seq<char>, ps: Seq<Seq<char>>) -> Parsed<SpecFunc> {
    match block(ts, p) {
        Err(e) => Err(e),
        Ok((q, body)) => Ok((q, SpecFunc { mark: m, short_name: name, params: ps, body })),
    }
}

/// `fn name(params) body end`.
pub open spec fn func(ts: Toks, p: int) -> Parsed<SpecFunc> {
    match expect(ts, p, SpecPat::Exact(SpecToken::Name("fn"@))) {
        Err(e) => Err(e),
        Ok((p1, _)) => match expect_name(ts, p1) {
            Err(e) => Err(e),
            Ok((p2, name)) => match expect(ts, p2, SpecPat::Exact(SpecToken::LParen)) {
                Err(e) => Err(e),
                Ok((p3, _)) => match params(ts, p3, Seq::empty()) {
                    Err(e) => Err(e),
                    Ok((p4, ps)) => func_body(ts, p4, mark_at(ts, p), name, ps),
                },
            },
        },
    }
}

/// What a file holds so far: its imports, function definitions and
/// top-level statements.
pub type FileParts = (Seq<SpecImport>, Seq<SpecFunc>, Seq<SpecStmt>);

/// The items of a file from `p` on, after those in `acc`, up to `EOF`.
pub open spec fn file_items(ts: Toks, p: int, acc: FileParts) -> Parsed<FileParts>
    decreases ts.len() - p,
{
    if tok(ts, p) is EOF {
        Ok((p, acc))
    } else if is_name(tok(ts, p), "import"@) {
        match import(ts, p) {
            Err(e) => Err(e),
            Ok((q, imp)) => match delim(ts, q) {
                Err(e) => Err(e),
                Ok((q2, _)) => if moved(ts, p, q2) {
                    file_items(ts, q2, (acc.0.push(imp), acc.1, acc.2))
                } else {
                    arbitrary()
                },
            },
        }
    } else if is_name(tok(ts, p), "fn"@) {
        match func(ts, p) {
            Err(e) => Err(e),
            Ok((q, f)) => match delim(ts, q) {
                Err(e) => Err(e),
                Ok((q2, _)) => if moved(ts, p, q2) {
                    file_items(ts, q2, (acc.0, acc.1.push(f), acc.2))
                } else {
                    arbitrary()
                },
            },
        }
    } else {
        match labeled_stmt(ts, p) {
            Err(e) => Err(e),
            Ok((q, new)) => match delim(ts, q) {
                Err(e) => Err(e),
                Ok((q2, _)) => if moved(ts, p, q2) {
                    file_items(ts, q2, (acc.0, acc.1, acc.2 + new))
                } else {
                    arbitrary()
                },
            },
        }
    }
}

/// A whole source file: leading delimiters, then imports, function
/// definitions and statements, each followed by a delimiter, up to `EOF`,
/// where the parser stops. The top-level statements form a block marked with
/// the first token.
pub open spec fn file(ts: Toks) -> Parsed<SpecFile> {
    match file_items(ts, skip_delims(ts, 0), (Seq::empty(), Seq::empty(), Seq::empty())) {
        Err(e) => Err(e),
        Ok((q, (imports, funcs, stmts))) => Ok(
            (
                q,
                SpecFile {
                    imports,
                    funcs,
                    body: SpecStmt { mark: mark_at(ts, 0), desc: SpecStmtDesc::Block(stmts) },
                },
            ),
        ),
    }
}

/// The file, or the error, that parsing `ts` gives.
pub open spec fn file_result(ts: Toks) -> Result<SpecFile, SpecError> {
    match file(ts) {
        Ok((_, f)) => Ok(f),
        Err((_, e)) => Err(e),
    }
}

} // verus!
