use vstd::prelude::*;
use crate::token::Mark;

verus! {

/// Binary operators.
#[derive(Clone, Copy, Debug, PartialEq, Eq, Structural)]
pub enum Binop {
    Add,
    Subtract,
    Multiply,
    Divide,
    TruncDivide,
    Remainder,
    LessThan,
    LessThanOrEqual,
    GreaterThan,
    GreaterThanOrEqual,
}

/// Unary operators.
#[derive(Clone, Copy, Debug, PartialEq, Eq, Structural)]
pub enum Unop {
    Negative,
    Positive,
}

/// An expression with the mark of its first token.
#[derive(Debug, PartialEq, Eq)]
pub struct Expr {
    pub mark: Mark,
    pub desc: ExprDesc,
}

/// The kinds of expression.
#[derive(Debug, PartialEq, Eq)]
pub enum ExprDesc {
    Nil,
    Number(u64),
    String(String),
    GetVar(String),
    SetVar(String, Box<Expr>),
    GetAttr(Box<Expr>, String),
    CallFunc(Box<Expr>, Vec<Expr>),
    Binop(Binop, Box<Expr>, Box<Expr>),
    Unop(Unop, Box<Expr>),
}

/// The model of an expression.
pub struct SpecExpr {
    pub mark: Mark,
    pub desc: SpecExprDesc,
}

/// The model of the kinds of expression.
pub enum SpecExprDesc {
    Nil,
    Number(nat),
    String(Seq<char>),
    GetVar(Seq<char>),
    SetVar(Seq<char>, Box<SpecExpr>),
    GetAttr(Box<SpecExpr>, Seq<char>),
    CallFunc(Box<SpecExpr>, Seq<SpecExpr>),
    Binop(Binop, Box<SpecExpr>, Box<SpecExpr>),
    Unop(Unop, Box<SpecExpr>),
}

/// The model of an expression.
pub open spec fn expr_model(e: &Expr) -> SpecExpr
    decreases e, 0int,
{
    SpecExpr {
        mark: e.mark,
        desc: match &e.desc {
            ExprDesc::Nil => SpecExprDesc::Nil,
            ExprDesc::Number(x) => SpecExprDesc::Number(*x as nat),
            ExprDesc::String(s) => SpecExprDesc::String(s@),
            ExprDesc::GetVar(s) => SpecExprDesc::GetVar(s@),
            ExprDesc::SetVar(s, x) => SpecExprDesc::SetVar(s@, Box::new(expr_model(x))),
            ExprDesc::GetAttr(x, s) => SpecExprDesc::GetAttr(Box::new(expr_model(x)), s@),
            ExprDesc::CallFunc(f, args) => {
                proof {
                    assert(decreases_to!(args => args@));
                }
                SpecExprDesc::CallFunc(Box::new(expr_model(f)), exprs_model(args@, args@.len() as int))
            },
            ExprDesc::Binop(op, l, r) => SpecExprDesc::Binop(
                *op,
                Box::new(expr_model(l)),
                Box::new(expr_model(r)),
            ),
            ExprDesc::Unop(op, x) => SpecExprDesc::Unop(*op, Box::new(expr_model(x))),
        },
    }
}

/// The models of the first `k` expressions of `s`.
pub open spec fn exprs_model(s: Seq<Expr>, k: int) -> Seq<SpecExpr>
    decreases s, k,
{
    if k <= 0 || k > s.len() {
        Seq::empty()
    } else {
        proof {
            assert(decreases_to!(s => s[k - 1]));
        }
        exprs_model(s, k - 1).push(expr_model(&s[k - 1]))
    }
}

impl View for Expr {
    type V = SpecExpr;

    open spec fn view(&self) -> SpecExpr {
        expr_model(self)
    }
}

/// The models of a sequence of expressions, element by element.
pub proof fn lemma_exprs_model(s: Seq<Expr>, k: int)
    requires
        0 <= k <= s.len(),
    ensures
        exprs_model(s, k) == Seq::new(k as nat, |i: int| s[i]@),
    decreases k,
{
    if k > 0 {
        lemma_exprs_model(s, k - 1);
    }
    assert(exprs_model(s, k) =~= Seq::new(k as nat, |i: int| s[i]@));
}

impl DeepView for Expr {
    type V = SpecExpr;

    open spec fn deep_view(&self) -> SpecExpr {
        self.view()
    }
}

/// A statement with the mark of its first token.
#[derive(Debug, PartialEq, Eq)]
pub struct Stmt {
    pub mark: Mark,
    pub desc: StmtDesc,
}

/// The kinds of statement.
#[derive(Debug, PartialEq, Eq)]
pub enum StmtDesc {
    Block(Vec<Stmt>),
    Label(String),
    Goto(String),
    Print(Box<Expr>),
    DeclVar(String, Expr),
    If(Vec<(Expr, Stmt)>, Option<Box<Stmt>>),
    While(Expr, Box<Stmt>),
    Expr(Expr),
}

/// The model of a statement.
pub struct SpecStmt {
    pub mark: Mark,
    pub desc: SpecStmtDesc,
}

/// The model of the kinds of statement.
pub enum SpecStmtDesc {
    Block(Seq<SpecStmt>),
    Label(Seq<char>),
    Goto(Seq<char>),
    Print(SpecExpr),
    DeclVar(Seq<char>, SpecExpr),
    If(Seq<(SpecExpr, SpecStmt)>, Option<Box<SpecStmt>>),
    While(SpecExpr, Box<SpecStmt>),
    Expr(SpecExpr),
}

/// The model of a statement.
pub open spec fn stmt_model(st: &Stmt) -> SpecStmt
    decreases st, 0int,
{
    SpecStmt {
        mark: st.mark,
        desc: match &st.desc {
            StmtDesc::Block(stmts) => {
                proof {
                    assert(decreases_to!(stmts => stmts@));
                }
                SpecStmtDesc::Block(stmts_model(stmts@, stmts@.len() as int))
            },
            StmtDesc::Label(s) => SpecStmtDesc::Label(s@),
            StmtDesc::Goto(s) => SpecStmtDesc::Goto(s@),
            StmtDesc::Print(e) => SpecStmtDesc::Print((**e)@),
            StmtDesc::DeclVar(s, e) => SpecStmtDesc::DeclVar(s@, e@),
            StmtDesc::If(pairs, other) => {
                proof {
                    assert(decreases_to!(pairs => pairs@));
                }
                SpecStmtDesc::If(
                    pairs_model(pairs@, pairs@.len() as int),
                    match other {
                        Some(b) => Some(Box::new(stmt_model(b))),
                        None => None,
                    },
                )
            },
            StmtDesc::While(c, body) => SpecStmtDesc::While(c@, Box::new(stmt_model(body))),
            StmtDesc::Expr(e) => SpecStmtDesc::Expr(e@),
        },
    }
}

/// The models of the first `k` statements of `s`.
pub open spec fn stmts_model(s: Seq<Stmt>, k: int) -> Seq<SpecStmt>
    decreases s, k,
{
    if k <= 0 || k > s.len() {
        Seq::empty()
    } else {
        proof {
            assert(decreases_to!(s => s[k - 1]));
        }
        stmts_model(s, k - 1).push(stmt_model(&s[k - 1]))
    }
}

/// The models of the first `k` branches of an `if`.
pub open spec fn pairs_model(s: Seq<(Expr, Stmt)>, k: int) -> Seq<(SpecExpr, SpecStmt)>
    decreases s, k,
{
    if k <= 0 || k > s.len() {
        Seq::empty()
    } else {
        proof {
            assert(decreases_to!(s => s[k - 1]));
            assert(decreases_to!(s[k - 1] => s[k - 1].1));
        }
        pairs_model(s, k - 1).push((s[k - 1].0@, stmt_model(&s[k - 1].1)))
    }
}

impl View for Stmt {
    type V = SpecStmt;

    open spec fn view(&self) -> SpecStmt {
        stmt_model(self)
    }
}

/// The models of a sequence of statements, element by element.
pub proof fn lemma_stmts_model(s: Seq<Stmt>, k: int)
    requires
        0 <= k <= s.len(),
    ensures
        stmts_model(s, k) == Seq::new(k as nat, |i: int| s[i]@),
    decreases k,
{
    if k > 0 {
        lemma_stmts_model(s, k - 1);
    }
    assert(stmts_model(s, k) =~= Seq::new(k as nat, |i: int| s[i]@));
}

/// The models of the branches of an `if`, element by element.
pub proof fn lemma_pairs_model(s: Seq<(Expr, Stmt)>, k: int)
    requires
        0 <= k <= s.len(),
    ensures
        pairs_model(s, k) == Seq::new(k as nat, |i: int| (s[i].0@, s[i].1@)),
    decreases k,
{
    if k > 0 {
        lemma_pairs_model(s, k - 1);
    }
    assert(pairs_model(s, k) =~= Seq::new(k as nat, |i: int| (s[i].0@, s[i].1@)));
}

impl DeepView for Stmt {
    type V = SpecStmt;

    open spec fn deep_view(&self) -> SpecStmt {
        self.view()
    }
}

/// An `import` line: the dotted module name and the name it is bound to.
#[derive(Debug, PartialEq, Eq)]
pub struct Import {
    pub mark: Mark,
    pub module_name: String,
    pub alias: String,
    pub unique_name: String,
}

/// The model of an import.
pub struct SpecImport {
    pub mark: Mark,
    pub module_name: Seq<char>,
    pub alias: Seq<char>,
    pub unique_name: Seq<char>,
}

impl View for Import {
    type V = SpecImport;

    open spec fn view(&self) -> SpecImport {
        SpecImport {
            mark: self.mark,
            module_name: self.module_name@,
            alias: self.alias@,
            unique_name: self.unique_name@,
        }
    }
}

impl DeepView for Import {
    type V = SpecImport;

    open spec fn deep_view(&self) -> SpecImport {
        self.view()
    }
}

/// A function definition.
#[derive(Debug, PartialEq, Eq)]
pub struct FuncDisplay {
    pub mark: Mark,
    pub short_name: String,
    pub params: Vec<String>,
    pub body: Stmt,
}

/// The model of a function definition.
pub struct SpecFunc {
    pub mark: Mark,
    pub short_name: Seq<char>,
    pub params: Seq<Seq<char>>,
    pub body: SpecStmt,
}

impl View for FuncDisplay {
    type V = SpecFunc;

    open spec fn view(&self) -> SpecFunc {
        SpecFunc {
            mark: self.mark,
            short_name: self.short_name@,
            params: self.params.deep_view(),
            body: self.body@,
        }
    }
}

impl DeepView for FuncDisplay {
    type V = SpecFunc;

    open spec fn deep_view(&self) -> SpecFunc {
        self.view()
    }
}

/// A parsed source file.
#[derive(Debug, PartialEq, Eq)]
pub struct File {
    pub imports: Vec<Import>,
    pub funcs: Vec<FuncDisplay>,
    pub body: Stmt,
}

/// The model of a parsed source file.
pub struct SpecFile {
    pub imports: Seq<SpecImport>,
    pub funcs: Seq<SpecFunc>,
    pub body: SpecStmt,
}

impl View for File {
    type V = SpecFile;

    open spec fn view(&self) -> SpecFile {
        SpecFile { imports: self.imports.deep_view(), funcs: self.funcs.deep_view(), body: self.body@ }
    }
}

impl DeepView for File {
    type V = SpecFile;

    open spec fn deep_view(&self) -> SpecFile {
        self.view()
    }
}

} // verus!
