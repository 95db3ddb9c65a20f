//! The executable parser: a recursive-descent parser over a token vector,
//! each step proved to compute exactly what the grammar in `grammar` says.
use vstd::prelude::*;
use vstd::string::StringExecFns;
use crate::ast::{
    lemma_exprs_model, lemma_pairs_model, lemma_stmts_model, Binop, Expr, ExprDesc, File,
    FuncDisplay, Import, SpecExpr, SpecFile, SpecFunc, SpecImport, SpecStmt, SpecStmtDesc, Stmt,
    StmtDesc, Unop,
};
use crate::error::{BasicError, ErrorKind, SpecError};
use crate::grammar;
use crate::grammar::{
    at_delim, block_stmts, call_args, delim, expect, expect_label, expect_name, expr_rest, file_result,
    file_items, func_body, if_chain, import_alias, import_tail, is_name, label_stmt, labeled_stmt,
    mark_at, mk_stmt, name_label, number_label, precedence, skip_delims, starts_name_label,
    starts_number_label, tok, well_formed, FileParts, Parsed, Toks, ADD_PREC, CMP_PREC, MUL_PREC,
    POSTFIX_PREC, UNARY_PREC,
};
use crate::text::{decimal_string, is_keyword_name, name_is};
use crate::token::{pat_matches, Mark, Pat, SpecToken, Token};

verus! {

/// The model of a token vector.
pub open spec fn toks_view(v: Seq<(Token, Mark)>) -> Toks {
    v.map_values(|x: (Token, Mark)| (x.0@, x.1))
}

/// The model of what a parser step returned, with the position it stopped
/// at, on success and on failure alike.
pub open spec fn outcome<A: DeepView>(r: Result<A, BasicError>, i: usize) -> Parsed<A::V> {
    match r {
        Ok(v) => Ok((i as int, v.deep_view())),
        Err(e) => Err((i as int, e@)),
    }
}

struct Parser {
    toks: Vec<(Token, Mark)>,
    i: usize,
}

impl Parser {
    spec fn ts(&self) -> Toks {
        toks_view(self.toks@)
    }

    spec fn wf(&self) -> bool {
        &&& well_formed(self.ts())
        &&& self.i < self.toks@.len()
        &&& self.toks@.len() <= usize::MAX
    }

    /// `next` is `self` after a parser step: same tokens, position not moved back.
    spec fn stepped(&self, next: &Parser) -> bool {
        &&& next.wf()
        &&& next.toks@ == self.toks@
        &&& self.i <= next.i
    }

    fn peek(&self) -> (t: &Token)
        requires
            self.wf(),
        ensures
            t@ == tok(self.ts(), self.i as int),
    {
        &self.toks[self.i].0
    }

    fn lookahead(&self, n: usize) -> (t: Option<&Token>)
        requires
            self.wf(),
        ensures
            t is Some <==> self.i + n < self.toks@.len(),
            t matches Some(x) ==> x@ == tok(self.ts(), self.i + n),
    {
        if n < self.toks.len() - self.i {
            Some(&self.toks[self.i + n].0)
        } else {
            None
        }
    }

    fn mark(&self) -> (m: Mark)
        requires
            self.wf(),
        ensures
            m == mark_at(self.ts(), self.i as int),
    {
        self.toks[self.i].1
    }

    fn at(&self, p: &Pat) -> (b: bool)
        requires
            self.wf(),
        ensures
            b == pat_matches(p@, tok(self.ts(), self.i as int)),
    {
        p.matches(self.peek())
    }

    fn gettok(&mut self) -> (t: Token)
        requires
            old(self).wf(),
            !(tok(old(self).ts(), old(self).i as int) is EOF),
        ensures
            old(self).stepped(final(self)),
            final(self).i == old(self).i + 1,
            t@ == tok(old(self).ts(), old(self).i as int),
    {
        assert(self.ts().len() == self.toks@.len());
        self.i += 1;
        self.toks[self.i - 1].0.duplicate()
    }

    fn expect(&mut self, p: Pat) -> (r: Result<Token, BasicError>)
        requires
            old(self).wf(),
            !pat_matches(p@, SpecToken::EOF),
        ensures
            old(self).stepped(final(self)),
            outcome(r, final(self).i) == expect(old(self).ts(), old(self).i as int, p@),
    {
        if p.matches(self.peek()) {
            Ok(self.gettok())
        } else {
            let got = self.peek().duplicate();
            Err(BasicError { mark: self.mark(), kind: ErrorKind::Expected { expected: p, got } })
        }
    }

    fn expect_name(&mut self) -> (r: Result<String, BasicError>)
        requires
            old(self).wf(),
        ensures
            old(self).stepped(final(self)),
            outcome(r, final(self).i) == expect_name(old(self).ts(), old(self).i as int),
    {
        let mark = self.mark();
        let token = self.expect(Pat::Name)?;
        match token {
            Token::Name(name) => {
                if is_keyword_name(&name) {
                    Err(BasicError { mark, kind: ErrorKind::KeywordAsName })
                } else {
                    Ok(name)
                }
            },
            _ => {
                assert(false);
                Err(BasicError { mark, kind: ErrorKind::KeywordAsName })
            },
        }
    }

    fn expect_label(&mut self) -> (r: Result<String, BasicError>)
        requires
            old(self).wf(),
        ensures
            old(self).stepped(final(self)),
            outcome(r, final(self).i) == expect_label(old(self).ts(), old(self).i as int),
    {
        match self.peek() {
            Token::Number(x) => {
                let x = *x;
                self.gettok();
                Ok(decimal_string(x))
            },
            Token::Name(_) => {
                let name = self.expect_name()?;
                Ok(name)
            },
            _ => {
                let got = self.peek().duplicate();
                Err(BasicError { mark: self.mark(), kind: ErrorKind::ExpectedLabel { got } })
            },
        }
    }

    fn consume(&mut self, p: Pat) -> (b: bool)
        requires
            old(self).wf(),
            !pat_matches(p@, SpecToken::EOF),
        ensures
            old(self).stepped(final(self)),
            b == pat_matches(p@, tok(old(self).ts(), old(self).i as int)),
            final(self).i == if b {
                old(self).i + 1
            } else {
                old(self).i as int
            },
    {
        if self.at(&p) {
            self.gettok();
            true
        } else {
            false
        }
    }

    fn consume_delim(&mut self)
        requires
            old(self).wf(),
        ensures
            old(self).stepped(final(self)),
            final(self).i == skip_delims(old(self).ts(), old(self).i as int),
    {
        let ghost ts = self.ts();
        let ghost start = self.i as int;
        while self.at(&Pat::Exact(Token::Newline)) || self.at(&Pat::Exact(Token::Semicolon))
            invariant
                self.wf(),
                self.ts() == ts,
                self.toks@ == old(self).toks@,
                start <= self.i,
                skip_delims(ts, start) == skip_delims(ts, self.i as int),
            decreases self.toks@.len() - self.i,
        {
            self.gettok();
        }
    }

    fn at_delim(&self) -> (b: bool)
        requires
            self.wf(),
        ensures
            b == at_delim(tok(self.ts(), self.i as int)),
    {
        match self.peek() {
            Token::Name(n) => name_is(n, "end"),
            Token::EOF | Token::Semicolon | Token::Newline => true,
            _ => false,
        }
    }

    fn delim(&mut self) -> (r: Result<(), BasicError>)
        requires
            old(self).wf(),
        ensures
            old(self).stepped(final(self)),
            outcome(r, final(self).i) == delim(old(self).ts(), old(self).i as int),
    {
        if self.at_delim() {
            self.consume_delim();
            Ok(())
        } else {
            let got = self.peek().duplicate();
            Err(BasicError { mark: self.mark(), kind: ErrorKind::ExpectedDelimiter { got } })
        }
    }

    fn file(&mut self) -> (r: Result<File, BasicError>)
        requires
            old(self).wf(),
            old(self).i == 0,
        ensures
            old(self).stepped(final(self)),
            outcome(r, final(self).i) == grammar::file(old(self).ts()),
    {
        let ghost ts = self.ts();
        let mark = self.mark();
        let mut imports: Vec<Import> = Vec::new();
        let mut funcs: Vec<FuncDisplay> = Vec::new();
        let mut stmts: Vec<Stmt> = Vec::new();
        self.consume_delim();
        let ghost q0 = self.i as int;
        let ghost empty: FileParts = (Seq::empty(), Seq::empty(), Seq::empty());
        assert(imports.deep_view() =~= Seq::<SpecImport>::empty());
        assert(funcs.deep_view() =~= Seq::<SpecFunc>::empty());
        assert(stmts.deep_view() =~= Seq::<SpecStmt>::empty());
        while !self.at(&Pat::Exact(Token::EOF))
            invariant
                self.wf(),
                self.ts() == ts,
                self.toks@ == old(self).toks@,
                old(self).i == 0,
                q0 == skip_delims(ts, 0),
                mark == mark_at(ts, 0),
                empty == (
                    Seq::<SpecImport>::empty(),
                    Seq::<SpecFunc>::empty(),
                    Seq::<SpecStmt>::empty(),
                ),
                file_items(ts, q0, empty) == file_items(
                    ts,
                    self.i as int,
                    (imports.deep_view(), funcs.deep_view(), stmts.deep_view()),
                ),
            decreases self.toks@.len() - self.i,
        {
            if self.at_name("import") {
                let imp = self.import_()?;
                self.delim()?;
                let ghost before = imports.deep_view();
                let ghost imp_model = imp@;
                imports.push(imp);
                assert(imports.deep_view() =~= before.push(imp_model));
            } else if self.at_name("fn") {
                let f = self.func()?;
                self.delim()?;
                let ghost before = funcs.deep_view();
                let ghost f_model = f@;
                funcs.push(f);
                assert(funcs.deep_view() =~= before.push(f_model));
            } else {
                let mut new_stmts = self.maybe_labeled_stmt()?;
                self.delim()?;
                let ghost before = stmts.deep_view();
                let ghost added = new_stmts.deep_view();
                stmts.append(&mut new_stmts);
                assert(stmts.deep_view() =~= before + added);
            }
            assert(ts.len() == self.toks@.len());
        }
        proof {
            lemma_stmts_model(stmts@, stmts@.len() as int);
            assert(stmts.deep_view() =~= Seq::new(stmts@.len(), |i: int| stmts@[i]@));
        }
        Ok(File { imports, funcs, body: Stmt { mark, desc: StmtDesc::Block(stmts) } })
    }

    fn import_(&mut self) -> (r: Result<Import, BasicError>)
        requires
            old(self).wf(),
        ensures
            old(self).stepped(final(self)),
            outcome(r, final(self).i) == grammar::import(old(self).ts(), old(self).i as int),
            r is Ok ==> old(self).i < final(self).i,
    {
        let ghost ts = self.ts();
        let ghost start = self.i as int;
        let mark = self.mark();
        self.expect(Pat::Exact(Token::Name("import".to_owned())))?;
        let mut module_name = self.expect_name()?;
        let mut last_part = module_name.clone();
        let ghost p2 = self.i as int;
        let ghost name0 = module_name@;
        proof {
            reveal_strlit(".");
        }
        loop
            invariant_except_break
                self.wf(),
                self.ts() == ts,
                self.toks@ == old(self).toks@,
                start == old(self).i,
                start < self.i,
                grammar::import(ts, start) == match import_tail(ts, p2, name0, name0) {
                    Err(e) => Err(e),
                    Ok((q, (m, l))) => import_alias(ts, q, mark, m, l),
                },
                import_tail(ts, p2, name0, name0) == import_tail(
                    ts,
                    self.i as int,
                    module_name@,
                    last_part@,
                ),
                "."@ == seq!['.'],
            ensures
                self.wf(),
                self.ts() == ts,
                self.toks@ == old(self).toks@,
                start == old(self).i,
                start < self.i,
                grammar::import(ts, start) == match import_tail(ts, p2, name0, name0) {
                    Err(e) => Err(e),
                    Ok((q, (m, l))) => import_alias(ts, q, mark, m, l),
                },
                import_tail(ts, p2, name0, name0) == done(
                    self.i as int,
                    (module_name@, last_part@),
                ),
            decreases self.toks@.len() - self.i,
        {
            if !self.consume(Pat::Exact(Token::Dot)) {
                break ;
            }
            last_part = self.expect_name()?;
            module_name.append(".");
            module_name.append(last_part.as_str());
        }
        if self.consume(Pat::Exact(Token::Name("as".to_owned()))) {
            last_part = self.expect_name()?;
        }
        Ok(Import { mark, module_name, alias: last_part, unique_name: String::new() })
    }

    fn func(&mut self) -> (r: Result<FuncDisplay, BasicError>)
        requires
            old(self).wf(),
        ensures
            old(self).stepped(final(self)),
            outcome(r, final(self).i) == grammar::func(old(self).ts(), old(self).i as int),
            r is Ok ==> old(self).i < final(self).i,
    {
        let ghost ts = self.ts();
        let ghost start = self.i as int;
        let mark = self.mark();
        self.expect(Pat::Exact(Token::Name("fn".to_owned())))?;
        let name = self.expect_name()?;
        self.expect(Pat::Exact(Token::LParen))?;
        let ghost p3 = self.i as int;
        let mut params: Vec<String> = Vec::new();
        assert(params.deep_view() =~= Seq::<Seq<char>>::empty());
        loop
            invariant_except_break
                self.wf(),
                self.ts() == ts,
                self.toks@ == old(self).toks@,
                start == old(self).i,
                start < self.i,
                grammar::func(ts, start) == match grammar::params(ts, p3, Seq::empty()) {
                    Err(e) => Err(e),
                    Ok((q, ps)) => func_body(ts, q, mark, name@, ps),
                },
                grammar::params(ts, p3, Seq::empty()) == grammar::params(
                    ts,
                    self.i as int,
                    params.deep_view(),
                ),
            ensures
                self.wf(),
                self.ts() == ts,
                self.toks@ == old(self).toks@,
                start == old(self).i,
                start < self.i,
                grammar::func(ts, start) == match grammar::params(ts, p3, Seq::empty()) {
                    Err(e) => Err(e),
                    Ok((q, ps)) => func_body(ts, q, mark, name@, ps),
                },
                grammar::params(ts, p3, Seq::empty()) == done(self.i as int, params.deep_view()),
            decreases self.toks@.len() - self.i,
        {
            if self.consume(Pat::Exact(Token::RParen)) {
                break ;
            }
            let param = self.expect_name()?;
            let ghost before = params.deep_view();
            let ghost param_model = param@;
            params.push(param);
            assert(params.deep_view() =~= before.push(param_model));
            if !self.consume(Pat::Exact(Token::Comma)) {
                self.expect(Pat::Exact(Token::RParen))?;
                break ;
            }
            assert(ts.len() == self.toks@.len());
        }
        let body = self.block()?;
        Ok(FuncDisplay { mark, short_name: name, params, body })
    }

    /// Whether the next token is the name `word`.
    fn at_name(&self, word: &str) -> (b: bool)
        requires
            self.wf(),
        ensures
            b == is_name(tok(self.ts(), self.i as int), word@),
    {
        match self.peek() {
            Token::Name(n) => name_is(n, word),
            _ => false,
        }
    }

    /// Whether a `name:` label starts here.
    fn at_name_label(&self) -> (b: bool)
        requires
            self.wf(),
        ensures
            b == starts_name_label(self.ts(), self.i as int),
    {
        match self.peek() {
            Token::Name(name) => !is_keyword_name(name) && match self.lookahead(1) {
                Some(t) => matches!(t, Token::Colon),
                None => false,
            },
            _ => false,
        }
    }

    /// Whether a line-number label starts here.
    fn at_number_label(&self) -> (b: bool)
        requires
            self.wf(),
        ensures
            b == starts_number_label(self.ts(), self.i as int),
    {
        match self.peek() {
            Token::Number(_) => match self.lookahead(1) {
                Some(t) => matches!(t, Token::Name(_) | Token::LParen),
                None => false,
            },
            _ => false,
        }
    }

    fn block(&mut self) -> (r: Result<Stmt, BasicError>)
        requires
            old(self).wf(),
        ensures
            old(self).stepped(final(self)),
            outcome(r, final(self).i) == grammar::block(old(self).ts(), old(self).i as int),
        decreases old(self).toks@.len() - old(self).i, 6nat,
    {
        let block = self.block_body()?;
        self.expect(Pat::Exact(Token::Name("end".to_owned())))?;
        Ok(block)
    }

    fn block_body(&mut self) -> (r: Result<Stmt, BasicError>)
        requires
            old(self).wf(),
        ensures
            old(self).stepped(final(self)),
            outcome(r, final(self).i) == grammar::block_body(old(self).ts(), old(self).i as int),
        decreases old(self).toks@.len() - old(self).i, 5nat,
    {
        let ghost ts = self.ts();
        let ghost start = self.i as int;
        let mark = self.mark();
        let mut stmts: Vec<Stmt> = Vec::new();
        self.consume_delim();
        let ghost q0 = self.i as int;
        assert(stmts.deep_view() =~= Seq::<SpecStmt>::empty());
        while !self.at_name("end") && !self.at_name("elif") && !self.at_name("else")
            invariant
                self.wf(),
                self.ts() == ts,
                self.toks@ == old(self).toks@,
                start == old(self).i,
                start <= q0 <= self.i,
                q0 == skip_delims(ts, start),
                mark == mark_at(ts, start),
                block_stmts(ts, q0, Seq::empty()) == block_stmts(ts, self.i as int, stmts.deep_view()),
            decreases self.toks@.len() - self.i,
        {
            let mut new_stmts = self.maybe_labeled_stmt()?;
            self.delim()?;
            let ghost before = stmts.deep_view();
            let ghost added = new_stmts.deep_view();
            stmts.append(&mut new_stmts);
            assert(stmts.deep_view() =~= before + added);
        }
        proof {
            lemma_stmts_model(stmts@, stmts@.len() as int);
            assert(stmts.deep_view() =~= Seq::new(stmts@.len(), |i: int| stmts@[i]@));
        }
        Ok(Stmt { mark, desc: StmtDesc::Block(stmts) })
    }

    fn maybe_labeled_stmt(&mut self) -> (r: Result<Vec<Stmt>, BasicError>)
        requires
            old(self).wf(),
        ensures
            old(self).stepped(final(self)),
            outcome(r, final(self).i) == labeled_stmt(old(self).ts(), old(self).i as int),
            no_stall(old(self).ts(), old(self).i as int, final(self).i as int, r is Ok),
        decreases old(self).toks@.len() - old(self).i, 4nat,
    {
        let ghost ts = self.ts();
        let ghost start = self.i as int;
        let mut ret: Vec<Stmt> = Vec::new();
        if self.at_name_label() {
            let mark = self.mark();
            let label = self.expect_label()?;
            self.expect(Pat::Exact(Token::Colon))?;
            self.consume_delim();
            let ghost label_model = label@;
            ret.push(Stmt { mark, desc: StmtDesc::Label(label) });
            assert(ret.deep_view() =~= seq![label_stmt(mark, label_model)]);
        } else {
            assert(ret.deep_view() =~= Seq::<SpecStmt>::empty());
        }
        assert(name_label(ts, start) == done(self.i as int, ret.deep_view()));
        let ghost q = self.i as int;
        let ghost ret0 = ret.deep_view();
        if self.at_number_label() {
            let mark = self.mark();
            let label = self.expect_label()?;
            let ghost label_model = label@;
            ret.push(Stmt { mark, desc: StmtDesc::Label(label) });
            assert(ret.deep_view() =~= ret0.push(label_stmt(mark, label_model)));
        }
        assert(number_label(ts, q, ret0) == done(self.i as int, ret.deep_view()));
        let ghost ret1 = ret.deep_view();
        let s = self.stmt()?;
        ret.push(s);
        assert(ret.deep_view() =~= ret1.push(s@));
        Ok(ret)
    }

    fn stmt(&mut self) -> (r: Result<Stmt, BasicError>)
        requires
            old(self).wf(),
        ensures
            old(self).stepped(final(self)),
            outcome(r, final(self).i) == grammar::stmt(old(self).ts(), old(self).i as int),
            no_stall(old(self).ts(), old(self).i as int, final(self).i as int, r is Ok),
        decreases old(self).toks@.len() - old(self).i, 3nat,
    {
        let ghost ts = self.ts();
        let ghost start = self.i as int;
        let mark = self.mark();
        if self.at_name("PRINT") {
            self.gettok();
            let arg = self.expr(0)?;
            Ok(Stmt { mark, desc: StmtDesc::Print(Box::new(arg)) })
        } else if self.at_name("GOTO") {
            self.gettok();
            let label = self.expect_label()?;
            Ok(Stmt { mark, desc: StmtDesc::Goto(label) })
        } else if self.at_name("var") {
            self.gettok();
            let name = self.expect_name()?;
            self.expect(Pat::Exact(Token::Eq))?;
            let setexpr = self.expr(0)?;
            Ok(Stmt { mark, desc: StmtDesc::DeclVar(name, setexpr) })
        } else if self.at_name("if") {
            self.gettok();
            let mut pairs: Vec<(Expr, Stmt)> = Vec::new();
            let mut other: Option<Box<Stmt>> = None;
            assert(pairs.deep_view() =~= Seq::<(SpecExpr, SpecStmt)>::empty());
            assert(grammar::stmt(ts, start) == match if_chain(ts, start + 1, Seq::empty()) {
                Err(e) => Err(e),
                Ok((q, (ps, o))) => done(q, mk_stmt(mark, SpecStmtDesc::If(ps, o))),
            });
            loop
                invariant_except_break
                    self.wf(),
                    self.ts() == ts,
                    self.toks@ == old(self).toks@,
                    start == old(self).i,
                    start < self.i,
                    other is None,
                    grammar::stmt(ts, start) == match if_chain(ts, start + 1, Seq::empty()) {
                        Err(e) => Err(e),
                        Ok((q, (ps, o))) => done(q, mk_stmt(mark, SpecStmtDesc::If(ps, o))),
                    },
                    if_chain(ts, start + 1, Seq::empty()) == if_chain(
                        ts,
                        self.i as int,
                        pairs.deep_view(),
                    ),
                ensures
                    self.wf(),
                    self.ts() == ts,
                    self.toks@ == old(self).toks@,
                    start == old(self).i,
                    start < self.i,
                    if_chain(ts, start + 1, Seq::empty()) == done(
                        self.i as int,
                        (pairs.deep_view(), other_model(other)),
                    ),
                decreases self.toks@.len() - self.i,
            {
                let cond = self.expr(0)?;
                self.delim()?;
                let body = self.block_body()?;
                let ghost before = pairs.deep_view();
                let ghost pair_model = (cond@, body@);
                pairs.push((cond, body));
                assert(pairs.deep_view() =~= before.push(pair_model));
                if !self.consume(Pat::Exact(Token::Name("elif".to_owned()))) {
                    if self.consume(Pat::Exact(Token::Name("else".to_owned()))) {
                        self.delim()?;
                        other = Some(Box::new(self.block_body()?));
                    }
                    self.expect(Pat::Exact(Token::Name("end".to_owned())))?;
                    break ;
                }
                assert(ts.len() == self.toks@.len());
            }
            proof {
                lemma_pairs_model(pairs@, pairs@.len() as int);
                assert(pairs.deep_view() =~= Seq::new(
                    pairs@.len(),
                    |i: int| (pairs@[i].0@, pairs@[i].1@),
                ));
            }
            Ok(Stmt { mark, desc: StmtDesc::If(pairs, other) })
        } else if self.at_name("while") {
            self.gettok();
            let cond = self.expr(0)?;
            self.delim()?;
            let body = self.block()?;
            Ok(Stmt { mark, desc: StmtDesc::While(cond, Box::new(body)) })
        } else if self.at_name_label() {
            let label = self.expect_label()?;
            self.expect(Pat::Exact(Token::Colon))?;
            Ok(Stmt { mark, desc: StmtDesc::Label(label) })
        } else {
            let expr = self.expr(0)?;
            Ok(Stmt { mark, desc: StmtDesc::Expr(expr) })
        }
    }

    fn expr(&mut self, prec: i64) -> (r: Result<Expr, BasicError>)
        requires
            old(self).wf(),
            0 <= prec,
        ensures
            old(self).stepped(final(self)),
            outcome(r, final(self).i) == grammar::expr(old(self).ts(), old(self).i as int, prec as int),
            no_stall(old(self).ts(), old(self).i as int, final(self).i as int, r is Ok),
        decreases old(self).toks@.len() - old(self).i, 2nat,
    {
        let ghost ts = self.ts();
        let ghost start = self.i as int;
        let mut e = self.atom()?;
        while precof(self.peek()) >= prec
            invariant
                self.wf(),
                self.ts() == ts,
                self.toks@ == old(self).toks@,
                start == old(self).i,
                start <= self.i,
                0 <= prec,
                grammar::expr(ts, start, prec as int) == expr_rest(ts, self.i as int, prec as int, e@),
                no_stall(ts, start, self.i as int, true),
            decreases self.toks@.len() - self.i,
        {
            e = self.infix(e)?;
        }
        Ok(e)
    }

    fn infix(&mut self, e: Expr) -> (r: Result<Expr, BasicError>)
        requires
            old(self).wf(),
            precedence(tok(old(self).ts(), old(self).i as int)) >= 0,
        ensures
            old(self).stepped(final(self)),
            outcome(r, final(self).i) == grammar::infix(old(self).ts(), old(self).i as int, e@),
            r is Ok ==> old(self).i < final(self).i,
        decreases old(self).toks@.len() - old(self).i, 1nat,
    {
        let ghost ts = self.ts();
        let ghost start = self.i as int;
        let mark = self.mark();
        let token = self.gettok();
        match token {
            Token::Dot => {
                let attr = self.expect_name()?;
                Ok(Expr { mark, desc: ExprDesc::GetAttr(Box::new(e), attr) })
            },
            Token::LParen => {
                let mut args: Vec<Expr> = Vec::new();
                assert(args.deep_view() =~= Seq::<SpecExpr>::empty());
                loop
                    invariant_except_break
                        self.wf(),
                        self.ts() == ts,
                        self.toks@ == old(self).toks@,
                        start == old(self).i,
                        start < self.i,
                        tok(ts, start) is LParen,
                        call_args(ts, start + 1, Seq::empty()) == call_args(
                            ts,
                            self.i as int,
                            args.deep_view(),
                        ),
                    ensures
                        self.wf(),
                        self.ts() == ts,
                        self.toks@ == old(self).toks@,
                        start == old(self).i,
                        start < self.i,
                        tok(ts, start) is LParen,
                        call_args(ts, start + 1, Seq::empty()) == done(self.i as int, args.deep_view()),
                    decreases self.toks@.len() - self.i,
                {
                    if self.consume(Pat::Exact(Token::RParen)) {
                        break ;
                    }
                    let a = self.expr(0)?;
                    let ghost before = args.deep_view();
                    args.push(a);
                    assert(args.deep_view() =~= before.push(a@));
                    if !self.consume(Pat::Exact(Token::Comma)) {
                        self.expect(Pat::Exact(Token::RParen))?;
                        break ;
                    }
                    assert(ts.len() == self.toks@.len());
                }
                proof {
                    lemma_exprs_model(args@, args@.len() as int);
                    assert(args.deep_view() =~= Seq::new(args@.len(), |i: int| args@[i]@));
                }
                let call = Expr { mark, desc: ExprDesc::CallFunc(Box::new(e), args) };
                Ok(call)
            },
            Token::Eq => match e.desc {
                ExprDesc::GetVar(name) => {
                    let rhs = self.expr(0)?;
                    Ok(Expr { mark, desc: ExprDesc::SetVar(name, Box::new(rhs)) })
                },
                _ => Err(BasicError { mark: e.mark, kind: ErrorKind::NotAssignable }),
            },
            Token::Plus | Token::Minus | Token::Star | Token::Slash | Token::Slash2 | Token::Percent
            | Token::LessThan | Token::LessThanOrEqual | Token::GreaterThan
            | Token::GreaterThanOrEqual => {
                let op = match token {
                    Token::Plus => Binop::Add,
                    Token::Minus => Binop::Subtract,
                    Token::Star => Binop::Multiply,
                    Token::Slash => Binop::Divide,
                    Token::Slash2 => Binop::TruncDivide,
                    Token::Percent => Binop::Remainder,
                    Token::LessThan => Binop::LessThan,
                    Token::LessThanOrEqual => Binop::LessThanOrEqual,
                    Token::GreaterThan => Binop::GreaterThan,
                    _ => Binop::GreaterThanOrEqual,
                };
                let prec = precof(&token);
                let rhs = self.expr(prec + 1)?;
                Ok(Expr { mark, desc: ExprDesc::Binop(op, Box::new(e), Box::new(rhs)) })
            },
            _ => Err(BasicError { mark, kind: ErrorKind::ExpectedInfixOperator }),
        }
    }

    fn atom(&mut self) -> (r: Result<Expr, BasicError>)
        requires
            old(self).wf(),
        ensures
            old(self).stepped(final(self)),
            outcome(r, final(self).i) == grammar::atom(old(self).ts(), old(self).i as int),
            no_stall(old(self).ts(), old(self).i as int, final(self).i as int, r is Ok),
        decreases old(self).toks@.len() - old(self).i, 0nat,
    {
        let mark = self.mark();
        match self.peek() {
            Token::LParen => {
                self.gettok();
                let expr = self.expr(0)?;
                self.expect(Pat::Exact(Token::RParen))?;
                Ok(expr)
            },
            Token::Number(x) => {
                let x = *x;
                self.gettok();
                Ok(Expr { mark, desc: ExprDesc::Number(x) })
            },
            Token::String(s) => {
                let s = s.clone();
                self.gettok();
                Ok(Expr { mark, desc: ExprDesc::String(s) })
            },
            Token::RawString(s) => Ok(Expr { mark, desc: ExprDesc::String(s.clone()) }),
            Token::Minus => {
                self.gettok();
                let expr = self.expr(UNARY_PREC)?;
                Ok(Expr { mark, desc: ExprDesc::Unop(Unop::Negative, Box::new(expr)) })
            },
            Token::Plus => {
                self.gettok();
                let expr = self.expr(UNARY_PREC)?;
                Ok(Expr { mark, desc: ExprDesc::Unop(Unop::Positive, Box::new(expr)) })
            },
            Token::Name(name) => {
                if name_is(name, "nil") {
                    self.gettok();
                    Ok(Expr { mark, desc: ExprDesc::Nil })
                } else if !is_keyword_name(name) {
                    let name = self.expect_name()?;
                    Ok(Expr { mark, desc: ExprDesc::GetVar(name) })
                } else {
                    Err(
                        BasicError {
                            mark,
                            kind: ErrorKind::KeywordAsExpression { keyword: name.clone() },
                        },
                    )
                }
            },
            _ => {
                let got = self.peek().duplicate();
                Err(BasicError { mark, kind: ErrorKind::ExpectedExpression { got } })
            },
        }
    }
}

/// The model of the optional `else` block of an `if`.
spec fn other_model(o: Option<Box<Stmt>>) -> Option<Box<SpecStmt>> {
    match o {
        Some(b) => Some(Box::new((*b)@)),
        None => None,
    }
}

/// A successful parse ending at `p` with result `v`.
spec fn done<A>(p: int, v: A) -> Parsed<A> {
    Ok((p, v))
}

/// A parse step that succeeded without moving (`q == p`) stopped on a raw
/// string token, the one operand that is not consumed.
spec fn no_stall(ts: Toks, p: int, q: int, ok: bool) -> bool {
    ok ==> (q > p || (q == p && tok(ts, p) is RawString))
}

/// The binding strength of `tok` as an infix operator; -1 when it is none.
fn precof(tok: &Token) -> (p: i64)
    ensures
        p == precedence(tok@),
{
    match tok {
        Token::Name(n) => if name_is(n, "is") {
            CMP_PREC
        } else {
            -1
        },
        Token::Eq | Token::LessThan | Token::LessThanOrEqual | Token::GreaterThan
        | Token::GreaterThanOrEqual => CMP_PREC,
        Token::Minus | Token::Plus => ADD_PREC,
        Token::Star | Token::Slash | Token::Slash2 | Token::Percent => MUL_PREC,
        Token::LParen | Token::Dot => POSTFIX_PREC,
        _ => -1,
    }
}

/// Parses a source file from its tokens, as the lexer hands them over:
/// each token with its mark, the last one `EOF`.
pub fn parse(toks: Vec<(Token, Mark)>) -> (r: Result<File, BasicError>)
    requires
        well_formed(toks_view(toks@)),
    ensures
        match r {
            Ok(f) => file_result(toks_view(toks@)) == Ok::<SpecFile, SpecError>(f@),
            Err(e) => file_result(toks_view(toks@)) == Err::<SpecFile, SpecError>(e@),
        },
{
    // Every position the parser reaches is an index below this count.
    let count = toks.len();
    assert(toks@.len() == count);
    let mut parser = Parser { toks, i: 0 };
    parser.file()
}

} // verus!
