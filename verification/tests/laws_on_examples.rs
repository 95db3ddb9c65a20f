use kb_parser::ast::{Expr, ExprDesc, File, Stmt, StmtDesc};
use kb_parser::parse;
use kb_parser::text::is_keyword_name;
use kb_parser::token::{Mark, Token};

fn stream(toks: Vec<Token>) -> Vec<(Token, Mark)> {
    toks.into_iter()
        .enumerate()
        .map(|(i, t)| (t, Mark { offset: i * 10 + 3 }))
        .collect()
}

fn name(s: &str) -> Token {
    Token::Name(s.to_string())
}

fn mark_ok(m: &Mark, len: usize) -> bool {
    m.offset % 10 == 3 && m.offset / 10 < len
}

fn check_name(s: &str) {
    assert!(!is_keyword_name(&s.to_string()), "reserved word {:?} used as a name", s);
}

fn check_expr(e: &Expr, len: usize) {
    assert!(mark_ok(&e.mark, len));
    match &e.desc {
        ExprDesc::GetVar(n) => check_name(n),
        ExprDesc::SetVar(n, x) => {
            check_name(n);
            check_expr(x, len);
        }
        ExprDesc::GetAttr(x, a) => {
            check_name(a);
            check_expr(x, len);
        }
        ExprDesc::CallFunc(f, args) => {
            check_expr(f, len);
            for a in args {
                check_expr(a, len);
            }
        }
        ExprDesc::Binop(_, l, r) => {
            check_expr(l, len);
            check_expr(r, len);
        }
        ExprDesc::Unop(_, x) => check_expr(x, len),
        ExprDesc::Nil | ExprDesc::Number(_) | ExprDesc::String(_) => {}
    }
}

fn check_stmt(s: &Stmt, len: usize) {
    assert!(mark_ok(&s.mark, len));
    match &s.desc {
        StmtDesc::Block(ss) => {
            for x in ss {
                check_stmt(x, len);
            }
        }
        StmtDesc::Label(l) | StmtDesc::Goto(l) => check_name(l),
        StmtDesc::Print(e) => check_expr(e, len),
        StmtDesc::Expr(e) => check_expr(e, len),
        StmtDesc::DeclVar(n, e) => {
            check_name(n);
            check_expr(e, len);
        }
        StmtDesc::If(pairs, other) => {
            for (c, b) in pairs {
                check_expr(c, len);
                check_stmt(b, len);
            }
            if let Some(b) = other {
                check_stmt(b, len);
            }
        }
        StmtDesc::While(c, b) => {
            check_expr(c, len);
            check_stmt(b, len);
        }
    }
}

fn check_file(f: &File, len: usize) {
    for i in &f.imports {
        assert!(mark_ok(&i.mark, len));
        check_name(&i.module_name);
        check_name(&i.alias);
    }
    for func in &f.funcs {
        assert!(mark_ok(&func.mark, len));
        check_name(&func.short_name);
        for p in &func.params {
            check_name(p);
        }
        check_stmt(&func.body, len);
    }
    check_stmt(&f.body, len);
}

#[test]
fn parsed_trees_use_no_reserved_word_as_a_name() {
    let programs = vec![
        vec![
            name("import"),
            name("a"),
            Token::Dot,
            name("b"),
            name("as"),
            name("c"),
            Token::Newline,
            name("fn"),
            name("f"),
            Token::LParen,
            name("x"),
            Token::RParen,
            Token::Newline,
            name("var"),
            name("y"),
            Token::Eq,
            name("x"),
            Token::Dot,
            name("z"),
            Token::Newline,
            name("end"),
            Token::Newline,
            Token::Number(10),
            name("PRINT"),
            name("f"),
            Token::LParen,
            Token::Number(2),
            Token::RParen,
            Token::Newline,
            name("top"),
            Token::Colon,
            name("GOTO"),
            Token::Number(10),
            Token::EOF,
        ],
        vec![
            name("while"),
            name("a"),
            Token::LessThan,
            Token::Minus,
            name("b"),
            Token::Newline,
            name("if"),
            name("nil"),
            Token::Semicolon,
            name("a"),
            Token::Eq,
            name("a"),
            Token::Plus,
            Token::Number(1),
            Token::Semicolon,
            name("else"),
            Token::Semicolon,
            name("GOTO"),
            name("out"),
            Token::Semicolon,
            name("end"),
            Token::Semicolon,
            name("end"),
            Token::EOF,
        ],
    ];
    for toks in programs {
        let len = toks.len();
        let f = parse(stream(toks)).unwrap();
        check_file(&f, len);
    }
}

#[test]
fn errors_point_into_the_input() {
    let programs = vec![
        vec![name("var"), name("end"), Token::EOF],
        vec![name("x"), Token::Eq, Token::EOF],
        vec![Token::Number(1), Token::Eq, Token::Number(2), Token::EOF],
        vec![name("fn"), name("f"), Token::LParen, name("a"), name("b"), Token::EOF],
        vec![name("import"), name("a"), Token::Dot, name("if"), Token::EOF],
        vec![name("if"), name("a"), Token::EOF],
    ];
    for toks in programs {
        let len = toks.len();
        let e = parse(stream(toks)).unwrap_err();
        assert!(mark_ok(&e.mark, len), "mark {:?} is not one of the {} input marks", e.mark, len);
    }
}
