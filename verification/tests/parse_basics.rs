use kb_parser::ast::{Binop, Expr, ExprDesc, File, FuncDisplay, Import, Stmt, StmtDesc, Unop};
use kb_parser::parse;
use kb_parser::token::{Mark, Token};

fn stream(toks: Vec<Token>) -> Vec<(Token, Mark)> {
    toks.into_iter()
        .enumerate()
        .map(|(i, t)| (t, Mark { offset: i }))
        .collect()
}

fn name(s: &str) -> Token {
    Token::Name(s.to_string())
}

fn m(offset: usize) -> Mark {
    Mark { offset }
}

fn ex(offset: usize, desc: ExprDesc) -> Expr {
    Expr { mark: m(offset), desc }
}

fn var(offset: usize, s: &str) -> Expr {
    ex(offset, ExprDesc::GetVar(s.to_string()))
}

fn num(offset: usize, x: u64) -> Expr {
    ex(offset, ExprDesc::Number(x))
}

fn bin(offset: usize, op: Binop, l: Expr, r: Expr) -> Expr {
    ex(offset, ExprDesc::Binop(op, Box::new(l), Box::new(r)))
}

fn st(offset: usize, desc: StmtDesc) -> Stmt {
    Stmt { mark: m(offset), desc }
}

fn block(offset: usize, stmts: Vec<Stmt>) -> Stmt {
    st(offset, StmtDesc::Block(stmts))
}

fn body_of(f: File) -> Vec<Stmt> {
    match f.body.desc {
        StmtDesc::Block(stmts) => stmts,
        other => panic!("top level is not a block: {:?}", other),
    }
}

#[test]
fn empty_file() {
    let f = parse(stream(vec![Token::EOF])).unwrap();
    assert_eq!(f, File { imports: vec![], funcs: vec![], body: block(0, vec![]) });
}

#[test]
fn leading_delimiters_are_skipped() {
    let f = parse(stream(vec![Token::Newline, Token::Semicolon, name("x"), Token::Newline, Token::EOF]))
        .unwrap();
    assert_eq!(f.body, block(0, vec![st(2, StmtDesc::Expr(var(2, "x")))]));
}

#[test]
fn multiplication_binds_tighter_than_addition() {
    // x = 1 + 2 * 3
    let toks = vec![
        name("x"),
        Token::Eq,
        Token::Number(1),
        Token::Plus,
        Token::Number(2),
        Token::Star,
        Token::Number(3),
        Token::EOF,
    ];
    let stmts = body_of(parse(stream(toks)).unwrap());
    let rhs = bin(3, Binop::Add, num(2, 1), bin(5, Binop::Multiply, num(4, 2), num(6, 3)));
    let expected = ex(1, ExprDesc::SetVar("x".to_string(), Box::new(rhs)));
    assert_eq!(stmts, vec![st(0, StmtDesc::Expr(expected))]);
}

#[test]
fn subtraction_is_left_associative() {
    // a - b - c
    let toks = vec![name("a"), Token::Minus, name("b"), Token::Minus, name("c"), Token::EOF];
    let stmts = body_of(parse(stream(toks)).unwrap());
    let expected = bin(3, Binop::Subtract, bin(1, Binop::Subtract, var(0, "a"), var(2, "b")), var(4, "c"));
    assert_eq!(stmts, vec![st(0, StmtDesc::Expr(expected))]);
}

#[test]
fn comparison_binds_looser_than_arithmetic() {
    // a < b + 1
    let toks = vec![name("a"), Token::LessThan, name("b"), Token::Plus, Token::Number(1), Token::EOF];
    let stmts = body_of(parse(stream(toks)).unwrap());
    let expected = bin(1, Binop::LessThan, var(0, "a"), bin(3, Binop::Add, var(2, "b"), num(4, 1)));
    assert_eq!(stmts, vec![st(0, StmtDesc::Expr(expected))]);
}

#[test]
fn every_binary_operator() {
    let ops = vec![
        (Token::Plus, Binop::Add),
        (Token::Minus, Binop::Subtract),
        (Token::Star, Binop::Multiply),
        (Token::Slash, Binop::Divide),
        (Token::Slash2, Binop::TruncDivide),
        (Token::Percent, Binop::Remainder),
        (Token::LessThan, Binop::LessThan),
        (Token::LessThanOrEqual, Binop::LessThanOrEqual),
        (Token::GreaterThan, Binop::GreaterThan),
        (Token::GreaterThanOrEqual, Binop::GreaterThanOrEqual),
    ];
    for (tok, op) in ops {
        let stmts = body_of(parse(stream(vec![name("a"), tok, name("b"), Token::EOF])).unwrap());
        assert_eq!(stmts, vec![st(0, StmtDesc::Expr(bin(1, op, var(0, "a"), var(2, "b"))))]);
    }
}

#[test]
fn unary_minus_binds_tighter_than_multiplication() {
    // -x * 2
    let toks = vec![Token::Minus, name("x"), Token::Star, Token::Number(2), Token::EOF];
    let stmts = body_of(parse(stream(toks)).unwrap());
    let neg = ex(0, ExprDesc::Unop(Unop::Negative, Box::new(var(1, "x"))));
    assert_eq!(stmts, vec![st(0, StmtDesc::Expr(bin(2, Binop::Multiply, neg, num(3, 2))))]);
}

#[test]
fn unary_plus_and_parentheses() {
    // +(a + b)
    let toks = vec![Token::Plus, Token::LParen, name("a"), Token::Plus, name("b"), Token::RParen, Token::EOF];
    let stmts = body_of(parse(stream(toks)).unwrap());
    let sum = bin(3, Binop::Add, var(2, "a"), var(4, "b"));
    let expected = ex(0, ExprDesc::Unop(Unop::Positive, Box::new(sum)));
    assert_eq!(stmts, vec![st(0, StmtDesc::Expr(expected))]);
}

#[test]
fn calls_and_attributes() {
    // f(1, x).y()
    let toks = vec![
        name("f"),
        Token::LParen,
        Token::Number(1),
        Token::Comma,
        name("x"),
        Token::RParen,
        Token::Dot,
        name("y"),
        Token::LParen,
        Token::RParen,
        Token::EOF,
    ];
    let stmts = body_of(parse(stream(toks)).unwrap());
    let call = ex(1, ExprDesc::CallFunc(Box::new(var(0, "f")), vec![num(2, 1), var(4, "x")]));
    let attr = ex(6, ExprDesc::GetAttr(Box::new(call), "y".to_string()));
    let outer = ex(8, ExprDesc::CallFunc(Box::new(attr), vec![]));
    assert_eq!(stmts, vec![st(0, StmtDesc::Expr(outer))]);
}

#[test]
fn literals_and_nil() {
    // PRINT "hi"; PRINT nil
    let toks = vec![
        name("PRINT"),
        Token::String("hi".to_string()),
        Token::Semicolon,
        name("PRINT"),
        name("nil"),
        Token::EOF,
    ];
    let stmts = body_of(parse(stream(toks)).unwrap());
    assert_eq!(
        stmts,
        vec![
            st(0, StmtDesc::Print(Box::new(ex(1, ExprDesc::String("hi".to_string()))))),
            st(3, StmtDesc::Print(Box::new(ex(4, ExprDesc::Nil)))),
        ]
    );
}

#[test]
fn var_declaration() {
    // var x = 5
    let toks = vec![name("var"), name("x"), Token::Eq, Token::Number(5), Token::EOF];
    let stmts = body_of(parse(stream(toks)).unwrap());
    assert_eq!(stmts, vec![st(0, StmtDesc::DeclVar("x".to_string(), num(3, 5)))]);
}

#[test]
fn goto_with_number_and_name() {
    // GOTO 120; GOTO top
    let toks = vec![
        name("GOTO"),
        Token::Number(120),
        Token::Newline,
        name("GOTO"),
        name("top"),
        Token::EOF,
    ];
    let stmts = body_of(parse(stream(toks)).unwrap());
    assert_eq!(
        stmts,
        vec![st(0, StmtDesc::Goto("120".to_string())), st(3, StmtDesc::Goto("top".to_string()))]
    );
}

#[test]
fn labels_in_front_of_statements() {
    // top:
    // 10 PRINT x
    let toks = vec![
        name("top"),
        Token::Colon,
        Token::Newline,
        Token::Number(10),
        name("PRINT"),
        name("x"),
        Token::EOF,
    ];
    let stmts = body_of(parse(stream(toks)).unwrap());
    assert_eq!(
        stmts,
        vec![
            st(0, StmtDesc::Label("top".to_string())),
            st(3, StmtDesc::Label("10".to_string())),
            st(4, StmtDesc::Print(Box::new(var(5, "x")))),
        ]
    );
}

#[test]
fn line_number_before_parenthesis() {
    // 20 (x)
    let toks = vec![Token::Number(20), Token::LParen, name("x"), Token::RParen, Token::EOF];
    let stmts = body_of(parse(stream(toks)).unwrap());
    assert_eq!(
        stmts,
        vec![st(0, StmtDesc::Label("20".to_string())), st(1, StmtDesc::Expr(var(2, "x")))]
    );
}

#[test]
fn a_lone_number_is_an_expression() {
    // 7
    let stmts = body_of(parse(stream(vec![Token::Number(7), Token::EOF])).unwrap());
    assert_eq!(stmts, vec![st(0, StmtDesc::Expr(num(0, 7)))]);
}

#[test]
fn if_elif_else() {
    // if a
    //   x
    // elif b
    //   y
    // else
    //   z
    // end
    let toks = vec![
        name("if"),
        name("a"),
        Token::Newline,
        name("x"),
        Token::Newline,
        name("elif"),
        name("b"),
        Token::Newline,
        name("y"),
        Token::Newline,
        name("else"),
        Token::Newline,
        name("z"),
        Token::Newline,
        name("end"),
        Token::EOF,
    ];
    let stmts = body_of(parse(stream(toks)).unwrap());
    let expected = st(
        0,
        StmtDesc::If(
            vec![
                (var(1, "a"), block(3, vec![st(3, StmtDesc::Expr(var(3, "x")))])),
                (var(6, "b"), block(8, vec![st(8, StmtDesc::Expr(var(8, "y")))])),
            ],
            Some(Box::new(block(12, vec![st(12, StmtDesc::Expr(var(12, "z")))]))),
        ),
    );
    assert_eq!(stmts, vec![expected]);
}

#[test]
fn if_without_else() {
    // if a; x; end
    let toks = vec![
        name("if"),
        name("a"),
        Token::Semicolon,
        name("x"),
        Token::Semicolon,
        name("end"),
        Token::EOF,
    ];
    let stmts = body_of(parse(stream(toks)).unwrap());
    let expected = st(
        0,
        StmtDesc::If(vec![(var(1, "a"), block(3, vec![st(3, StmtDesc::Expr(var(3, "x")))]))], None),
    );
    assert_eq!(stmts, vec![expected]);
}

#[test]
fn while_loop() {
    // while a; x = x - 1; end
    let toks = vec![
        name("while"),
        name("a"),
        Token::Semicolon,
        name("x"),
        Token::Eq,
        name("x"),
        Token::Minus,
        Token::Number(1),
        Token::Semicolon,
        name("end"),
        Token::EOF,
    ];
    let stmts = body_of(parse(stream(toks)).unwrap());
    let dec = bin(6, Binop::Subtract, var(5, "x"), num(7, 1));
    let set = ex(4, ExprDesc::SetVar("x".to_string(), Box::new(dec)));
    let expected = st(
        0,
        StmtDesc::While(var(1, "a"), Box::new(block(3, vec![st(3, StmtDesc::Expr(set))]))),
    );
    assert_eq!(stmts, vec![expected]);
}

#[test]
fn imports() {
    // import a.b.c
    // import d as e
    let toks = vec![
        name("import"),
        name("a"),
        Token::Dot,
        name("b"),
        Token::Dot,
        name("c"),
        Token::Newline,
        name("import"),
        name("d"),
        name("as"),
        name("e"),
        Token::EOF,
    ];
    let f = parse(stream(toks)).unwrap();
    assert_eq!(
        f.imports,
        vec![
            Import {
                mark: m(0),
                module_name: "a.b.c".to_string(),
                alias: "c".to_string(),
                unique_name: String::new(),
            },
            Import {
                mark: m(7),
                module_name: "d".to_string(),
                alias: "e".to_string(),
                unique_name: String::new(),
            },
        ]
    );
    assert_eq!(f.body, block(0, vec![]));
}

#[test]
fn function_definitions() {
    // fn f(a, b)
    //   a
    // end
    // fn g()
    // end
    let toks = vec![
        name("fn"),
        name("f"),
        Token::LParen,
        name("a"),
        Token::Comma,
        name("b"),
        Token::RParen,
        Token::Newline,
        name("a"),
        Token::Newline,
        name("end"),
        Token::Newline,
        name("fn"),
        name("g"),
        Token::LParen,
        Token::RParen,
        Token::Newline,
        name("end"),
        Token::EOF,
    ];
    let f = parse(stream(toks)).unwrap();
    assert_eq!(
        f.funcs,
        vec![
            FuncDisplay {
                mark: m(0),
                short_name: "f".to_string(),
                params: vec!["a".to_string(), "b".to_string()],
                body: block(7, vec![st(8, StmtDesc::Expr(var(8, "a")))]),
            },
            FuncDisplay {
                mark: m(12),
                short_name: "g".to_string(),
                params: vec![],
                body: block(16, vec![]),
            },
        ]
    );
}

#[test]
fn attribute_binds_tighter_than_unary_minus() {
    // -a.x
    let toks = vec![Token::Minus, name("a"), Token::Dot, name("x"), Token::EOF];
    let stmts = body_of(parse(stream(toks)).unwrap());
    let attr = ex(2, ExprDesc::GetAttr(Box::new(var(1, "a")), "x".to_string()));
    let expected = ex(0, ExprDesc::Unop(Unop::Negative, Box::new(attr)));
    assert_eq!(stmts, vec![st(0, StmtDesc::Expr(expected))]);
}

#[test]
fn equal_precedence_groups_left_and_stronger_groups_first() {
    // a * b + c  and  a + b * c
    let left = vec![name("a"), Token::Star, name("b"), Token::Plus, name("c"), Token::EOF];
    let stmts = body_of(parse(stream(left)).unwrap());
    let expected = bin(3, Binop::Add, bin(1, Binop::Multiply, var(0, "a"), var(2, "b")), var(4, "c"));
    assert_eq!(stmts, vec![st(0, StmtDesc::Expr(expected))]);
    let right = vec![name("a"), Token::Plus, name("b"), Token::Star, name("c"), Token::EOF];
    let stmts = body_of(parse(stream(right)).unwrap());
    let expected = bin(1, Binop::Add, var(0, "a"), bin(3, Binop::Multiply, var(2, "b"), var(4, "c")));
    assert_eq!(stmts, vec![st(0, StmtDesc::Expr(expected))]);
}
