use vector::lexer::{lex, Tok};
use vector::parser::{Decl, Expr, Op, ParseError, Parser, Program, Want};

fn parse(src: &str) -> Result<Program, ParseError> {
    let l = match lex(src) {
        Ok(l) => l,
        Err(e) => panic!("lex error {:?}", e),
    };
    let mut p = Parser { toks: l.toks, cols: l.cols, lines: l.lines, pos: 0 };
    let r = p.program();
    if r.is_ok() {
        assert_eq!(p.pos, p.toks.len());
    } else {
        assert_eq!(p.pos, 0);
    }
    r
}

fn num(t: &str) -> Expr {
    Expr::Num(t.to_string())
}

fn var(t: &str) -> Expr {
    Expr::Var(t.to_string())
}

fn bx(e: Expr) -> Box<Expr> {
    Box::new(e)
}

#[test]
fn precedence_and_bindings() {
    let p = parse("x = 1 + 2 * 3\nx").unwrap();
    assert!(p.fns.is_empty());
    assert_eq!(
        p.main,
        Expr::Let(
            "x".to_string(),
            bx(Expr::Bin(Op::Add, bx(num("1")), bx(Expr::Bin(Op::Mul, bx(num("2")), bx(num("3")))))),
            bx(var("x")),
        )
    );
    let p = parse("8 - 2 - 1 / 4 / 2").unwrap();
    assert_eq!(
        p.main,
        Expr::Bin(
            Op::Sub,
            bx(Expr::Bin(Op::Sub, bx(num("8")), bx(num("2")))),
            bx(Expr::Bin(Op::Div, bx(Expr::Bin(Op::Div, bx(num("1")), bx(num("4")))), bx(num("2")))),
        )
    );
}

#[test]
fn atoms_fields_and_comparisons() {
    let p = parse("--a.b.c <= [1, (2)]").unwrap();
    let field = Expr::Field(bx(Expr::Field(bx(var("a")), "b".to_string())), "c".to_string());
    assert_eq!(
        p.main,
        Expr::Cmp(
            "LE".to_string(),
            bx(Expr::Neg(bx(Expr::Neg(bx(field))))),
            bx(Expr::Arr(vec![num("1"), num("2")])),
        )
    );
    let p = parse("{a: 1, b: \"s\"}").unwrap();
    assert_eq!(
        p.main,
        Expr::RecordLit(vec![("a".to_string(), num("1")), ("b".to_string(), Expr::Str("s".to_string()))])
    );
    let p = parse("f() > g(1, x)").unwrap();
    assert_eq!(
        p.main,
        Expr::Cmp(
            "GT".to_string(),
            bx(Expr::Call("f".to_string(), vec![])),
            bx(Expr::Call("g".to_string(), vec![num("1"), var("x")])),
        )
    );
    assert_eq!(parse("[]").unwrap().main, Expr::Arr(vec![]));
}

#[test]
fn functions_and_top_level_joined() {
    let p = parse("fn f(a, b):\n    a + b\nf(1, 2)").unwrap();
    assert_eq!(p.fns.len(), 1);
    assert_eq!(p.fns[0].0, "f");
    assert_eq!(
        p.fns[0].1,
        Decl {
            params: vec!["a".to_string(), "b".to_string()],
            body: Expr::Bin(Op::Add, bx(var("a")), bx(var("b"))),
        }
    );
    assert_eq!(p.main, Expr::Call("f".to_string(), vec![num("1"), num("2")]));

    let p = parse("x = 1\nx\nfn g(a):\n  a\nx + 1").unwrap();
    assert_eq!(p.fns.len(), 1);
    assert_eq!(
        p.main,
        Expr::Let(
            "x".to_string(),
            bx(num("1")),
            bx(Expr::Then(bx(var("x")), bx(Expr::Bin(Op::Add, bx(var("x")), bx(num("1")))))),
        )
    );
}

#[test]
fn loops_parse() {
    let p = parse("for i in 0..3:\n    y = i\n    y\nz").unwrap();
    assert_eq!(
        p.main,
        Expr::For(
            "i".to_string(),
            0,
            3,
            vec![(Some("y".to_string()), var("i")), (None, var("y"))],
            bx(var("z")),
        )
    );
    let p = parse("for k in 2.0..5.00:\n  k\n1").unwrap();
    match p.main {
        Expr::For(_, a, b, _, _) => assert_eq!((a, b), (2, 5)),
        other => panic!("not a loop: {:?}", other),
    }
}

#[test]
fn parse_errors() {
    assert_eq!(parse("").unwrap_err(), ParseError::NoExpressions);
    assert_eq!(parse("fn f():\n  1\n1").unwrap_err(), ParseError::NoParameters("f".to_string()));
    assert_eq!(parse("x = 1").unwrap_err(), ParseError::BindingWithoutBody("x".to_string()));
    assert_eq!(
        parse("fn f(a):\n a\nfn f(b):\n b\n1").unwrap_err(),
        ParseError::DuplicateFunction("f".to_string())
    );
    assert_eq!(parse("{}").unwrap_err(), ParseError::EmptyRecord);
    assert_eq!(parse("{a: 1, a: 2}").unwrap_err(), ParseError::DuplicateField("a".to_string()));
    assert_eq!(
        parse("for i in 0.5..2:\n  i\n1").unwrap_err(),
        ParseError::NotInteger(Want::RangeStart, Some(Tok::Num("0.5".to_string())))
    );
    assert_eq!(parse("for i in 0..2:\ni\n1").unwrap_err(), ParseError::ForBodyNotIndented);
    assert_eq!(parse("for i in 0..2:\n  i").unwrap_err(), ParseError::ForWithoutBody);
    assert_eq!(parse("(1").unwrap_err(), ParseError::Expected(Want::RParen, None));
    assert_eq!(parse(")").unwrap_err(), ParseError::UnexpectedToken(Some(Tok::RParen)));
    assert_eq!(
        parse("a.1").unwrap_err(),
        ParseError::Expected(Want::FieldNameAfterDot, Some(Tok::Num("1".to_string())))
    );
    assert_eq!(
        parse("fn (a):\n a\n1").unwrap_err(),
        ParseError::Expected(Want::FunctionName, Some(Tok::LParen))
    );
}

#[test]
fn position_past_end_gives_no_expressions() {
    let l = lex("1").unwrap();
    let mut p = Parser { toks: l.toks, cols: l.cols, lines: l.lines, pos: 5 };
    assert_eq!(p.program().unwrap_err(), ParseError::NoExpressions);
    assert_eq!(p.pos, 5);
}

#[test]
fn equality_comparisons_lex_and_parse() {
    let l = lex("print(where([1.0, 2.0] != [1.0, 3.0], 1.0, 0.0))\n").unwrap();
    assert!(l.toks.contains(&Tok::Ne));
    let p = parse("print(where([1.0, 2.0] != [1.0, 3.0], 1.0, 0.0))\n").unwrap();
    let cmp = Expr::Cmp(
        "NE".to_string(),
        bx(Expr::Arr(vec![num("1.0"), num("2.0")])),
        bx(Expr::Arr(vec![num("1.0"), num("3.0")])),
    );
    assert_eq!(
        p.main,
        Expr::Call("print".to_string(), vec![Expr::Call("where".to_string(), vec![cmp, num("1.0"), num("0.0")])])
    );
    let p = parse("a == b").unwrap();
    assert_eq!(p.main, Expr::Cmp("EQ".to_string(), bx(var("a")), bx(var("b"))));
    let l = lex("x = 1\n").unwrap();
    assert!(l.toks.contains(&Tok::Eq));
    assert!(lex("a ! b").is_err());
}

#[test]
fn numbers_with_two_points_are_refused() {
    match lex("1.2.3") {
        Err(e) => assert_eq!(e, vector::lexer::LexError::MalformedNumber),
        Ok(_) => panic!("accepted"),
    }
    assert!(lex("1.25 + 2.").is_ok());
}

#[test]
fn token_lines_count_line_ends_and_columns_start_at_one() {
    let l = lex("a\n  b c # note\n\n\td").unwrap();
    assert_eq!(l.toks.len(), 4);
    assert_eq!(l.lines, vec![1, 2, 2, 4]);
    assert_eq!(l.cols, vec![1, 3, 5, 2]);
}
