use arcaea::{parser, tokenize, try_tokenize, tokenize_spanned, Expr, Stmt, Token, TopLevel};

fn s(x: &str) -> String {
    x.to_string()
}

#[test]
fn lexes_keywords_names_and_literals() {
    let toks = tokenize("let x = 5; print(\"hi\") 1.5 Int Integer");
    assert_eq!(
        toks,
        vec![
            Token::Let,
            Token::Identifier(s("x")),
            Token::Assign,
            Token::Number(5),
            Token::Semicolon,
            Token::Print,
            Token::LParen,
            Token::StringLit(s("hi")),
            Token::RParen,
            Token::FloatLit(s("1.5")),
            Token::TypeInt,
            Token::Identifier(s("Integer")),
        ]
    );
}

#[test]
fn longest_match_takes_the_sign_into_numbers() {
    assert_eq!(
        tokenize("n-1 n - 1 -> -2.5"),
        vec![
            Token::Identifier(s("n")),
            Token::Number(-1),
            Token::Identifier(s("n")),
            Token::Sub,
            Token::Number(1),
            Token::RArrow,
            Token::FloatLit(s("-2.5")),
        ]
    );
}

#[test]
fn comments_whitespace_and_errors_are_skipped() {
    assert_eq!(
        tokenize("a // comment\n! b # 1. \"open"),
        vec![
            Token::Identifier(s("a")),
            Token::Identifier(s("b")),
            Token::Number(1),
        ]
    );
}

#[test]
fn two_character_operators() {
    assert_eq!(
        tokenize("== != <= >= < > = / *"),
        vec![
            Token::EqEq,
            Token::NotEq,
            Token::Le,
            Token::Ge,
            Token::Lt,
            Token::Gt,
            Token::Assign,
            Token::Div,
            Token::Mul,
        ]
    );
}

#[test]
fn number_overflow_is_reported() {
    assert!(try_tokenize("99999999999999999999").is_none());
    assert_eq!(try_tokenize("-9223372036854775808"), Some(vec![Token::Number(i64::MIN)]));
    assert!(try_tokenize("9223372036854775808").is_none());
}

#[test]
fn spans_are_byte_offsets() {
    let toks = tokenize_spanned("é x").unwrap();
    assert_eq!(toks.len(), 1);
    assert_eq!(toks[0].token, Token::Identifier(s("x")));
    assert_eq!((toks[0].start, toks[0].end), (3, 4));
}

#[test]
fn parses_functions_and_calls() {
    let src = "func factorial(n = Int) -> Int {\n if (n <= 1) { return 1; }\n return n * factorial(n - 1);\n}\nprint(factorial(5));";
    let toks = tokenize(src);
    let ast = parser().parse(&toks).unwrap();
    assert_eq!(ast.len(), 2);
    match &ast[0] {
        TopLevel::FuncDecl(f) => {
            assert_eq!(f.name, "factorial");
            assert_eq!(f.params.len(), 1);
            assert_eq!(f.ret_ty, "Int");
            assert_eq!(f.body.len(), 2);
        }
        _ => panic!("expected a function"),
    }
    match &ast[1] {
        TopLevel::Stmt(Stmt::Expr(Expr::Print(inner))) => match &**inner {
            Expr::Call(name, args) => {
                assert_eq!(name, "factorial");
                assert_eq!(args, &vec![Expr::Number(5)]);
            }
            _ => panic!("expected a call"),
        },
        _ => panic!("expected print"),
    }
}

#[test]
fn operators_fold_to_the_left_with_precedence() {
    let toks = tokenize("1 + 2 * 3 - 4 < 5");
    let ast = parser().parse(&toks).unwrap();
    let b = |l: Expr, op: &str, r: Expr| Expr::BinOp(Box::new(l), op.to_string(), Box::new(r));
    let expected = Expr::Compare(
        Box::new(b(b(Expr::Number(1), "+", b(Expr::Number(2), "*", Expr::Number(3))), "-", Expr::Number(4))),
        "<".to_string(),
        Box::new(Expr::Number(5)),
    );
    assert_eq!(ast, vec![TopLevel::Stmt(Stmt::Expr(expected))]);
}

#[test]
fn parse_error_position() {
    let toks = tokenize("let x = 1; x = 2;");
    let e = parser().parse(&toks).unwrap_err();
    assert_eq!(e.position, 6);
}

#[test]
fn display_text_of_plain_tokens_lexes_back() {
    let plain = vec![
        Token::Let, Token::Print, Token::Bridge, Token::Func, Token::Return, Token::Use, Token::System,
        Token::Package, Token::Service, Token::RArrow, Token::If, Token::Else, Token::While, Token::True,
        Token::False, Token::LBrace, Token::RBrace, Token::Comma, Token::Semicolon, Token::Assign,
        Token::LParen, Token::RParen, Token::Add, Token::Sub, Token::Mul, Token::Div, Token::EqEq,
        Token::NotEq, Token::Lt, Token::Gt, Token::Le, Token::Ge, Token::TypeInt, Token::TypeFloat,
        Token::TypeString,
    ];
    for t in plain {
        let text = t.to_display_string();
        assert_eq!(tokenize(&text), vec![t.duplicate()], "{}", text);
    }
    assert_eq!(Token::LBrace.to_display_string(), s("{"));
    assert_eq!(Token::Le.to_display_string(), s("<="));
    assert_eq!(Token::Identifier(s("x")).to_display_string(), s("identifier 'x'"));
    assert_eq!(Token::Number(5).to_display_string(), s("number 5"));
}
