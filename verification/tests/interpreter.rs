use arcaea::{
    parser, tokenize, ConfigItem, Environment, EvalError, ExecutionResult, Expr, FloatHost, ReportPiece, RunEvent,
    Stmt, SystemUnit, TopLevel, Value,
};

/// Doubles as the machine computes them.
struct Doubles;

impl FloatHost for Doubles {
    fn parse_float(&self, text: &String) -> u64 {
        text.parse::<f64>().unwrap().to_bits()
    }

    fn float_arith(&self, lhs: u64, op: &String, rhs: u64) -> u64 {
        let a = f64::from_bits(lhs);
        let b = f64::from_bits(rhs);
        let r = match op.as_str() {
            "+" => a + b,
            "-" => a - b,
            "*" => a * b,
            _ => a / b,
        };
        r.to_bits()
    }

    fn format_float(&self, bits: u64) -> String {
        format!("{}", f64::from_bits(bits))
    }
}

fn s(x: &str) -> String {
    x.to_string()
}

fn program(src: &str) -> Vec<TopLevel> {
    parser().parse(&tokenize(src)).unwrap()
}

fn run(src: &str) -> (Environment, Vec<RunEvent>) {
    let mut env = Environment::new();
    let events = env.run_program(&program(src), &Doubles);
    (env, events)
}

fn outputs(events: &[RunEvent]) -> Vec<String> {
    events
        .iter()
        .filter_map(|e| match e {
            RunEvent::Output(v) => Some(v.to_display_string(&Doubles)),
            _ => None,
        })
        .collect()
}

#[test]
fn factorial_prints_120() {
    let (_, events) = run(
        "func factorial(n = Int) -> Int {
            if (n <= 1) { return 1; }
            return n * factorial(n - 1);
        }
        print(\"Factorial of 5 is:\");
        print(factorial(5));",
    );
    assert_eq!(outputs(&events), vec![s("Factorial of 5 is:"), s("120")]);
    assert_eq!(events.len(), 2);
}

#[test]
fn let_binds_and_assignment_updates() {
    let (env, events) = run("let x = 2; let x = x * 21; if (true) { x = x + 0; } print(x);");
    assert_eq!(outputs(&events), vec![s("42")]);
    assert_eq!(env.variables.get(&s("x")), Some(&Value::Number(42)));
}

#[test]
fn while_loop_counts_and_yields_false() {
    let mut env = Environment::new();
    let prog = program("let i = 0; while (i < 3) { print(i); i = i + 1; }");
    let events = env.run_program(&prog, &Doubles);
    assert_eq!(outputs(&events), vec![s("0"), s("1"), s("2")]);
    let stmt = Stmt::While(
        Box::new(Expr::Compare(Box::new(Expr::Identifier(s("i"))), s("<"), Box::new(Expr::Number(0)))),
        vec![],
    );
    assert_eq!(env.eval_stmt(&stmt, &Doubles), Ok(ExecutionResult::Value(Value::Bool(false))));
}

#[test]
fn if_yields_the_condition_or_the_return() {
    let mut env = Environment::new();
    let yes = Stmt::If(Box::new(Expr::Bool(true)), vec![], vec![]);
    assert_eq!(env.eval_stmt(&yes, &Doubles), Ok(ExecutionResult::Value(Value::Bool(true))));
    let ret = Stmt::If(
        Box::new(Expr::Bool(false)),
        vec![],
        vec![Stmt::Return(Box::new(Expr::Number(7)))],
    );
    assert_eq!(env.eval_stmt(&ret, &Doubles), Ok(ExecutionResult::Return(Value::Number(7))));
    let bad = Stmt::If(Box::new(Expr::Number(1)), vec![], vec![]);
    assert_eq!(env.eval_stmt(&bad, &Doubles), Err(s("Condition must be bool")));
}

#[test]
fn runtime_errors_have_the_interpreter_messages() {
    let mut env = Environment::new();
    assert_eq!(env.eval_expr(&Expr::Identifier(s("nope")), &Doubles), Err(s("Undefined: nope")));
    assert_eq!(
        env.eval_expr(&Expr::Call(s("sqrt"), vec![]), &Doubles),
        Err(s("Bridge function 'sqrt' not supported in interpreter."))
    );
    let mismatch = Expr::BinOp(Box::new(Expr::Number(1)), s("+"), Box::new(Expr::StringLit(s("a"))));
    assert_eq!(env.eval_expr(&mismatch, &Doubles), Err(s("Type mismatch")));
    let unknown = Expr::BinOp(Box::new(Expr::Number(1)), s("%"), Box::new(Expr::Number(2)));
    assert_eq!(env.eval_expr(&unknown, &Doubles), Err(s("Unknown op")));
    let cmp = Expr::Compare(Box::new(Expr::Bool(true)), s("=="), Box::new(Expr::Number(2)));
    assert_eq!(env.eval_expr(&cmp, &Doubles), Err(s("Type mismatch")));
}

#[test]
fn arity_mismatch_is_reported() {
    let (_, events) = run("func f(a = Int, b = Int) -> Int { return a + b; } f(1);");
    assert_eq!(events, vec![RunEvent::RuntimeError(s("Function 'f' expects 2 args, got 1"))]);
}

#[test]
fn failed_statement_does_not_stop_the_run() {
    let (_, events) = run("print(y); let z = q; print(3);");
    assert_eq!(
        events,
        vec![
            RunEvent::RuntimeError(s("Undefined: y")),
            RunEvent::LetError(s("z"), s("Undefined: q")),
            RunEvent::Output(Value::Number(3)),
        ]
    );
}

#[test]
fn division_truncates_and_division_by_zero_aborts() {
    let mut env = Environment::new();
    let div = Expr::BinOp(Box::new(Expr::Number(-7)), s("/"), Box::new(Expr::Number(2)));
    assert_eq!(env.eval_expr(&div, &Doubles), Ok(Value::Number(-3)));
    let zero = Expr::BinOp(Box::new(Expr::Number(1)), s("/"), Box::new(Expr::Number(0)));
    assert_eq!(env.try_eval_expr(&zero, &Doubles), Err(EvalError::DivisionFault));
    let (_, events) = run("print(1); print(5 / 0); print(2);");
    assert_eq!(events, vec![RunEvent::Output(Value::Number(1)), RunEvent::DivisionFault]);
}

#[test]
fn integer_arithmetic_wraps() {
    let mut env = Environment::new();
    let e = Expr::BinOp(Box::new(Expr::Number(i64::MAX)), s("+"), Box::new(Expr::Number(1)));
    assert_eq!(env.eval_expr(&e, &Doubles), Ok(Value::Number(i64::MIN)));
    let overflow = Expr::BinOp(Box::new(Expr::Number(i64::MIN)), s("/"), Box::new(Expr::Number(-1)));
    assert_eq!(env.try_eval_expr(&overflow, &Doubles), Err(EvalError::DivisionFault));
}

#[test]
fn floats_go_through_the_host() {
    let (_, events) = run("print(1.5 + 2.25); print(-0.5 * 4.0);");
    assert_eq!(outputs(&events), vec![s("3.75"), s("-2")]);
}

#[test]
fn function_locals_do_not_leak_and_globals_are_visible() {
    let (env, events) = run(
        "let g = 10;
        func f(a = Int) -> Int { local = a + g; return local; }
        print(f(5));",
    );
    assert_eq!(outputs(&events), vec![s("15")]);
    assert_eq!(env.variables.get(&s("local")), None);
    assert_eq!(env.variables.get(&s("a")), None);
}

#[test]
fn function_without_return_gives_zero() {
    let (_, events) = run("func f() -> Int { 1; } print(f());");
    assert_eq!(outputs(&events), vec![s("0")]);
}

#[test]
fn later_function_declaration_wins() {
    let (_, events) = run("func f() -> Int { return 1; } func f() -> Int { return 2; } print(f());");
    assert_eq!(outputs(&events), vec![s("2")]);
}

#[test]
fn print_appends_to_output_and_yields_value() {
    let mut env = Environment::new();
    let e = Expr::Print(Box::new(Expr::StringLit(s("hi"))));
    assert_eq!(env.eval_expr(&e, &Doubles), Ok(Value::String(s("hi"))));
    assert_eq!(env.output, vec![Value::String(s("hi"))]);
}

#[test]
fn assignment_then_read_gives_the_value() {
    let mut env = Environment::new();
    let a = Expr::Assign(s("v"), Box::new(Expr::Number(9)));
    assert_eq!(env.eval_expr(&a, &Doubles), Ok(Value::Number(9)));
    assert_eq!(env.eval_expr(&Expr::Identifier(s("v")), &Doubles), Ok(Value::Number(9)));
}

#[test]
fn output_only_grows() {
    let mut env = Environment::new();
    env.eval_expr(&Expr::Print(Box::new(Expr::Number(1))), &Doubles).unwrap();
    let before = env.output.clone();
    let _ = env.eval_expr(&Expr::Identifier(s("missing")), &Doubles);
    env.eval_expr(&Expr::Print(Box::new(Expr::Number(2))), &Doubles).unwrap();
    assert_eq!(&env.output[..before.len()], &before[..]);
    assert_eq!(env.output.len(), 2);
}

#[test]
fn system_declaration_is_reported() {
    let (_, events) = run("system { package \"nginx\" { state = \"enabled\"; port = 8080; } service \"db\" { } }");
    assert_eq!(
        events,
        vec![RunEvent::SystemReport(vec![
            vec![ReportPiece::Text(s("\n[A.R.C.A.E.A. SYSTEM] 正在解析声明式配置..."))],
            vec![ReportPiece::Text(s("\n  [PACKAGE] nginx"))],
            vec![ReportPiece::Text(s("    ├─ state = ")), ReportPiece::Text(s("StringLit(\"enabled\")"))],
            vec![ReportPiece::Text(s("    ├─ port = ")), ReportPiece::Text(s("Number(8080)"))],
            vec![ReportPiece::Text(s("\n  [SERVICE] db"))],
            vec![ReportPiece::Text(s("\n[A.R.C.A.E.A. SYSTEM] 配置解析完成。\n"))],
        ])]
    );
}

/// A report line as the command-line program prints it: a float literal as
/// `{:?}` writes its double.
fn render(line: &[ReportPiece]) -> String {
    line.iter()
        .map(|p| match p {
            ReportPiece::Text(t) => t.clone(),
            ReportPiece::Float(t) => format!("{:?}", t.parse::<f64>().unwrap()),
        })
        .collect()
}

#[test]
fn system_report_writes_float_literals_as_their_doubles() {
    let (_, events) = run("system { package \"p\" { ratio = 2.50; scale = 10.0; } }");
    match &events[0] {
        RunEvent::SystemReport(lines) => {
            assert_eq!(lines[2][2], ReportPiece::Float(s("2.50")));
            assert_eq!(render(&lines[2]), s("    ├─ ratio = FloatLit(2.5)"));
            assert_eq!(render(&lines[3]), s("    ├─ scale = FloatLit(10.0)"));
        }
        other => panic!("unexpected event {:?}", other),
    }
}

#[test]
fn system_report_writes_nested_expressions_like_debug() {
    let env = Environment::new();
    let units = vec![SystemUnit::Package {
        name: s("p"),
        config: vec![ConfigItem {
            key: s("k"),
            value: Expr::Call(
                s("f"),
                vec![Expr::Bool(true), Expr::BinOp(Box::new(Expr::Number(1)), s("+"), Box::new(Expr::Identifier(s("x"))))],
            ),
        }],
    }];
    let quoted = vec![SystemUnit::Service {
        name: s("q"),
        config: vec![ConfigItem { key: s("path"), value: Expr::StringLit(s("a\\b \"c\"")) }],
    }];
    assert_eq!(render(&env.eval_system_decl(&quoted)[2]), s("    ├─ path = StringLit(\"a\\\\b \\\"c\\\"\")"));
    let lines = env.eval_system_decl(&units);
    assert_eq!(
        render(&lines[2]),
        s("    ├─ k = Call(\"f\", [Bool(true), BinOp(Number(1), \"+\", Identifier(\"x\"))])")
    );
}

#[test]
fn values_display_as_print_shows_them() {
    assert_eq!(Value::Number(-5).to_display_string(&Doubles), s("-5"));
    assert_eq!(Value::Bool(false).to_display_string(&Doubles), s("false"));
    assert_eq!(Value::String(s("a b")).to_display_string(&Doubles), s("a b"));
    assert_eq!(Value::Float(2.5f64.to_bits()).to_display_string(&Doubles), s("2.5"));
}

#[test]
fn function_declarations_copy_deeply() {
    let prog = program("func f(a = Int) -> Int { while (a < 3) { a = a + 1; } return a; }");
    match &prog[0] {
        TopLevel::FuncDecl(f) => assert_eq!(&f.duplicate(), f),
        _ => panic!("expected a function"),
    }
}
