use arcaea::{
    compile_to_llvm_ir, compose_message, document_diagnostics, generation_id, offset_to_position, package_plans, parser,
    tokenize, BuildKind, Expr, LoadAction, ModuleLoader, PackagePlan, Position, ReportPiece, Stmt, TopLevel, program_debug_text,
};

fn s(x: &str) -> String {
    x.to_string()
}

fn top(e: Expr) -> TopLevel {
    TopLevel::Stmt(Stmt::Expr(e))
}

fn program_items(src: &str) -> Vec<TopLevel> {
    let tokens = tokenize(src);
    parser().parse(&tokens).unwrap()
}

#[test]
fn llvm_ir_prints_integers_and_interned_strings() {
    let ast = vec![
        top(Expr::Print(Box::new(Expr::Number(42)))),
        top(Expr::Print(Box::new(Expr::StringLit(s("héllo"))))),
        top(Expr::Number(7)),
        top(Expr::Print(Box::new(Expr::StringLit(s("héllo"))))),
        top(Expr::Print(Box::new(Expr::Identifier(s("x"))))),
    ];
    let ir = compile_to_llvm_ir(&ast);
    let expected = [
        "declare i32 @printf(i8*, ...)\n\n",
        "@.fmt_int = private unnamed_addr constant [4 x i8] c\"%d\\0A\\00\"\n",
        "@.fmt_str = private unnamed_addr constant [4 x i8] c\"%s\\0A\\00\"\n",
        "@.str_0 = private unnamed_addr constant [7 x i8] c\"héllo\\00\"\n",
        "\n",
        "define i32 @main() {\n",
        "entry:\n",
        "  %fmt_int_ptr_0 = getelementptr inbounds [4 x i8], [4 x i8]* @.fmt_int, i64 0, i64 0\n",
        "  call i32 (i8*, ...) @printf(i8* %fmt_int_ptr_0, i32 42)\n",
        "  %fmt_str_ptr_1 = getelementptr inbounds [4 x i8], [4 x i8]* @.fmt_str, i64 0, i64 0\n",
        "  %str_ptr_1 = getelementptr inbounds [7 x i8], [7 x i8]* @.str_0, i64 0, i64 0\n",
        "  call i32 (i8*, ...) @printf(i8* %fmt_str_ptr_1, i8* %str_ptr_1)\n",
        "  %fmt_str_ptr_3 = getelementptr inbounds [4 x i8], [4 x i8]* @.fmt_str, i64 0, i64 0\n",
        "  %str_ptr_3 = getelementptr inbounds [7 x i8], [7 x i8]* @.str_0, i64 0, i64 0\n",
        "  call i32 (i8*, ...) @printf(i8* %fmt_str_ptr_3, i8* %str_ptr_3)\n",
        "  ret i32 0\n",
        "}\n",
    ]
    .concat();
    assert_eq!(ir, expected);
}

#[test]
fn llvm_ir_numbers_strings_in_order_of_first_print() {
    let ast = vec![
        top(Expr::Print(Box::new(Expr::StringLit(s("b"))))),
        top(Expr::Print(Box::new(Expr::StringLit(s("a"))))),
        top(Expr::Print(Box::new(Expr::Number(-3)))),
    ];
    let ir = compile_to_llvm_ir(&ast);
    assert!(ir.contains("@.str_0 = private unnamed_addr constant [2 x i8] c\"b\\00\"\n@.str_1 = private unnamed_addr constant [2 x i8] c\"a\\00\"\n"));
    assert!(ir.contains("@printf(i8* %fmt_int_ptr_2, i32 -3)\n"));
    assert!(ir.contains("[2 x i8]* @.str_1, i64 0, i64 0\n"));
}

#[test]
fn llvm_ir_of_a_program_without_prints_is_the_bare_module() {
    let expected = "declare i32 @printf(i8*, ...)\n\n@.fmt_int = private unnamed_addr constant [4 x i8] c\"%d\\0A\\00\"\n@.fmt_str = private unnamed_addr constant [4 x i8] c\"%s\\0A\\00\"\n\ndefine i32 @main() {\nentry:\n  ret i32 0\n}\n";
    let ast = vec![top(Expr::Number(5)), top(Expr::StringLit(s("s")))];
    assert_eq!(compile_to_llvm_ir(&ast), expected);
    assert_eq!(compile_to_llvm_ir(&[]), expected);
}

#[test]
fn llvm_ir_gives_every_print_its_own_registers() {
    let ast = vec![
        top(Expr::Print(Box::new(Expr::Number(1)))),
        top(Expr::Print(Box::new(Expr::Number(2)))),
    ];
    let ir = compile_to_llvm_ir(&ast);
    assert_eq!(ir.matches("%fmt_int_ptr_0 =").count(), 1);
    assert_eq!(ir.matches("%fmt_int_ptr_1 =").count(), 1);
    let first = ir.find("@printf(i8* %fmt_int_ptr_0, i32 1)").unwrap();
    let second = ir.find("@printf(i8* %fmt_int_ptr_1, i32 2)").unwrap();
    assert!(first < second);
}

#[test]
fn llvm_ir_declares_and_calls_bridged_functions() {
    let ast = program_items(
        "bridge c \"libc.so.6\" { func strlen(s = String) -> Int }\n\
         bridge c \"libm.so.6\" { func sqrt(x = Float) -> Float }\n\
         print(strlen(\"Hello Arc\"));\n\
         print(sqrt(16.0));\n\
         print(sqrt(2));",
    );
    let ir = compile_to_llvm_ir(&ast);
    let expected = [
        "declare i32 @printf(i8*, ...)\n\n",
        "@.fmt_int = private unnamed_addr constant [4 x i8] c\"%d\\0A\\00\"\n",
        "@.fmt_str = private unnamed_addr constant [4 x i8] c\"%s\\0A\\00\"\n",
        "@.fmt_float = private unnamed_addr constant [4 x i8] c\"%f\\0A\\00\"\n",
        "declare i64 @strlen(i8*)\n",
        "declare double @sqrt(double)\n",
        "@.arg_0_0 = private unnamed_addr constant [10 x i8] c\"Hello Arc\\00\"\n",
        "\n",
        "define i32 @main() {\n",
        "entry:\n",
        "  %arg_0_0 = getelementptr inbounds [10 x i8], [10 x i8]* @.arg_0_0, i64 0, i64 0\n",
        "  %call_0 = call i64 @strlen(i8* %arg_0_0)\n",
        "  %res_0 = trunc i64 %call_0 to i32\n",
        "  %fmt_int_ptr_0 = getelementptr inbounds [4 x i8], [4 x i8]* @.fmt_int, i64 0, i64 0\n",
        "  call i32 (i8*, ...) @printf(i8* %fmt_int_ptr_0, i32 %res_0)\n",
        "  %call_1 = call double @sqrt(double 16.0)\n",
        "  %fmt_float_ptr_1 = getelementptr inbounds [4 x i8], [4 x i8]* @.fmt_float, i64 0, i64 0\n",
        "  call i32 (i8*, ...) @printf(i8* %fmt_float_ptr_1, double %call_1)\n",
        "  %arg_2_0 = sitofp i64 2 to double\n",
        "  %call_2 = call double @sqrt(double %arg_2_0)\n",
        "  %fmt_float_ptr_2 = getelementptr inbounds [4 x i8], [4 x i8]* @.fmt_float, i64 0, i64 0\n",
        "  call i32 (i8*, ...) @printf(i8* %fmt_float_ptr_2, double %call_2)\n",
        "  ret i32 0\n",
        "}\n",
    ]
    .concat();
    assert_eq!(ir, expected);
}

#[test]
fn llvm_ir_skips_calls_that_no_bridge_fits() {
    let ast = program_items(
        "bridge c \"libm.so.6\" { func sqrt(x = Float) -> Float }\n\
         print(sqrt(\"no\"));\n\
         print(cbrt(8.0));",
    );
    let ir = compile_to_llvm_ir(&ast);
    assert!(ir.contains("declare double @sqrt(double)\n"));
    assert!(!ir.contains("call double"));
    assert!(!ir.contains("@.arg_"));
}

#[test]
fn positions_count_lines_and_characters() {
    let src = "ab\nçd\n";
    assert_eq!(offset_to_position(0, src), Position { line: 0, character: 0 });
    assert_eq!(offset_to_position(1, src), Position { line: 0, character: 1 });
    assert_eq!(offset_to_position(3, src), Position { line: 1, character: 0 });
    assert_eq!(offset_to_position(5, src), Position { line: 1, character: 1 });
    // Inside a character, or past the end: the end of the text.
    assert_eq!(offset_to_position(4, src), Position { line: 2, character: 0 });
    assert_eq!(offset_to_position(99, src), Position { line: 2, character: 0 });
}

#[test]
fn diagnostics_point_at_the_furthest_failure() {
    assert_eq!(document_diagnostics("let x = 1; print(x);"), Some(vec![]));
    // A `let` without a name: the furthest failure is at `=`, where only a
    // name would do.
    let d = document_diagnostics("let x = 1;\nlet = 2;").unwrap();
    assert_eq!(d.len(), 1);
    assert_eq!(d[0].start, Position { line: 1, character: 4 });
    assert_eq!(d[0].end, Position { line: 1, character: 5 });
    assert_eq!(d[0].message, s("found \"=\""));
    // A `let` without a value: the failure is at `;`.
    let g = document_diagnostics("let x = ;").unwrap();
    assert_eq!(g[0].start, Position { line: 0, character: 8 });
    assert_eq!(g[0].end, Position { line: 0, character: 9 });
    assert_eq!(g[0].message, s("found \";\" but expected one of \"print\", \"(\""));
    // An unclosed call: the input ends where `)` or an operator was expected.
    let e = document_diagnostics("print(1);\n  print(\"a\\b\"").unwrap();
    assert_eq!(e.len(), 1);
    assert_eq!(e[0].start, Position { line: 1, character: 13 });
    assert_eq!(e[0].end, Position { line: 1, character: 13 });
    assert_eq!(
        e[0].message,
        s("found end of input but expected one of \")\", \"+\", \"-\", \"*\", \"/\", \"==\", \"!=\", \"<\", \">\", \"<=\", \">=\"")
    );
    // An assignment at the top level, where only items and expressions stand.
    let f = document_diagnostics("x = 1 )").unwrap();
    assert_eq!(f[0].start, Position { line: 0, character: 2 });
    assert_eq!(
        f[0].message,
        s("found \"=\" but expected one of end of input, \"let\", \"print\", \"bridge\", \"func\", \"use\", \"system\", \"if\", \"while\", \";\", \"(\", \"+\", \"-\", \"*\", \"/\", \"==\", \"!=\", \"<\", \">\", \"<=\", \">=\"")
    );
    assert_eq!(document_diagnostics("print(99999999999999999999);"), None);
}

#[test]
fn failure_messages_list_what_was_expected() {
    assert_eq!(compose_message(Some(s("\"x\"")), &vec![]), s("found \"x\""));
    assert_eq!(compose_message(None, &vec![s("\")\"")]), s("found end of input but expected \")\""));
    assert_eq!(
        compose_message(Some(s("\";\"")), &vec![s("end of input"), s("\"let\"")]),
        s("found \";\" but expected one of end of input, \"let\"")
    );
}

#[test]
fn generation_id_takes_eight_hex_digits() {
    assert_eq!(generation_id(0xdeadbeef12345678), s("gen-deadbeef"));
    assert_eq!(generation_id(0x1000_0000), s("gen-10000000"));
    assert_eq!(generation_id(0xabcdef012), s("gen-abcdef01"));
}

#[test]
fn package_plans_follow_the_last_string_setting() {
    let ast = parser()
        .parse(&tokenize(
            "system {
                package \"nginx\" { state = \"enabled\"; port = 8080; }
                service \"db\" { source = \"cargo\"; }
                package \"tool\" { source = \"static\"; source = \"cargo\"; path = \"./t\"; path = 3; }
            }
            print(1);
            system { package \"x\" { } }",
        ))
        .unwrap();
    let plans = package_plans(&ast);
    assert_eq!(
        plans,
        vec![
            PackagePlan {
                name: s("nginx"),
                kind: BuildKind::Config,
                build_path: s("."),
                manifest_path: s("./Cargo.toml"),
                config_file: s("nginx.conf"),
                config_text: s("# Config for nginx\n"),
            },
            PackagePlan {
                name: s("tool"),
                kind: BuildKind::Cargo,
                build_path: s("./t"),
                manifest_path: s("./t/Cargo.toml"),
                config_file: s("tool.conf"),
                config_text: s("# Config for tool\n"),
            },
            PackagePlan {
                name: s("x"),
                kind: BuildKind::Config,
                build_path: s("."),
                manifest_path: s("./Cargo.toml"),
                config_file: s("x.conf"),
                config_text: s("# Config for x\n"),
            },
        ]
    );
}

fn item(n: i64) -> TopLevel {
    TopLevel::Stmt(Stmt::Expr(Expr::Number(n)))
}

#[test]
fn loader_splices_used_modules_in_place_and_loads_each_once() {
    // main: 1; use "a.arc"; 2; use "b.arc"; 3
    // a.arc: 10; use "b.arc"; 11
    // b.arc: 20; use "a.arc"
    let mut loader = ModuleLoader::new();
    assert!(loader.begin(b"/p/main.arc".to_vec()));
    let main_items = vec![
        item(1),
        TopLevel::UseDecl { path: s("a.arc") },
        item(2),
        TopLevel::UseDecl { path: s("b.arc") },
        item(3),
    ];
    assert_eq!(loader.push_module(main_items), 0);
    assert_eq!(loader.next(), LoadAction::Open { module: 0, path: s("a.arc") });
    assert!(loader.begin(b"/p/a.arc".to_vec()));
    assert_eq!(
        loader.push_module(vec![item(10), TopLevel::UseDecl { path: s("b.arc") }, item(11)]),
        1
    );
    assert_eq!(loader.next(), LoadAction::Open { module: 1, path: s("b.arc") });
    assert!(loader.begin(b"/p/b.arc".to_vec()));
    assert_eq!(loader.push_module(vec![item(20), TopLevel::UseDecl { path: s("a.arc") }]), 2);
    assert_eq!(loader.next(), LoadAction::Open { module: 2, path: s("a.arc") });
    assert!(!loader.begin(b"/p/a.arc".to_vec()));
    assert_eq!(loader.next(), LoadAction::Open { module: 0, path: s("b.arc") });
    assert!(!loader.begin(b"/p/b.arc".to_vec()));
    assert_eq!(loader.next(), LoadAction::Done);
    assert_eq!(loader.next(), LoadAction::Done);
    let program = loader.into_program();
    assert_eq!(program, vec![item(1), item(10), item(20), item(11), item(2), item(3)]);
}

#[test]
fn loader_with_a_single_module_takes_its_items_in_order() {
    let mut loader = ModuleLoader::new();
    assert!(loader.begin(b"only".to_vec()));
    assert!(!loader.begin(b"only".to_vec()));
    loader.push_module(vec![item(5), item(6)]);
    assert_eq!(loader.next(), LoadAction::Done);
    assert_eq!(loader.into_program(), vec![item(5), item(6)]);
}

fn render(pieces: &[ReportPiece]) -> String {
    pieces
        .iter()
        .map(|p| match p {
            ReportPiece::Text(t) => t.clone(),
            ReportPiece::Float(t) => format!("{:?}", t.parse::<f64>().unwrap()),
        })
        .collect()
}

#[test]
fn program_text_is_what_debug_writes() {
    let items = program_items(
        "bridge c \"libc.so.6\" { func strlen(s = String) -> Int }\n\
         use \"lib.arc\";\n\
         let x = 5;\n\
         func f(n = Int, m = Float) -> Int { if (n <= 1) { return 1; } else { n = n - 1; } while (n > 0) { print(n); } return n * f(n - 1, m); }\n\
         system { package \"nginx\" { state = \"en\\abled\"; port = 8080; } service \"db\" { } }\n\
         print(\"hi\");",
    );
    assert_eq!(render(&program_debug_text(&items)), format!("{:?}", items));
    assert_eq!(render(&program_debug_text(&[])), s("[]"));
}

#[test]
fn program_text_writes_float_literals_as_doubles() {
    let items = program_items("let r = 2.50; print(r * 10.0);");
    assert_eq!(
        render(&program_debug_text(&items)),
        s("[LetDecl { name: \"r\", value: FloatLit(2.5) }, Stmt(Expr(Print(BinOp(Identifier(\"r\"), \"*\", FloatLit(10.0)))))]")
    );
}
