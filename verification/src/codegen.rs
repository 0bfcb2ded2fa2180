//! The ahead-of-time code generator: LLVM IR for the `print` expressions of a
//! program.
use vstd::prelude::*;
use crate::ast::{Expr, SExpr, Stmt, SStmt, TopLevel, STopLevel, BridgeParam, SBridgeParam, exprs_view, lemma_exprs_view, lemma_exprs_view_push};
use crate::text::{lit, concat, chars_of, u64_to_string, i64_to_string, nat_decimal, int_decimal};
use crate::lexer::{utf8_width, byte_offset};

verus! {

/// The number of bytes of a text in UTF-8.
pub open spec fn utf8_len(s: Seq<char>) -> int {
    byte_offset(s, s.len() as int)
}

/// The string literals that the program prints, each once, in the order of
/// their first `print`.
pub open spec fn printed_strings(ast: Seq<SExpr>) -> Seq<Seq<char>>
    decreases ast.len(),
{
    if ast.len() == 0 {
        Seq::empty()
    } else {
        let prev = printed_strings(ast.drop_last());
        match ast.last() {
            SExpr::Print(inner) => match *inner {
                SExpr::StringLit(s) => if prev.contains(s) {
                    prev
                } else {
                    prev.push(s)
                },
                _ => prev,
            },
            _ => prev,
        }
    }
}

/// The position of the first `s` in `strs`.
pub open spec fn first_index(strs: Seq<Seq<char>>, s: Seq<char>) -> int
    decreases strs.len(),
{
    if strs.len() == 0 {
        0
    } else if strs.last() == s && !strs.drop_last().contains(s) {
        strs.len() - 1
    } else {
        first_index(strs.drop_last(), s)
    }
}

/// The `printf` declaration and its formats: `%d` and `%s` always, and `%f`
/// only when some print calls a foreign function with a `Float` result.
pub open spec fn prelude_text(float: bool) -> Seq<char> {
    "declare i32 @printf(i8*, ...)\n\n"@
        + "@.fmt_int = private unnamed_addr constant [4 x i8] c\"%d\\0A\\00\"\n"@
        + "@.fmt_str = private unnamed_addr constant [4 x i8] c\"%s\\0A\\00\"\n"@
        + if float {
        "@.fmt_float = private unnamed_addr constant [4 x i8] c\"%f\\0A\\00\"\n"@
    } else {
        Seq::empty()
    }
}

/// The global constant that holds the `k`-th printed string.
pub open spec fn global_line(k: nat, s: Seq<char>) -> Seq<char> {
    "@.str_"@ + nat_decimal(k) + " = private unnamed_addr constant ["@ + nat_decimal(
        (utf8_len(s) + 1) as nat,
    ) + " x i8] c\""@ + s + "\\00\"\n"@
}

pub open spec fn globals_text(strs: Seq<Seq<char>>) -> Seq<char>
    decreases strs.len(),
{
    if strs.len() == 0 {
        Seq::empty()
    } else {
        globals_text(strs.drop_last()) + global_line((strs.len() - 1) as nat, strs.last())
    }
}

/// A foreign function declared by a `bridge`: its name, the types of its
/// parameters and its result type, as written (`Int`, `Float`, `String`).
pub struct SBridge {
    pub name: Seq<char>,
    pub params: Seq<Seq<char>>,
    pub ret: Seq<char>,
}

/// The foreign functions that the `bridge` items declare, in order.
pub open spec fn bridges_of(items: Seq<STopLevel>) -> Seq<SBridge>
    decreases items.len(),
{
    if items.len() == 0 {
        Seq::empty()
    } else {
        let prev = bridges_of(items.drop_last());
        match items.last() {
            STopLevel::BridgeDecl { name, params, ret_ty, .. } => prev.push(
                SBridge { name, params: params.map_values(|p: SBridgeParam| p.ty), ret: ret_ty },
            ),
            _ => prev,
        }
    }
}

/// The expressions of the top-level expression statements, in order.
pub open spec fn exprs_of(items: Seq<STopLevel>) -> Seq<SExpr>
    decreases items.len(),
{
    if items.len() == 0 {
        Seq::empty()
    } else {
        let prev = exprs_of(items.drop_last());
        match items.last() {
            STopLevel::Stmt(SStmt::Expr(e)) => prev.push(e),
            _ => prev,
        }
    }
}

/// Whether one of `bs` is named `n`.
pub open spec fn has_name(bs: Seq<SBridge>, n: Seq<char>) -> bool {
    exists|j: int| 0 <= j < bs.len() && bs[j].name == n
}

/// The first foreign function of `bs` named `n`.
pub open spec fn find_bridge(bs: Seq<SBridge>, n: Seq<char>) -> Option<SBridge>
    decreases bs.len(),
{
    if bs.len() == 0 {
        None
    } else if bs[0].name == n {
        Some(bs[0])
    } else {
        find_bridge(bs.drop_first(), n)
    }
}

/// The LLVM type of a parameter: `i64` for `Int`, `double` for `Float`, `i8*`
/// for `String`.
pub open spec fn param_type(t: Seq<char>) -> Seq<char> {
    if t == "Int"@ {
        "i64"@
    } else if t == "Float"@ {
        "double"@
    } else {
        "i8*"@
    }
}

/// The LLVM type of a result: `double` for `Float`, `i64` for `Int`.
pub open spec fn ret_type(t: Seq<char>) -> Seq<char> {
    if t == "Float"@ {
        "double"@
    } else {
        "i64"@
    }
}

pub open spec fn types_list(ts: Seq<Seq<char>>) -> Seq<char>
    decreases ts.len(),
{
    if ts.len() == 0 {
        Seq::empty()
    } else if ts.len() == 1 {
        param_type(ts[0])
    } else {
        types_list(ts.drop_last()) + ", "@ + param_type(ts.last())
    }
}

/// The declaration of a foreign function.
pub open spec fn decl_line(b: SBridge) -> Seq<char> {
    "declare "@ + ret_type(b.ret) + " @"@ + b.name + "("@ + types_list(b.params) + ")\n"@
}

/// One declaration per foreign function name, the first declaration of each.
pub open spec fn decls_text(bs: Seq<SBridge>) -> Seq<char>
    decreases bs.len(),
{
    if bs.len() == 0 {
        Seq::empty()
    } else if has_name(bs.drop_last(), bs.last().name) {
        decls_text(bs.drop_last())
    } else {
        decls_text(bs.drop_last()) + decl_line(bs.last())
    }
}

/// The name of a register of the `i`-th expression: `base` with the
/// expression's index appended, so that no two prints share a register.
pub open spec fn reg(base: Seq<char>, i: nat) -> Seq<char> {
    base + "_"@ + nat_decimal(i)
}

/// The register of argument `j` of the call printed by the `i`-th expression.
pub open spec fn arg_reg(i: nat, j: nat) -> Seq<char> {
    "%arg_"@ + nat_decimal(i) + "_"@ + nat_decimal(j)
}

/// The global that holds string argument `j` of the `i`-th expression.
pub open spec fn arg_global_name(i: nat, j: nat) -> Seq<char> {
    "@.arg_"@ + nat_decimal(i) + "_"@ + nat_decimal(j)
}

/// The array length of a string constant: its UTF-8 bytes and a NUL.
pub open spec fn array_len(s: Seq<char>) -> Seq<char> {
    nat_decimal((utf8_len(s) + 1) as nat)
}

/// Whether an argument can be passed for a parameter of type `t`: an integer
/// literal for `Int` or `Float` (converted), a float literal for `Float`, a
/// string literal for `String`.
pub open spec fn arg_ok(a: SExpr, t: Seq<char>) -> bool {
    match a {
        SExpr::Number(_) => t == "Int"@ || t == "Float"@,
        SExpr::FloatLit(_) => t == "Float"@,
        SExpr::StringLit(_) => t == "String"@,
        _ => false,
    }
}

pub open spec fn args_ok(args: Seq<SExpr>, ts: Seq<Seq<char>>) -> bool {
    args.len() == ts.len() && forall|j: int| 0 <= j < args.len() ==> #[trigger] arg_ok(args[j], ts[j])
}

/// The instruction that prepares argument `j`: `sitofp` for an integer passed as
/// a double, the address of its global for a string; none otherwise.
pub open spec fn arg_setup(i: nat, j: nat, a: SExpr, t: Seq<char>) -> Seq<char> {
    match a {
        SExpr::Number(n) => if t == "Float"@ {
            "  "@ + arg_reg(i, j) + " = sitofp i64 "@ + int_decimal(n as int) + " to double\n"@
        } else {
            Seq::empty()
        },
        SExpr::StringLit(s) => "  "@ + arg_reg(i, j) + " = getelementptr inbounds ["@ + array_len(s)
            + " x i8], ["@ + array_len(s) + " x i8]* "@ + arg_global_name(i, j) + ", i64 0, i64 0\n"@,
        _ => Seq::empty(),
    }
}

/// How argument `j` is passed in the call.
pub open spec fn arg_operand(i: nat, j: nat, a: SExpr, t: Seq<char>) -> Seq<char> {
    match a {
        SExpr::Number(n) => if t == "Float"@ {
            "double "@ + arg_reg(i, j)
        } else {
            "i64 "@ + int_decimal(n as int)
        },
        SExpr::FloatLit(x) => "double "@ + x,
        SExpr::StringLit(_) => "i8* "@ + arg_reg(i, j),
        _ => Seq::empty(),
    }
}

/// The global constant of a string argument.
pub open spec fn arg_global(i: nat, j: nat, a: SExpr) -> Seq<char> {
    match a {
        SExpr::StringLit(s) => arg_global_name(i, j) + " = private unnamed_addr constant ["@ + array_len(s)
            + " x i8] c\""@ + s + "\\00\"\n"@,
        _ => Seq::empty(),
    }
}

pub open spec fn args_setup(i: nat, args: Seq<SExpr>, ts: Seq<Seq<char>>) -> Seq<char>
    decreases args.len(),
{
    if args.len() == 0 {
        Seq::empty()
    } else {
        args_setup(i, args.drop_last(), ts) + arg_setup(i, (args.len() - 1) as nat, args.last(), ts[args.len() - 1])
    }
}

pub open spec fn args_list(i: nat, args: Seq<SExpr>, ts: Seq<Seq<char>>) -> Seq<char>
    decreases args.len(),
{
    if args.len() == 0 {
        Seq::empty()
    } else if args.len() == 1 {
        arg_operand(i, 0, args[0], ts[0])
    } else {
        args_list(i, args.drop_last(), ts) + ", "@ + arg_operand(i, (args.len() - 1) as nat, args.last(), ts[args.len() - 1])
    }
}

pub open spec fn args_globals(i: nat, args: Seq<SExpr>) -> Seq<char>
    decreases args.len(),
{
    if args.len() == 0 {
        Seq::empty()
    } else {
        args_globals(i, args.drop_last()) + arg_global(i, (args.len() - 1) as nat, args.last())
    }
}

/// Prints the integer `v` through the `%d` format.
pub open spec fn int_print(i: nat, v: Seq<char>) -> Seq<char> {
    "  "@ + reg("%fmt_int_ptr"@, i) + " = getelementptr inbounds [4 x i8], [4 x i8]* @.fmt_int, i64 0, i64 0\n"@
        + "  call i32 (i8*, ...) @printf(i8* "@ + reg("%fmt_int_ptr"@, i) + ", i32 "@ + v + ")\n"@
}

/// Prints the string at the `k`-th global through the `%s` format.
pub open spec fn str_print(i: nat, s: Seq<char>, k: nat) -> Seq<char> {
    "  "@ + reg("%fmt_str_ptr"@, i) + " = getelementptr inbounds [4 x i8], [4 x i8]* @.fmt_str, i64 0, i64 0\n"@
        + "  "@ + reg("%str_ptr"@, i) + " = getelementptr inbounds ["@ + array_len(s) + " x i8], ["@
        + array_len(s) + " x i8]* @.str_"@ + nat_decimal(k) + ", i64 0, i64 0\n"@
        + "  call i32 (i8*, ...) @printf(i8* "@ + reg("%fmt_str_ptr"@, i) + ", i8* "@ + reg("%str_ptr"@, i)
        + ")\n"@
}

/// Calls a foreign function and prints its result: a `Float` result through the
/// `%f` format, an `Int` result truncated to 32 bits through `%d`.
pub open spec fn call_print(i: nat, b: SBridge, args: Seq<SExpr>) -> Seq<char> {
    args_setup(i, args, b.params) + "  "@ + reg("%call"@, i) + " = call "@ + ret_type(b.ret) + " @"@ + b.name
        + "("@ + args_list(i, args, b.params) + ")\n"@ + if b.ret == "Float"@ {
        "  "@ + reg("%fmt_float_ptr"@, i)
            + " = getelementptr inbounds [4 x i8], [4 x i8]* @.fmt_float, i64 0, i64 0\n"@
            + "  call i32 (i8*, ...) @printf(i8* "@ + reg("%fmt_float_ptr"@, i) + ", double "@ + reg(
            "%call"@,
            i,
        ) + ")\n"@
    } else {
        "  "@ + reg("%res"@, i) + " = trunc i64 "@ + reg("%call"@, i) + " to i32\n"@ + int_print(
            i,
            reg("%res"@, i),
        )
    }
}

/// The foreign function that a printed call goes to, when the call can be
/// compiled: a bridge of that name whose parameters its arguments fit.
pub open spec fn compiled_call(e: SExpr, bs: Seq<SBridge>) -> Option<(SBridge, Seq<SExpr>)> {
    match e {
        SExpr::Print(inner) => match *inner {
            SExpr::Call(name, args) => match find_bridge(bs, name) {
                Some(b) => if args_ok(args, b.params) {
                    Some((b, args))
                } else {
                    None
                },
                None => None,
            },
            _ => None,
        },
        _ => None,
    }
}

/// The instructions of the `i`-th expression: an integer literal printed through
/// `%d`, a string literal through `%s` and its global, a call of a bridged
/// function through the call and the format of its result type; anything else
/// prints nothing. Every register is named after `i`.
pub open spec fn print_code(i: nat, e: SExpr, strs: Seq<Seq<char>>, bs: Seq<SBridge>) -> Seq<char> {
    match e {
        SExpr::Print(inner) => match *inner {
            SExpr::Number(n) => int_print(i, int_decimal(n as int)),
            SExpr::StringLit(s) => str_print(i, s, first_index(strs, s) as nat),
            _ => match compiled_call(e, bs) {
                Some((b, args)) => call_print(i, b, args),
                None => Seq::empty(),
            },
        },
        _ => Seq::empty(),
    }
}

/// Whether an expression prints the `Float` result of a foreign function.
pub open spec fn prints_float(e: SExpr, bs: Seq<SBridge>) -> bool {
    match compiled_call(e, bs) {
        Some((b, _)) => b.ret == "Float"@,
        None => false,
    }
}

pub open spec fn any_float_print(ast: Seq<SExpr>, bs: Seq<SBridge>) -> bool
    decreases ast.len(),
{
    if ast.len() == 0 {
        false
    } else {
        any_float_print(ast.drop_last(), bs) || prints_float(ast.last(), bs)
    }
}

/// The globals of the string arguments of the `i`-th expression's call.
pub open spec fn print_globals(i: nat, e: SExpr, bs: Seq<SBridge>) -> Seq<char> {
    match compiled_call(e, bs) {
        Some((b, args)) => args_globals(i, args),
        None => Seq::empty(),
    }
}

pub open spec fn body_text(ast: Seq<SExpr>, strs: Seq<Seq<char>>, bs: Seq<SBridge>) -> Seq<char>
    decreases ast.len(),
{
    if ast.len() == 0 {
        Seq::empty()
    } else {
        body_text(ast.drop_last(), strs, bs) + print_code((ast.len() - 1) as nat, ast.last(), strs, bs)
    }
}

pub open spec fn call_globals_text(ast: Seq<SExpr>, bs: Seq<SBridge>) -> Seq<char>
    decreases ast.len(),
{
    if ast.len() == 0 {
        Seq::empty()
    } else {
        call_globals_text(ast.drop_last(), bs) + print_globals((ast.len() - 1) as nat, ast.last(), bs)
    }
}

/// The LLVM module of the expressions `ast` with the foreign functions `bs`:
/// the `printf` declaration and formats (`%f` only where a print needs it), a declaration per foreign function, a
/// global per printed string and per string argument, and a `main` that runs
/// each print in order.
pub open spec fn module_text(ast: Seq<SExpr>, bs: Seq<SBridge>) -> Seq<char> {
    let strs = printed_strings(ast);
    prelude_text(any_float_print(ast, bs)) + decls_text(bs) + globals_text(strs) + call_globals_text(ast, bs) + "\n"@
        + "define i32 @main() {\n"@ + "entry:\n"@ + body_text(ast, strs, bs) + "  ret i32 0\n"@ + "}\n"@
}

/// The LLVM module of a program: its top-level expressions with the foreign
/// functions that its `bridge` items declare.
pub open spec fn llvm_ir(items: Seq<STopLevel>) -> Seq<char> {
    module_text(exprs_of(items), bridges_of(items))
}

/// Whether the string literals that an expression puts into globals are short
/// enough for their byte counts to be computed.
pub open spec fn lits_fit(e: SExpr) -> bool {
    match e {
        SExpr::Print(inner) => match *inner {
            SExpr::StringLit(s) => s.len() <= 0x1000_0000_0000_0000,
            SExpr::Call(_, args) => forall|j: int|
                0 <= j < args.len() ==> match #[trigger] args[j] {
                    SExpr::StringLit(s) => s.len() <= 0x1000_0000_0000_0000,
                    _ => true,
                },
            _ => true,
        },
        _ => true,
    }
}

fn x_utf8_len(s: &String) -> (r: u64)
    requires
        s@.len() <= 0x1000_0000_0000_0000,
    ensures
        r == utf8_len(s@),
        r <= 4 * s@.len(),
{
    let cs = chars_of(s.as_str());
    let mut acc: u64 = 0;
    let mut i: usize = 0;
    while i < cs.len()
        invariant
            i <= cs@.len(),
            cs@ == s@,
            cs@.len() <= 0x1000_0000_0000_0000,
            acc == byte_offset(cs@, i as int),
            acc <= 4 * i,
        decreases cs@.len() - i,
    {
        let c = cs[i];
        let n = c as u32;
        let w: u64 = if n < 0x80 {
            1
        } else if n < 0x800 {
            2
        } else if n < 0x10000 {
            3
        } else {
            4
        };
        assert(w == utf8_width(c));
        acc = acc + w;
        i = i + 1;
    }
    acc
}

/// Where `s` first occurs among the strings found so far, if it does.
fn find_string(strs: &Vec<String>, s: &String) -> (r: Option<usize>)
    ensures
        match r {
            Some(k) => k < strs@.len() && strs@[k as int]@ == s@ && forall|j: int|
                0 <= j < k ==> strs@[j]@ != s@,
            None => forall|j: int| 0 <= j < strs@.len() ==> strs@[j]@ != s@,
        },
{
    let mut k: usize = 0;
    while k < strs.len()
        invariant
            k <= strs@.len(),
            forall|j: int| 0 <= j < k ==> strs@[j]@ != s@,
        decreases strs@.len() - k,
    {
        if strs[k] == *s {
            return Some(k);
        }
        k = k + 1;
    }
    None
}

pub open spec fn strs_view(v: Seq<String>) -> Seq<Seq<char>> {
    v.map_values(|s: String| s@)
}

proof fn lemma_first_index(strs: Seq<Seq<char>>, s: Seq<char>, k: int)
    requires
        0 <= k < strs.len(),
        strs[k] == s,
        forall|j: int| 0 <= j < k ==> strs[j] != s,
    ensures
        first_index(strs, s) == k,
    decreases strs.len(),
{
    if k < strs.len() - 1 {
        assert(strs.drop_last()[k] == s);
        lemma_first_index(strs.drop_last(), s, k);
        assert(strs.drop_last().contains(s));
    } else {
        assert forall|j: int| 0 <= j < strs.drop_last().len() implies strs.drop_last()[j] != s by {
            assert(strs.drop_last()[j] == strs[j]);
        }
    }
}

/// A foreign function declared by a `bridge`, as the code generator keeps it.
struct Bridge {
    name: String,
    params: Vec<String>,
    ret: String,
}

impl Bridge {
    spec fn view(&self) -> SBridge {
        SBridge { name: self.name@, params: strs_view(self.params@), ret: self.ret@ }
    }
}

spec fn bridges_view(v: Seq<Bridge>) -> Seq<SBridge> {
    v.map_values(|b: Bridge| b.view())
}

fn x_reg(base: &str, i: usize) -> (r: String)
    ensures
        r@ == reg(base@, i as nat),
{
    concat(concat(lit(base), "_"), u64_to_string(i as u64).as_str())
}

fn x_arg_name(prefix: &str, i: usize, j: usize) -> (r: String)
    ensures
        r@ == prefix@ + nat_decimal(i as nat) + "_"@ + nat_decimal(j as nat),
{
    let a = concat(lit(prefix), u64_to_string(i as u64).as_str());
    concat(concat(a, "_"), u64_to_string(j as u64).as_str())
}

fn x_array_len(s: &String) -> (r: String)
    requires
        s@.len() <= 0x1000_0000_0000_0000,
    ensures
        r@ == array_len(s@),
{
    let n = x_utf8_len(s) + 1;
    u64_to_string(n)
}

fn x_int_print(i: usize, v: &str) -> (r: String)
    ensures
        r@ == int_print(i as nat, v@),
{
    let p = x_reg("%fmt_int_ptr", i);
    let mut r = concat(concat(lit("  "), p.as_str()), " = getelementptr inbounds [4 x i8], [4 x i8]* @.fmt_int, i64 0, i64 0\n");
    r = concat(concat(concat(concat(concat(r, "  call i32 (i8*, ...) @printf(i8* "), p.as_str()), ", i32 "), v), ")\n");
    assert(r@ =~= int_print(i as nat, v@));
    r
}

fn x_str_print(i: usize, s: &String, k: usize) -> (r: String)
    requires
        s@.len() <= 0x1000_0000_0000_0000,
    ensures
        r@ == str_print(i as nat, s@, k as nat),
{
    let f = x_reg("%fmt_str_ptr", i);
    let p = x_reg("%str_ptr", i);
    let len = x_array_len(s);
    let mut r = concat(concat(lit("  "), f.as_str()), " = getelementptr inbounds [4 x i8], [4 x i8]* @.fmt_str, i64 0, i64 0\n");
    r = concat(concat(concat(concat(r, "  "), p.as_str()), " = getelementptr inbounds ["), len.as_str());
    r = concat(concat(concat(r, " x i8], ["), len.as_str()), " x i8]* @.str_");
    r = concat(concat(r, u64_to_string(k as u64).as_str()), ", i64 0, i64 0\n");
    r = concat(concat(concat(concat(concat(r, "  call i32 (i8*, ...) @printf(i8* "), f.as_str()), ", i8* "), p.as_str()), ")\n");
    assert(r@ =~= str_print(i as nat, s@, k as nat));
    r
}

fn x_param_type(t: &String) -> (r: String)
    ensures
        r@ == param_type(t@),
{
    if *t == lit("Int") {
        lit("i64")
    } else if *t == lit("Float") {
        lit("double")
    } else {
        lit("i8*")
    }
}

fn x_ret_type(t: &String) -> (r: String)
    ensures
        r@ == ret_type(t@),
{
    if *t == lit("Float") {
        lit("double")
    } else {
        lit("i64")
    }
}

fn x_types_list(ts: &Vec<String>) -> (r: String)
    ensures
        r@ == types_list(strs_view(ts@)),
{
    let ghost tv = strs_view(ts@);
    let mut r = String::new();
    let mut k: usize = 0;
    proof {
        assert(tv.take(0) =~= Seq::<Seq<char>>::empty());
    }
    while k < ts.len()
        invariant
            k <= ts@.len(),
            tv == strs_view(ts@),
            r@ == types_list(tv.take(k as int)),
        decreases ts@.len() - k,
    {
        proof {
            assert(tv.take(k + 1).drop_last() =~= tv.take(k as int));
            assert(tv.take(k + 1).last() == ts@[k as int]@);
        }
        let t = x_param_type(&ts[k]);
        if k == 0 {
            r = t;
        } else {
            r = concat(concat(r, ", "), t.as_str());
        }
        k = k + 1;
    }
    proof {
        assert(tv.take(ts@.len() as int) =~= tv);
    }
    r
}

fn x_decl_line(b: &Bridge) -> (r: String)
    ensures
        r@ == decl_line(b.view()),
{
    let mut r = concat(lit("declare "), x_ret_type(&b.ret).as_str());
    r = concat(concat(concat(concat(r, " @"), b.name.as_str()), "("), x_types_list(&b.params).as_str());
    r = concat(r, ")\n");
    assert(r@ =~= decl_line(b.view()));
    r
}

/// Whether one of the first `upto` functions is named `n`.
fn x_has_name(bs: &Vec<Bridge>, upto: usize, n: &String) -> (r: bool)
    requires
        upto <= bs@.len(),
    ensures
        r == has_name(bridges_view(bs@).take(upto as int), n@),
{
    let ghost bv = bridges_view(bs@).take(upto as int);
    let mut k: usize = 0;
    while k < upto
        invariant
            k <= upto <= bs@.len(),
            bv == bridges_view(bs@).take(upto as int),
            forall|j: int| 0 <= j < k ==> bv[j].name != n@,
        decreases upto - k,
    {
        if bs[k].name == *n {
            assert(bv[k as int].name == n@);
            return true;
        }
        assert(bv[k as int].name == bs@[k as int].name@);
        k = k + 1;
    }
    false
}

/// The first function named `n`.
fn x_find_bridge(bs: &Vec<Bridge>, n: &String) -> (r: Option<usize>)
    ensures
        match r {
            Some(k) => k < bs@.len() && find_bridge(bridges_view(bs@), n@) == Some(bridges_view(bs@)[k as int]),
            None => find_bridge(bridges_view(bs@), n@) is None,
        },
{
    let ghost bv = bridges_view(bs@);
    let mut k: usize = 0;
    proof {
        assert(bv.subrange(0, bv.len() as int) =~= bv);
    }
    while k < bs.len()
        invariant
            k <= bs@.len(),
            bv == bridges_view(bs@),
            find_bridge(bv, n@) == find_bridge(bv.subrange(k as int, bv.len() as int), n@),
        decreases bs@.len() - k,
    {
        let ghost rest = bv.subrange(k as int, bv.len() as int);
        proof {
            assert(rest[0] == bv[k as int]);
            assert(rest.drop_first() =~= bv.subrange(k + 1, bv.len() as int));
        }
        if bs[k].name == *n {
            return Some(k);
        }
        k = k + 1;
    }
    None
}

fn x_arg_ok(a: &Expr, t: &String) -> (r: bool)
    ensures
        r == arg_ok(a.view(), t@),
{
    match a {
        Expr::Number(_) => *t == lit("Int") || *t == lit("Float"),
        Expr::FloatLit(_) => *t == lit("Float"),
        Expr::StringLit(_) => *t == lit("String"),
        _ => false,
    }
}

fn x_args_ok(args: &Vec<Expr>, ts: &Vec<String>) -> (r: bool)
    ensures
        r == args_ok(exprs_view(args@), strs_view(ts@)),
{
    proof {
        lemma_exprs_view(args@);
    }
    if args.len() != ts.len() {
        return false;
    }
    let mut j: usize = 0;
    while j < args.len()
        invariant
            j <= args@.len(),
            args@.len() == ts@.len(),
            exprs_view(args@).len() == args@.len(),
            forall|m: int| 0 <= m < args@.len() ==> #[trigger] exprs_view(args@)[m] == args@[m].view(),
            forall|m: int| 0 <= m < j ==> #[trigger] arg_ok(exprs_view(args@)[m], strs_view(ts@)[m]),
        decreases args@.len() - j,
    {
        if !x_arg_ok(&args[j], &ts[j]) {
            assert(!arg_ok(exprs_view(args@)[j as int], strs_view(ts@)[j as int]));
            return false;
        }
        j = j + 1;
    }
    true
}

/// A string argument that is short enough for its byte count.
spec fn arg_fits(a: SExpr) -> bool {
    match a {
        SExpr::StringLit(s) => s.len() <= 0x1000_0000_0000_0000,
        _ => true,
    }
}

fn x_arg_setup(i: usize, j: usize, a: &Expr, t: &String) -> (r: String)
    requires
        arg_fits(a.view()),
    ensures
        r@ == arg_setup(i as nat, j as nat, a.view(), t@),
{
    match a {
        Expr::Number(n) => if *t == lit("Float") {
            let mut r = concat(concat(lit("  "), x_arg_name("%arg_", i, j).as_str()), " = sitofp i64 ");
            r = concat(concat(r, i64_to_string(*n).as_str()), " to double\n");
            assert(r@ =~= arg_setup(i as nat, j as nat, a.view(), t@));
            r
        } else {
            String::new()
        },
        Expr::StringLit(s) => {
            let len = x_array_len(s);
            let mut r = concat(concat(lit("  "), x_arg_name("%arg_", i, j).as_str()), " = getelementptr inbounds [");
            r = concat(concat(concat(concat(r, len.as_str()), " x i8], ["), len.as_str()), " x i8]* ");
            r = concat(concat(r, x_arg_name("@.arg_", i, j).as_str()), ", i64 0, i64 0\n");
            assert(r@ =~= arg_setup(i as nat, j as nat, a.view(), t@));
            r
        },
        _ => String::new(),
    }
}

fn x_arg_operand(i: usize, j: usize, a: &Expr, t: &String) -> (r: String)
    ensures
        r@ == arg_operand(i as nat, j as nat, a.view(), t@),
{
    match a {
        Expr::Number(n) => if *t == lit("Float") {
            let r = concat(lit("double "), x_arg_name("%arg_", i, j).as_str());
            assert(r@ =~= arg_operand(i as nat, j as nat, a.view(), t@));
            r
        } else {
            concat(lit("i64 "), i64_to_string(*n).as_str())
        },
        Expr::FloatLit(x) => concat(lit("double "), x.as_str()),
        Expr::StringLit(_) => {
            let r = concat(lit("i8* "), x_arg_name("%arg_", i, j).as_str());
            assert(r@ =~= arg_operand(i as nat, j as nat, a.view(), t@));
            r
        },
        _ => String::new(),
    }
}

fn x_arg_global(i: usize, j: usize, a: &Expr) -> (r: String)
    requires
        arg_fits(a.view()),
    ensures
        r@ == arg_global(i as nat, j as nat, a.view()),
{
    match a {
        Expr::StringLit(s) => {
            let len = x_array_len(s);
            let mut r = concat(x_arg_name("@.arg_", i, j), " = private unnamed_addr constant [");
            r = concat(concat(concat(concat(r, len.as_str()), " x i8] c\""), s.as_str()), "\\00\"\n");
            assert(r@ =~= arg_global(i as nat, j as nat, a.view()));
            r
        },
        _ => String::new(),
    }
}

/// The setup, the operand list and the globals of a call's arguments.
fn x_args_parts(i: usize, args: &Vec<Expr>, ts: &Vec<String>) -> (r: (String, String, String))
    requires
        args@.len() == ts@.len(),
        forall|m: int| 0 <= m < args@.len() ==> #[trigger] arg_fits(args@[m].view()),
    ensures
        r.0@ == args_setup(i as nat, exprs_view(args@), strs_view(ts@)),
        r.1@ == args_list(i as nat, exprs_view(args@), strs_view(ts@)),
        r.2@ == args_globals(i as nat, exprs_view(args@)),
{
    let ghost av = exprs_view(args@);
    let ghost tv = strs_view(ts@);
    proof {
        lemma_exprs_view(args@);
        assert(av.take(0) =~= Seq::<SExpr>::empty());
    }
    let mut setup = String::new();
    let mut list = String::new();
    let mut globals = String::new();
    let mut j: usize = 0;
    while j < args.len()
        invariant
            j <= args@.len(),
            args@.len() == ts@.len(),
            av == exprs_view(args@),
            tv == strs_view(ts@),
            av.len() == args@.len(),
            forall|m: int| 0 <= m < args@.len() ==> #[trigger] av[m] == args@[m].view(),
            forall|m: int| 0 <= m < args@.len() ==> #[trigger] arg_fits(args@[m].view()),
            setup@ == args_setup(i as nat, av.take(j as int), tv),
            list@ == args_list(i as nat, av.take(j as int), tv),
            globals@ == args_globals(i as nat, av.take(j as int)),
        decreases args@.len() - j,
    {
        proof {
            assert(av.take(j + 1).drop_last() =~= av.take(j as int));
            assert(av.take(j + 1).last() == args@[j as int].view());
            assert(tv[j as int] == ts@[j as int]@);
            assert(arg_fits(args@[j as int].view()));
        }
        let a = &args[j];
        setup = concat(setup, x_arg_setup(i, j, a, &ts[j]).as_str());
        let op = x_arg_operand(i, j, a, &ts[j]);
        if j == 0 {
            list = op;
            proof {
                assert(av.take(1)[0] == av[0]);
            }
        } else {
            list = concat(concat(list, ", "), op.as_str());
        }
        globals = concat(globals, x_arg_global(i, j, a).as_str());
        j = j + 1;
    }
    proof {
        assert(av.take(args@.len() as int) =~= av);
    }
    (setup, list, globals)
}

fn x_call_print(i: usize, b: &Bridge, list: &String) -> (r: String)
    ensures
        r@ == "  "@ + reg("%call"@, i as nat) + " = call "@ + ret_type(b.ret@) + " @"@ + b.name@ + "("@ + list@
            + ")\n"@ + if b.ret@ == "Float"@ {
            "  "@ + reg("%fmt_float_ptr"@, i as nat)
                + " = getelementptr inbounds [4 x i8], [4 x i8]* @.fmt_float, i64 0, i64 0\n"@
                + "  call i32 (i8*, ...) @printf(i8* "@ + reg("%fmt_float_ptr"@, i as nat) + ", double "@ + reg(
                "%call"@,
                i as nat,
            ) + ")\n"@
        } else {
            "  "@ + reg("%res"@, i as nat) + " = trunc i64 "@ + reg("%call"@, i as nat) + " to i32\n"@ + int_print(
                i as nat,
                reg("%res"@, i as nat),
            )
        },
{
    let c = x_reg("%call", i);
    let mut r = concat(concat(concat(lit("  "), c.as_str()), " = call "), x_ret_type(&b.ret).as_str());
    r = concat(concat(concat(concat(concat(r, " @"), b.name.as_str()), "("), list.as_str()), ")\n");
    if b.ret == lit("Float") {
        let f = x_reg("%fmt_float_ptr", i);
        r = concat(concat(concat(r, "  "), f.as_str()), " = getelementptr inbounds [4 x i8], [4 x i8]* @.fmt_float, i64 0, i64 0\n");
        r = concat(concat(concat(concat(concat(r, "  call i32 (i8*, ...) @printf(i8* "), f.as_str()), ", double "), c.as_str()), ")\n");
    } else {
        let res = x_reg("%res", i);
        r = concat(concat(concat(concat(concat(concat(r, "  "), res.as_str()), " = trunc i64 "), c.as_str()), " to i32\n"), x_int_print(i, res.as_str()).as_str());
    }
    r
}


/// The instructions and the argument globals of the `i`-th expression.
fn x_print(i: usize, e: &Expr, strs: &Vec<String>, bs: &Vec<Bridge>) -> (r: (String, String, bool))
    requires
        lits_fit(e.view()),
        forall|s: Seq<char>| e.view() == SExpr::Print(Box::new(SExpr::StringLit(s))) ==> strs_view(strs@).contains(s),
    ensures
        r.0@ == print_code(i as nat, e.view(), strs_view(strs@), bridges_view(bs@)),
        r.1@ == print_globals(i as nat, e.view(), bridges_view(bs@)),
        r.2 == prints_float(e.view(), bridges_view(bs@)),
{
    let ghost sv = strs_view(strs@);
    let ghost bv = bridges_view(bs@);
    match e {
        Expr::Print(inner) => match &**inner {
            Expr::Number(n) => (x_int_print(i, i64_to_string(*n).as_str()), String::new(), false),
            Expr::StringLit(s) => {
                assert(*e == Expr::Print(*inner));
                assert(inner.view() == SExpr::StringLit(s@));
                assert(e.view() == SExpr::Print(Box::new(SExpr::StringLit(s@))));
                let k = match find_string(strs, s) {
                    Some(k) => k,
                    None => {
                        proof {
                            assert(sv.contains(s@));
                            let j = choose|j: int| 0 <= j < sv.len() && sv[j] == s@;
                            assert(strs@[j]@ == s@);
                        }
                        0
                    },
                };
                proof {
                    lemma_first_index(sv, s@, k as int);
                }
                (x_str_print(i, s, k), String::new(), false)
            },
            Expr::Call(name, args) => {
                proof {
                    lemma_exprs_view(args@);
                    assert(*e == Expr::Print(*inner));
                    assert(inner.view() == SExpr::Call(name@, exprs_view(args@)));
                    assert(e.view() == SExpr::Print(Box::new(SExpr::Call(name@, exprs_view(args@)))));
                }
                match x_find_bridge(bs, name) {
                    Some(k) => {
                        let b = &bs[k];
                        assert(bv[k as int] == b.view());
                        if x_args_ok(args, &b.params) {
                            proof {
                                assert forall|m: int| 0 <= m < args@.len() implies #[trigger] arg_fits(args@[m].view()) by {
                                    assert(exprs_view(args@)[m] == args@[m].view());
                                }
                            }
                            let (setup, list, globals) = x_args_parts(i, args, &b.params);
                            let tail = x_call_print(i, b, &list);
                            let code = concat(setup, tail.as_str());
                            assert(code@ =~= print_code(i as nat, e.view(), sv, bv));
                            let float = b.ret == lit("Float");
                            (code, globals, float)
                        } else {
                            (String::new(), String::new(), false)
                        }
                    },
                    None => (String::new(), String::new(), false),
                }
            },
            _ => {
                assert(print_code(i as nat, e.view(), sv, bv) =~= Seq::<char>::empty());
                (String::new(), String::new(), false)
            },
        },
        _ => (String::new(), String::new(), false),
    }
}

/// The module of the expressions `ast` with the foreign functions `bs`.
fn x_module(ast: &Vec<Expr>, bs: &Vec<Bridge>) -> (r: String)
    requires
        forall|k: int| 0 <= k < ast@.len() ==> #[trigger] lits_fit(ast@[k].view()),
    ensures
        r@ == module_text(exprs_view(ast@), bridges_view(bs@)),
{
    let ghost es = exprs_view(ast@);
    let ghost bv = bridges_view(bs@);
    proof {
        lemma_exprs_view(ast@);
    }
    // Everything after the prelude, which depends on what the prints need.
    let mut ir = String::new();
    // One declaration per foreign function name.
    let ghost ir_d = ir@;
    let mut k: usize = 0;
    proof {
        assert(bv.take(0) =~= Seq::<SBridge>::empty());
        assert(ir@ =~= ir_d + decls_text(bv.take(0)));
    }
    while k < bs.len()
        invariant
            k <= bs@.len(),
            bv == bridges_view(bs@),
            ir@ == ir_d + decls_text(bv.take(k as int)),
        decreases bs@.len() - k,
    {
        proof {
            assert(bv.take(k + 1).drop_last() =~= bv.take(k as int));
            assert(bv.take(k + 1).last() == bs@[k as int].view());
        }
        if !x_has_name(bs, k, &bs[k].name) {
            ir = concat(ir, x_decl_line(&bs[k]).as_str());
        }
        proof {
            assert(ir@ =~= ir_d + decls_text(bv.take(k + 1)));
        }
        k = k + 1;
    }
    proof {
        assert(bv.take(bs@.len() as int) =~= bv);
    }
    // The printed strings, each once, in order of first use.
    let mut strs: Vec<String> = Vec::new();
    let mut i: usize = 0;
    while i < ast.len()
        invariant
            i <= ast@.len(),
            es == exprs_view(ast@),
            es.len() == ast@.len(),
            forall|j: int| 0 <= j < ast@.len() ==> #[trigger] es[j] == ast@[j].view(),
            strs_view(strs@) == printed_strings(es.take(i as int)),
        decreases ast@.len() - i,
    {
        proof {
            assert(es.take(i + 1).drop_last() =~= es.take(i as int));
            assert(es.take(i + 1).last() == ast@[i as int].view());
        }
        match &ast[i] {
            Expr::Print(inner) => match &**inner {
                Expr::StringLit(s) => {
                    proof {
                        assert(ast@[i as int] == Expr::Print(*inner));
                        assert(inner.view() == SExpr::StringLit(s@));
                        assert(ast@[i as int].view() == SExpr::Print(Box::new(inner.view())));
                        assert(es[i as int] == SExpr::Print(Box::new(SExpr::StringLit(s@))));
                    }
                    match find_string(&strs, s) {
                        Some(k) => {
                            proof {
                                assert(strs_view(strs@)[k as int] == s@);
                                assert(strs_view(strs@).contains(s@));
                            }
                        },
                        None => {
                            let ghost before = strs@;
                            strs.push(s.clone());
                            proof {
                                assert(!strs_view(before).contains(s@)) by {
                                    if strs_view(before).contains(s@) {
                                        let j = choose|j: int| 0 <= j < strs_view(before).len() && strs_view(before)[j] == s@;
                                        assert(before[j]@ == s@);
                                    }
                                }
                                assert(strs_view(strs@) =~= strs_view(before).push(s@));
                            }
                        },
                    }
                },
                _ => {},
            },
            _ => {},
        }
        i = i + 1;
    }
    proof {
        assert(es.take(ast@.len() as int) =~= es);
        lemma_printed_bounded(es);
    }
    let ghost sv = strs_view(strs@);
    // One global per string.
    let mut k: usize = 0;
    let ghost ir0 = ir@;
    proof {
        assert(sv.take(0) =~= Seq::<Seq<char>>::empty());
        assert(ir@ =~= ir0 + globals_text(sv.take(0)));
    }
    while k < strs.len()
        invariant
            k <= strs@.len(),
            sv == strs_view(strs@),
            sv == printed_strings(es),
            forall|m: int| 0 <= m < sv.len() ==> #[trigger] sv[m].len() <= 0x1000_0000_0000_0000,
            ir@ == ir0 + globals_text(sv.take(k as int)),
        decreases strs@.len() - k,
    {
        proof {
            assert(sv[k as int] == strs@[k as int]@);
        }
        let len = x_utf8_len(&strs[k]) + 1;
        ir = concat(ir, "@.str_");
        ir = concat(ir, u64_to_string(k as u64).as_str());
        ir = concat(ir, " = private unnamed_addr constant [");
        ir = concat(ir, u64_to_string(len).as_str());
        ir = concat(ir, " x i8] c\"");
        ir = concat(ir, strs[k].as_str());
        ir = concat(ir, "\\00\"\n");
        proof {
            assert(sv.take(k + 1).drop_last() =~= sv.take(k as int));
            assert(sv.take(k + 1).last() == sv[k as int]);
            assert(ir@ =~= ir0 + globals_text(sv.take(k + 1)));
        }
        k = k + 1;
    }
    proof {
        assert(sv.take(strs@.len() as int) =~= sv);
    }
    // The instructions of each print, and the globals of call arguments.
    let mut body = String::new();
    let mut cg = String::new();
    let mut float = false;
    let mut i: usize = 0;
    proof {
        assert(es.take(0) =~= Seq::<SExpr>::empty());
    }
    while i < ast.len()
        invariant
            i <= ast@.len(),
            sv == strs_view(strs@),
            sv == printed_strings(es),
            bv == bridges_view(bs@),
            forall|j: int| 0 <= j < ast@.len() ==> #[trigger] es[j] == ast@[j].view(),
            es.len() == ast@.len(),
            forall|k: int| 0 <= k < ast@.len() ==> #[trigger] lits_fit(ast@[k].view()),
            body@ == body_text(es.take(i as int), sv, bv),
            cg@ == call_globals_text(es.take(i as int), bv),
            float == any_float_print(es.take(i as int), bv),
        decreases ast@.len() - i,
    {
        proof {
            assert(es.take(i + 1).drop_last() =~= es.take(i as int));
            assert(es.take(i + 1).last() == ast@[i as int].view());
            assert forall|s: Seq<char>| ast@[i as int].view() == SExpr::Print(Box::new(SExpr::StringLit(s))) implies sv.contains(s) by {
                lemma_printed_contains(es, i as int, s);
            }
        }
        let (code, globals, f) = x_print(i, &ast[i], &strs, bs);
        body = concat(body, code.as_str());
        cg = concat(cg, globals.as_str());
        float = float || f;
        i = i + 1;
    }
    proof {
        assert(es.take(ast@.len() as int) =~= es);
    }
    ir = concat(ir, cg.as_str());
    ir = concat(ir, "\n");
    ir = concat(ir, "define i32 @main() {\n");
    ir = concat(ir, "entry:\n");
    ir = concat(ir, body.as_str());
    ir = concat(ir, "  ret i32 0\n");
    ir = concat(ir, "}\n");
    let mut out = lit("declare i32 @printf(i8*, ...)\n\n");
    out = concat(out, "@.fmt_int = private unnamed_addr constant [4 x i8] c\"%d\\0A\\00\"\n");
    out = concat(out, "@.fmt_str = private unnamed_addr constant [4 x i8] c\"%s\\0A\\00\"\n");
    if float {
        out = concat(out, "@.fmt_float = private unnamed_addr constant [4 x i8] c\"%f\\0A\\00\"\n");
    }
    assert(out@ =~= prelude_text(any_float_print(es, bv)));
    out = concat(out, ir.as_str());
    assert(out@ =~= module_text(es, bv));
    out
}

/// The items of a program whose string literals in printed expressions are
/// short enough for their byte counts to be computed.
pub open spec fn items_fit(items: Seq<STopLevel>) -> bool {
    forall|k: int| 0 <= k < exprs_of(items).len() ==> #[trigger] lits_fit(exprs_of(items)[k])
}

pub open spec fn items_view(items: Seq<TopLevel>) -> Seq<STopLevel> {
    items.map_values(|t: TopLevel| t.view())
}

/// The LLVM IR of a program: `main` runs its top-level `print` expressions in
/// order (integer and string literals, and calls of the foreign functions that
/// its `bridge` items declare); each distinct printed string gets one global,
/// and every print names its registers after its position.
pub fn compile_to_llvm_ir(ast: &[TopLevel]) -> (r: String)
    requires
        items_fit(items_view(ast@)),
    ensures
        r@ == llvm_ir(items_view(ast@)),
{
    let ghost iv = items_view(ast@);
    let mut exprs: Vec<Expr> = Vec::new();
    let mut bs: Vec<Bridge> = Vec::new();
    let mut i: usize = 0;
    proof {
        assert(iv.take(0) =~= Seq::<STopLevel>::empty());
    }
    while i < ast.len()
        invariant
            i <= ast@.len(),
            iv == items_view(ast@),
            exprs_view(exprs@) == exprs_of(iv.take(i as int)),
            bridges_view(bs@) == bridges_of(iv.take(i as int)),
        decreases ast@.len() - i,
    {
        proof {
            assert(iv.take(i + 1).drop_last() =~= iv.take(i as int));
            assert(iv.take(i + 1).last() == ast@[i as int].view());
        }
        match &ast[i] {
            TopLevel::BridgeDecl { name, params, ret_ty, .. } => {
                let mut tys: Vec<String> = Vec::new();
                let ghost pv = params@.map_values(|p: BridgeParam| p.view()).map_values(|p: SBridgeParam| p.ty);
                let mut j: usize = 0;
                while j < params.len()
                    invariant
                        j <= params@.len(),
                        pv == params@.map_values(|p: BridgeParam| p.view()).map_values(|p: SBridgeParam| p.ty),
                        tys@.len() == j,
                        forall|m: int| 0 <= m < j ==> #[trigger] tys@[m]@ == pv[m],
                    decreases params@.len() - j,
                {
                    match &params[j] {
                        BridgeParam::Param { ty, .. } => {
                            tys.push(ty.clone());
                            assert(pv[j as int] == ty@);
                        },
                    }
                    j = j + 1;
                }
                proof {
                    assert(strs_view(tys@) =~= pv);
                }
                let ghost before = bs@;
                bs.push(Bridge { name: name.clone(), params: tys, ret: ret_ty.clone() });
                proof {
                    assert(bridges_view(bs@) =~= bridges_view(before).push(bs@[before.len() as int].view()));
                }
            },
            TopLevel::Stmt(Stmt::Expr(e)) => {
                let ghost before = exprs@;
                let d = e.duplicate();
                exprs.push(d);
                proof {
                    lemma_exprs_view_push(before, d);
                }
            },
            _ => {},
        }
        i = i + 1;
    }
    proof {
        assert(iv.take(ast@.len() as int) =~= iv);
        lemma_exprs_view(exprs@);
        assert forall|k: int| 0 <= k < exprs@.len() implies #[trigger] lits_fit(exprs@[k].view()) by {
            assert(exprs_view(exprs@)[k] == exprs@[k].view());
        }
    }
    x_module(&exprs, &bs)
}

/// Every printed string literal is among the printed strings.
proof fn lemma_printed_contains(es: Seq<SExpr>, i: int, s: Seq<char>)
    requires
        0 <= i < es.len(),
        es[i] == SExpr::Print(Box::new(SExpr::StringLit(s))),
    ensures
        printed_strings(es).contains(s),
    decreases es.len(),
{
    let prev = printed_strings(es.drop_last());
    if i < es.len() - 1 {
        assert(es.drop_last()[i] == es[i]);
        lemma_printed_contains(es.drop_last(), i, s);
        lemma_printed_grows(es, s);
    } else {
        if !prev.contains(s) {
            assert(printed_strings(es) == prev.push(s));
            assert(printed_strings(es)[prev.len() as int] == s);
        }
    }
}

/// Reading one more expression only adds strings after those found so far.
proof fn lemma_printed_prefix(es: Seq<SExpr>)
    requires
        es.len() > 0,
    ensures
        printed_strings(es.drop_last()).len() <= printed_strings(es).len(),
        forall|k: int| 0 <= k < printed_strings(es.drop_last()).len() ==> #[trigger] printed_strings(es)[k]
            == printed_strings(es.drop_last())[k],
{
    let prev = printed_strings(es.drop_last());
    match es.last() {
        SExpr::Print(inner) => match *inner {
            SExpr::StringLit(t) => {
                if !prev.contains(t) {
                    assert forall|k: int| 0 <= k < prev.len() implies #[trigger] printed_strings(es)[k] == prev[k] by {
                        assert(prev.push(t)[k] == prev[k]);
                    }
                }
            },
            _ => {},
        },
        _ => {},
    }
}

proof fn lemma_printed_grows(es: Seq<SExpr>, s: Seq<char>)
    requires
        es.len() > 0,
        printed_strings(es.drop_last()).contains(s),
    ensures
        printed_strings(es).contains(s),
{
    let prev = printed_strings(es.drop_last());
    let j = choose|j: int| 0 <= j < prev.len() && prev[j] == s;
    lemma_printed_prefix(es);
    assert(printed_strings(es)[j] == prev[j]);
}

/// Every printed string is one of the program's printed string literals, so it
/// obeys the length bound that they obey.
proof fn lemma_printed_bounded(es: Seq<SExpr>)
    requires
        forall|k: int| 0 <= k < es.len() ==> #[trigger] lits_fit(es[k]),
    ensures
        forall|k: int| 0 <= k < printed_strings(es).len() ==> #[trigger] printed_strings(es)[k].len()
            <= 0x1000_0000_0000_0000,
    decreases es.len(),
{
    if es.len() > 0 {
        let es0 = es.drop_last();
        assert forall|k: int| 0 <= k < es0.len() implies #[trigger] lits_fit(es0[k]) by {
            assert(es0[k] == es[k]);
        }
        lemma_printed_bounded(es0);
        assert(lits_fit(es[es.len() - 1]));
        let prev = printed_strings(es0);
        let cur = printed_strings(es);
        lemma_printed_prefix(es);
        assert forall|k: int| 0 <= k < cur.len() implies #[trigger] cur[k].len() <= 0x1000_0000_0000_0000 by {
            if k < prev.len() {
                assert(cur[k] == prev[k]);
            }
        }
    }
}

/// Each printed string gets exactly one global: the printed strings are
/// distinct.
pub proof fn law_printed_strings_distinct(ast: Seq<SExpr>)
    ensures
        forall|i: int, j: int|
            0 <= i < j < printed_strings(ast).len() ==> printed_strings(ast)[i] != printed_strings(ast)[j],
    decreases ast.len(),
{
    if ast.len() > 0 {
        law_printed_strings_distinct(ast.drop_last());
        lemma_printed_prefix(ast);
        let prev = printed_strings(ast.drop_last());
        let cur = printed_strings(ast);
        assert forall|i: int, j: int| 0 <= i < j < cur.len() implies cur[i] != cur[j] by {
            if j >= prev.len() {
                assert(cur[i] == prev[i]);
                if cur[i] == cur[j] {
                    assert(prev.contains(cur[j]));
                }
            } else {
                assert(cur[i] == prev[i]);
                assert(cur[j] == prev[j]);
            }
        }
    }
}

} // verus!
