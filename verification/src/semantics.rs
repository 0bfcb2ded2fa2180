//! The meaning of Arcaea programs: a step-bounded evaluator over syntax trees.
//!
//! Floating-point arithmetic is carried out by the host (see `FloatHost`); the
//! semantics reads the host's replies, in the order the evaluator asks for them,
//! from the `tape` of the state. `fuel` bounds the number of loop iterations and
//! the depth of function calls.
use vstd::prelude::*;
use crate::ast::{SExpr, SStmt, SFuncDecl, SFuncParam};
use crate::text::int_decimal;

verus! {

/// A run-time value. A float is held as the bits of an IEEE 754 double.
pub enum SValue {
    Number(i64),
    Float(u64),
    Str(Seq<char>),
    Bool(bool),
}

/// The state that evaluation reads and changes: the variables, the values that
/// `print` has emitted so far, and the host's replies not yet read.
pub struct EvalState {
    pub vars: Map<Seq<char>, SValue>,
    pub out: Seq<SValue>,
    pub tape: Seq<u64>,
}

/// The outcome of evaluating an expression.
pub enum ExprOut {
    Val(SValue),
    /// A run-time error, with its message.
    Error(Seq<char>),
    /// An integer division by zero, or of the least number by -1.
    Fault,
    /// The bound on loop iterations and call depth was reached.
    OutOfFuel,
}

/// The outcome of executing a statement.
pub enum StmtOut {
    /// The statement completed with this value.
    Val(SValue),
    /// A `return` was executed with this value.
    Ret(SValue),
    Error(Seq<char>),
    Fault,
    OutOfFuel,
}

/// The functions that calls can reach, by name.
pub type FuncTable = Map<Seq<char>, SFuncDecl>;

pub open spec fn expr_size(e: SExpr) -> nat
    decreases e,
{
    match e {
        SExpr::Print(x) => expr_size(*x) + 1,
        SExpr::Call(_, args) => exprs_size(args) + 1,
        SExpr::BinOp(l, _, r) => expr_size(*l) + expr_size(*r) + 1,
        SExpr::Compare(l, _, r) => expr_size(*l) + expr_size(*r) + 1,
        SExpr::Assign(_, x) => expr_size(*x) + 1,
        _ => 1,
    }
}

pub open spec fn exprs_size(s: Seq<SExpr>) -> nat
    decreases s,
{
    if s.len() == 0 {
        0
    } else {
        expr_size(s[0]) + exprs_size(s.subrange(1, s.len() as int)) + 1
    }
}

pub open spec fn stmt_size(s: SStmt) -> nat
    decreases s,
{
    match s {
        SStmt::Expr(e) => expr_size(e) + 1,
        SStmt::Return(e) => expr_size(e) + 1,
        SStmt::If(c, t, e) => expr_size(c) + stmts_size(t) + stmts_size(e) + 1,
        SStmt::While(c, b) => expr_size(c) + stmts_size(b) + 1,
    }
}

pub open spec fn stmts_size(s: Seq<SStmt>) -> nat
    decreases s,
{
    if s.len() == 0 {
        0
    } else {
        stmt_size(s[0]) + stmts_size(s.subrange(1, s.len() as int)) + 1
    }
}

/// The next reply of the host, and the state without it.
pub open spec fn take_reply(st: EvalState) -> (u64, EvalState) {
    if st.tape.len() > 0 {
        (st.tape[0], EvalState { tape: st.tape.drop_first(), ..st })
    } else {
        (0, st)
    }
}

pub open spec fn undefined_msg(name: Seq<char>) -> Seq<char> {
    "Undefined: "@ + name
}

pub open spec fn bridge_msg(name: Seq<char>) -> Seq<char> {
    "Bridge function '"@ + name + "' not supported in interpreter."@
}

pub open spec fn arity_msg(name: Seq<char>, expected: nat, got: nat) -> Seq<char> {
    "Function '"@ + name + "' expects "@ + int_decimal(expected as int) + " args, got "@
        + int_decimal(got as int)
}

pub open spec fn is_arith_op(op: Seq<char>) -> bool {
    op == "+"@ || op == "-"@ || op == "*"@ || op == "/"@
}

/// Integer arithmetic: `+`, `-` and `*` wrap around; `/` truncates and faults on
/// a zero divisor and on the least number divided by -1.
pub open spec fn int_arith(a: i64, op: Seq<char>, b: i64) -> ExprOut {
    if op == "+"@ {
        ExprOut::Val(SValue::Number(a.wrapping_add(b)))
    } else if op == "-"@ {
        ExprOut::Val(SValue::Number(a.wrapping_sub(b)))
    } else if op == "*"@ {
        ExprOut::Val(SValue::Number(a.wrapping_mul(b)))
    } else if op == "/"@ {
        if b == 0 || (a == i64::MIN && b == -1) {
            ExprOut::Fault
        } else {
            ExprOut::Val(SValue::Number(int_div(a, b)))
        }
    } else {
        ExprOut::Error("Unknown op"@)
    }
}

/// Division rounding toward zero.
pub open spec fn int_div(a: i64, b: i64) -> i64 {
    let q = (if a < 0 { -a } else { a as int }) / (if b < 0 { -b } else { b as int });
    (if (a < 0) != (b < 0) { -q } else { q }) as i64
}

/// A binary arithmetic operation on two values. Float operands go to the host.
pub open spec fn binop(lv: SValue, op: Seq<char>, rv: SValue, st: EvalState) -> (ExprOut, EvalState) {
    match (lv, rv) {
        (SValue::Float(_), SValue::Float(_)) => if is_arith_op(op) {
            let (x, st2) = take_reply(st);
            (ExprOut::Val(SValue::Float(x)), st2)
        } else {
            (ExprOut::Error("Unknown op"@), st)
        },
        (SValue::Number(a), SValue::Number(b)) => (int_arith(a, op, b), st),
        _ => (ExprOut::Error("Type mismatch"@), st),
    }
}

/// A comparison of two integers; an unknown operator yields `false`.
pub open spec fn compare(lv: SValue, op: Seq<char>, rv: SValue) -> ExprOut {
    match (lv, rv) {
        (SValue::Number(a), SValue::Number(b)) => ExprOut::Val(
            SValue::Bool(
                if op == "=="@ {
                    a == b
                } else if op == "!="@ {
                    a != b
                } else if op == "<"@ {
                    a < b
                } else if op == ">"@ {
                    a > b
                } else if op == "<="@ {
                    a <= b
                } else if op == ">="@ {
                    a >= b
                } else {
                    false
                },
            ),
        ),
        _ => ExprOut::Error("Type mismatch"@),
    }
}

/// The variables of a call: the caller's variables with each parameter bound to
/// its argument, in order.
pub open spec fn bind_params(vars: Map<Seq<char>, SValue>, params: Seq<SFuncParam>, vals: Seq<SValue>) -> Map<
    Seq<char>,
    SValue,
>
    decreases params.len(),
{
    if params.len() == 0 || vals.len() == 0 {
        vars
    } else {
        bind_params(vars, params.drop_last(), vals.drop_last()).insert(
            params.last().name,
            vals.last(),
        )
    }
}

pub open spec fn eval_expr(fuel: nat, funcs: FuncTable, e: SExpr, st: EvalState) -> (ExprOut, EvalState)
    decreases fuel, expr_size(e),
{
    match e {
        SExpr::Number(n) => (ExprOut::Val(SValue::Number(n)), st),
        SExpr::FloatLit(_) => {
            let (x, st2) = take_reply(st);
            (ExprOut::Val(SValue::Float(x)), st2)
        },
        SExpr::StringLit(s) => (ExprOut::Val(SValue::Str(s)), st),
        SExpr::Bool(b) => (ExprOut::Val(SValue::Bool(b)), st),
        SExpr::Identifier(name) => if st.vars.contains_key(name) {
            (ExprOut::Val(st.vars[name]), st)
        } else {
            (ExprOut::Error(undefined_msg(name)), st)
        },
        SExpr::BinOp(l, op, r) => {
            let (lo, st1) = eval_expr(fuel, funcs, *l, st);
            match lo {
                ExprOut::Val(lv) => {
                    let (ro, st2) = eval_expr(fuel, funcs, *r, st1);
                    match ro {
                        ExprOut::Val(rv) => binop(lv, op, rv, st2),
                        _ => (ro, st2),
                    }
                },
                _ => (lo, st1),
            }
        },
        SExpr::Compare(l, op, r) => {
            let (lo, st1) = eval_expr(fuel, funcs, *l, st);
            match lo {
                ExprOut::Val(lv) => {
                    let (ro, st2) = eval_expr(fuel, funcs, *r, st1);
                    match ro {
                        ExprOut::Val(rv) => (compare(lv, op, rv), st2),
                        _ => (ro, st2),
                    }
                },
                _ => (lo, st1),
            }
        },
        SExpr::Assign(name, value) => {
            let (o, st1) = eval_expr(fuel, funcs, *value, st);
            match o {
                ExprOut::Val(v) => (o, EvalState { vars: st1.vars.insert(name, v), ..st1 }),
                _ => (o, st1),
            }
        },
        SExpr::Print(inner) => {
            let (o, st1) = eval_expr(fuel, funcs, *inner, st);
            match o {
                ExprOut::Val(v) => (o, EvalState { out: st1.out.push(v), ..st1 }),
                _ => (o, st1),
            }
        },
        SExpr::Call(name, args) => if !funcs.contains_key(name) {
            (ExprOut::Error(bridge_msg(name)), st)
        } else if args.len() != funcs[name].params.len() {
            (ExprOut::Error(arity_msg(name, funcs[name].params.len(), args.len())), st)
        } else if fuel == 0 {
            (ExprOut::OutOfFuel, st)
        } else {
            let f = funcs[name];
            let (ao, st1) = eval_args(fuel, funcs, args, st);
            match ao {
                Ok(vals) => {
                    let callee = EvalState {
                        vars: bind_params(st.vars, f.params, vals),
                        out: st1.out,
                        tape: st1.tape,
                    };
                    let (bo, st2) = eval_body((fuel - 1) as nat, funcs, f.body, callee);
                    (bo, EvalState { vars: st1.vars, out: st2.out, tape: st2.tape })
                },
                Err(o) => (o, st1),
            }
        },
    }
}

/// Evaluates arguments from left to right; stops at the first that does not
/// yield a value.
pub open spec fn eval_args(fuel: nat, funcs: FuncTable, args: Seq<SExpr>, st: EvalState) -> (
    Result<Seq<SValue>, ExprOut>,
    EvalState,
)
    decreases fuel, exprs_size(args),
{
    if args.len() == 0 {
        (Ok(Seq::empty()), st)
    } else {
        let (o, st1) = eval_expr(fuel, funcs, args[0], st);
        match o {
            ExprOut::Val(v) => {
                let (rest, st2) = eval_args(fuel, funcs, args.subrange(1, args.len() as int), st1);
                match rest {
                    Ok(vs) => (Ok(seq![v] + vs), st2),
                    Err(e) => (Err(e), st2),
                }
            },
            _ => (Err(o), st1),
        }
    }
}

/// Runs the body of a function: the value of the first `return`, or 0 when the
/// body ends without one.
pub open spec fn eval_body(fuel: nat, funcs: FuncTable, body: Seq<SStmt>, st: EvalState) -> (
    ExprOut,
    EvalState,
)
    decreases fuel, stmts_size(body),
{
    if body.len() == 0 {
        (ExprOut::Val(SValue::Number(0)), st)
    } else {
        let (so, st1) = eval_stmt(fuel, funcs, body[0], st);
        match so {
            StmtOut::Val(_) => eval_body(fuel, funcs, body.subrange(1, body.len() as int), st1),
            StmtOut::Ret(v) => (ExprOut::Val(v), st1),
            StmtOut::Error(m) => (ExprOut::Error(m), st1),
            StmtOut::Fault => (ExprOut::Fault, st1),
            StmtOut::OutOfFuel => (ExprOut::OutOfFuel, st1),
        }
    }
}

/// Runs a block: `None` when every statement completed, otherwise the outcome of
/// the statement that stopped it (a `return` or a failure).
pub open spec fn run_block(fuel: nat, funcs: FuncTable, block: Seq<SStmt>, st: EvalState) -> (
    Option<StmtOut>,
    EvalState,
)
    decreases fuel, stmts_size(block),
{
    if block.len() == 0 {
        (None, st)
    } else {
        let (so, st1) = eval_stmt(fuel, funcs, block[0], st);
        match so {
            StmtOut::Val(_) => run_block(fuel, funcs, block.subrange(1, block.len() as int), st1),
            _ => (Some(so), st1),
        }
    }
}

pub open spec fn expr_to_stmt(o: ExprOut) -> StmtOut {
    match o {
        ExprOut::Val(v) => StmtOut::Val(v),
        ExprOut::Error(m) => StmtOut::Error(m),
        ExprOut::Fault => StmtOut::Fault,
        ExprOut::OutOfFuel => StmtOut::OutOfFuel,
    }
}

pub open spec fn eval_stmt(fuel: nat, funcs: FuncTable, s: SStmt, st: EvalState) -> (StmtOut, EvalState)
    decreases fuel, stmt_size(s),
{
    match s {
        SStmt::Expr(e) => {
            let (o, st1) = eval_expr(fuel, funcs, e, st);
            (expr_to_stmt(o), st1)
        },
        SStmt::Return(e) => {
            let (o, st1) = eval_expr(fuel, funcs, e, st);
            match o {
                ExprOut::Val(v) => (StmtOut::Ret(v), st1),
                _ => (expr_to_stmt(o), st1),
            }
        },
        SStmt::If(c, then_b, else_b) => {
            let (o, st1) = eval_expr(fuel, funcs, c, st);
            match o {
                ExprOut::Val(SValue::Bool(b)) => {
                    let (bo, st2) = run_block(fuel, funcs, if b { then_b } else { else_b }, st1);
                    match bo {
                        None => (StmtOut::Val(SValue::Bool(b)), st2),
                        Some(stop) => (stop, st2),
                    }
                },
                ExprOut::Val(_) => (StmtOut::Error("Condition must be bool"@), st1),
                _ => (expr_to_stmt(o), st1),
            }
        },
        SStmt::While(c, body) => if fuel == 0 {
            (StmtOut::OutOfFuel, st)
        } else {
            let (o, st1) = eval_expr(fuel, funcs, c, st);
            match o {
                ExprOut::Val(SValue::Bool(true)) => {
                    let (bo, st2) = run_block(fuel, funcs, body, st1);
                    match bo {
                        None => eval_stmt((fuel - 1) as nat, funcs, SStmt::While(c, body), st2),
                        Some(stop) => (stop, st2),
                    }
                },
                ExprOut::Val(_) => (StmtOut::Val(SValue::Bool(false)), st1),
                _ => (expr_to_stmt(o), st1),
            }
        },
    }
}

/// `b` begins with `a`.
pub open spec fn extends(a: Seq<SValue>, b: Seq<SValue>) -> bool {
    a.len() <= b.len() && forall|i: int| 0 <= i < a.len() ==> #[trigger] b[i] == a[i]
}

/// Evaluating an expression never takes back output: what was printed before
/// stays, in order, and new output only follows it.
pub proof fn law_expr_output_grows(fuel: nat, funcs: FuncTable, e: SExpr, st: EvalState)
    ensures
        extends(st.out, eval_expr(fuel, funcs, e, st).1.out),
    decreases fuel, expr_size(e), 1nat,
{
    match e {
        SExpr::BinOp(l, op, r) => {
            let (lo, st1) = eval_expr(fuel, funcs, *l, st);
            law_expr_output_grows(fuel, funcs, *l, st);
            if lo is Val {
                let (ro, st2) = eval_expr(fuel, funcs, *r, st1);
                law_expr_output_grows(fuel, funcs, *r, st1);
            }
        },
        SExpr::Compare(l, op, r) => {
            let (lo, st1) = eval_expr(fuel, funcs, *l, st);
            law_expr_output_grows(fuel, funcs, *l, st);
            if lo is Val {
                law_expr_output_grows(fuel, funcs, *r, st1);
            }
        },
        SExpr::Assign(_, value) => {
            law_expr_output_grows(fuel, funcs, *value, st);
        },
        SExpr::Print(inner) => {
            law_expr_output_grows(fuel, funcs, *inner, st);
        },
        SExpr::Call(name, args) => {
            if funcs.contains_key(name) && args.len() == funcs[name].params.len() && fuel > 0 {
                let f = funcs[name];
                let (ao, st1) = eval_args(fuel, funcs, args, st);
                law_args_output_grows(fuel, funcs, args, st);
                if ao is Ok {
                    let callee = EvalState {
                        vars: bind_params(st.vars, f.params, ao->Ok_0),
                        out: st1.out,
                        tape: st1.tape,
                    };
                    law_body_output_grows((fuel - 1) as nat, funcs, f.body, callee);
                }
            }
        },
        _ => {},
    }
}

/// Evaluating arguments never takes back output.
pub proof fn law_args_output_grows(fuel: nat, funcs: FuncTable, args: Seq<SExpr>, st: EvalState)
    ensures
        extends(st.out, eval_args(fuel, funcs, args, st).1.out),
    decreases fuel, exprs_size(args), 1nat,
{
    if args.len() > 0 {
        let (o, st1) = eval_expr(fuel, funcs, args[0], st);
        law_expr_output_grows(fuel, funcs, args[0], st);
        if o is Val {
            law_args_output_grows(fuel, funcs, args.subrange(1, args.len() as int), st1);
        }
    }
}

/// Running a function body never takes back output.
pub proof fn law_body_output_grows(fuel: nat, funcs: FuncTable, body: Seq<SStmt>, st: EvalState)
    ensures
        extends(st.out, eval_body(fuel, funcs, body, st).1.out),
    decreases fuel, stmts_size(body), 1nat,
{
    if body.len() > 0 {
        let (so, st1) = eval_stmt(fuel, funcs, body[0], st);
        law_stmt_output_grows(fuel, funcs, body[0], st);
        if so is Val {
            law_body_output_grows(fuel, funcs, body.subrange(1, body.len() as int), st1);
        }
    }
}

/// Running a block never takes back output.
pub proof fn law_block_output_grows(fuel: nat, funcs: FuncTable, block: Seq<SStmt>, st: EvalState)
    ensures
        extends(st.out, run_block(fuel, funcs, block, st).1.out),
    decreases fuel, stmts_size(block), 1nat,
{
    if block.len() > 0 {
        let (so, st1) = eval_stmt(fuel, funcs, block[0], st);
        law_stmt_output_grows(fuel, funcs, block[0], st);
        if so is Val {
            law_block_output_grows(fuel, funcs, block.subrange(1, block.len() as int), st1);
        }
    }
}

/// Executing a statement never takes back output.
pub proof fn law_stmt_output_grows(fuel: nat, funcs: FuncTable, s: SStmt, st: EvalState)
    ensures
        extends(st.out, eval_stmt(fuel, funcs, s, st).1.out),
    decreases fuel, stmt_size(s), 1nat,
{
    match s {
        SStmt::Expr(e) => law_expr_output_grows(fuel, funcs, e, st),
        SStmt::Return(e) => law_expr_output_grows(fuel, funcs, e, st),
        SStmt::If(c, then_b, else_b) => {
            let (o, st1) = eval_expr(fuel, funcs, c, st);
            law_expr_output_grows(fuel, funcs, c, st);
            if let ExprOut::Val(SValue::Bool(b)) = o {
                law_block_output_grows(fuel, funcs, if b { then_b } else { else_b }, st1);
            }
        },
        SStmt::While(c, body) => {
            if fuel > 0 {
                let (o, st1) = eval_expr(fuel, funcs, c, st);
                law_expr_output_grows(fuel, funcs, c, st);
                if o == ExprOut::Val(SValue::Bool(true)) {
                    let (bo, st2) = run_block(fuel, funcs, body, st1);
                    law_block_output_grows(fuel, funcs, body, st1);
                    if bo is None {
                        law_stmt_output_grows((fuel - 1) as nat, funcs, SStmt::While(c, body), st2);
                    }
                }
            }
        },
    }
}

/// An assignment binds the name to the value it yields, and reading the name
/// right after gives that value back.
pub proof fn law_assignment_then_read(fuel: nat, funcs: FuncTable, name: Seq<char>, value: SExpr, st: EvalState)
    ensures
        ({
            let (o, st1) = eval_expr(fuel, funcs, SExpr::Assign(name, Box::new(value)), st);
            o is Val ==> {
                &&& st1.vars.contains_key(name)
                &&& st1.vars[name] == o->Val_0
                &&& eval_expr(fuel, funcs, SExpr::Identifier(name), st1) == (o, st1)
            }
        }),
{
}

/// `print` yields the value of its operand and appends exactly that value to
/// the output; nothing else changes.
pub proof fn law_print_appends(fuel: nat, funcs: FuncTable, inner: SExpr, st: EvalState)
    ensures
        ({
            let (o, st1) = eval_expr(fuel, funcs, SExpr::Print(Box::new(inner)), st);
            let (oi, sti) = eval_expr(fuel, funcs, inner, st);
            &&& o == oi
            &&& st1.vars == sti.vars
            &&& st1.tape == sti.tape
            &&& st1.out == (if o is Val { sti.out.push(o->Val_0) } else { sti.out })
        }),
{
}

/// A call leaves the caller's variables as its arguments left them: the
/// callee's assignments stay local.
pub proof fn law_call_keeps_caller_variables(fuel: nat, funcs: FuncTable, name: Seq<char>, args: Seq<SExpr>, st: EvalState)
    ensures
        ({
            let (o, st1) = eval_expr(fuel, funcs, SExpr::Call(name, args), st);
            let (ao, sta) = eval_args(fuel, funcs, args, st);
            (funcs.contains_key(name) && args.len() == funcs[name].params.len() && fuel > 0)
                ==> st1.vars == sta.vars
        }),
{
}


/// The comparison `l op r` of two integer literals.
pub open spec fn compare_lits(fuel: nat, funcs: FuncTable, a: i64, op: Seq<char>, b: i64, st: EvalState) -> (ExprOut, EvalState) {
    eval_expr(fuel, funcs, SExpr::Compare(Box::new(SExpr::Number(a)), op, Box::new(SExpr::Number(b))), st)
}

/// Comparing two integers yields the truth of the comparison and changes
/// nothing: `<` and `>` are the strict orders, `<=` and `>=` the non-strict
/// ones, `==` and `!=` equality and its negation.
pub proof fn law_compare_integers(fuel: nat, funcs: FuncTable, a: i64, b: i64, st: EvalState)
    ensures
        compare_lits(fuel, funcs, a, "<"@, b, st) == (ExprOut::Val(SValue::Bool(a < b)), st),
        compare_lits(fuel, funcs, a, ">"@, b, st) == (ExprOut::Val(SValue::Bool(a > b)), st),
        compare_lits(fuel, funcs, a, "<="@, b, st) == (ExprOut::Val(SValue::Bool(a <= b)), st),
        compare_lits(fuel, funcs, a, ">="@, b, st) == (ExprOut::Val(SValue::Bool(a >= b)), st),
        compare_lits(fuel, funcs, a, "=="@, b, st) == (ExprOut::Val(SValue::Bool(a == b)), st),
        compare_lits(fuel, funcs, a, "!="@, b, st) == (ExprOut::Val(SValue::Bool(a != b)), st),
{
    reveal_strlit("<");
    reveal_strlit(">");
    reveal_strlit("<=");
    reveal_strlit(">=");
    reveal_strlit("==");
    reveal_strlit("!=");
    assert(eval_expr(fuel, funcs, SExpr::Number(a), st) == (ExprOut::Val(SValue::Number(a)), st));
    assert(eval_expr(fuel, funcs, SExpr::Number(b), st) == (ExprOut::Val(SValue::Number(b)), st));
    assert("<"@ != "=="@ && "<"@ != "!="@) by {
        assert("<"@.len() != "=="@.len());
        assert("<"@.len() != "!="@.len());
    }
    assert(">"@ != "=="@ && ">"@ != "!="@ && ">"@ != "<"@) by {
        assert(">"@.len() != "=="@.len());
        assert(">"@.len() != "!="@.len());
        assert(">"@[0] != "<"@[0]);
    }
    assert("<="@ != "=="@ && "<="@ != "!="@) by {
        assert("<="@[0] != "=="@[0]);
        assert("<="@[0] != "!="@[0]);
    }
    assert("!="@ != "=="@) by {
        assert("!="@[0] != "=="@[0]);
    }
    assert("<="@ != "<"@ && "<="@ != ">"@ && ">="@ != "<"@ && ">="@ != ">"@) by {
        assert("<="@.len() != "<"@.len());
        assert("<="@.len() != ">"@.len());
        assert(">="@.len() != "<"@.len());
        assert(">="@.len() != ">"@.len());
    }
    assert(">="@ != "=="@ && ">="@ != "!="@ && ">="@ != "<="@) by {
        assert(">="@[0] != "=="@[0]);
        assert(">="@[0] != "!="@[0]);
        assert(">="@[0] != "<="@[0]);
    }
}

/// `>` is strict and is `<` with its operands swapped; `>=` is `<=` swapped;
/// of `a < b`, `a == b` and `a > b` exactly one holds.
pub proof fn law_comparisons_relate(fuel: nat, funcs: FuncTable, a: i64, b: i64, st: EvalState)
    ensures
        compare_lits(fuel, funcs, a, ">"@, a, st).0 == ExprOut::Val(SValue::Bool(false)),
        compare_lits(fuel, funcs, a, "<"@, a, st).0 == ExprOut::Val(SValue::Bool(false)),
        compare_lits(fuel, funcs, a, ">"@, b, st) == compare_lits(fuel, funcs, b, "<"@, a, st),
        compare_lits(fuel, funcs, a, ">="@, b, st) == compare_lits(fuel, funcs, b, "<="@, a, st),
        compare_lits(fuel, funcs, a, ">="@, b, st).0 == ExprOut::Val(SValue::Bool(true))
            <==> compare_lits(fuel, funcs, a, "<"@, b, st).0 == ExprOut::Val(SValue::Bool(false)),
        compare_lits(fuel, funcs, a, "<"@, b, st).0 == ExprOut::Val(SValue::Bool(true))
            || compare_lits(fuel, funcs, a, "=="@, b, st).0 == ExprOut::Val(SValue::Bool(true))
            || compare_lits(fuel, funcs, a, ">"@, b, st).0 == ExprOut::Val(SValue::Bool(true)),
{
    law_compare_integers(fuel, funcs, a, b, st);
    law_compare_integers(fuel, funcs, b, a, st);
    law_compare_integers(fuel, funcs, a, a, st);
}

} // verus!
