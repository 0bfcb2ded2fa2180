//! The tree-walking interpreter: executes statements and expressions in an
//! environment of variables and functions.
use vstd::prelude::*;
use crate::ast::{Expr, Stmt, FuncDecl, stmts_view, exprs_view, lemma_exprs_view, lemma_stmts_view};
use crate::names::NameMap;
use crate::semantics::{
    SValue, EvalState, ExprOut, StmtOut, FuncTable, eval_expr, eval_args, eval_body, run_block,
    eval_stmt, expr_size, exprs_size, stmts_size, stmt_size, binop, compare, int_arith,
    int_div, arity_msg, bind_params, expr_to_stmt,
};
use crate::text::{u64_to_string, i64_to_string, int_decimal, nat_decimal, lit, concat};

verus! {

/// A run-time value. A float is held as the bits of an IEEE 754 double.
#[derive(Debug, Clone, PartialEq)]
pub enum Value {
    Number(i64),
    Float(u64),
    String(String),
    Bool(bool),
}

impl Value {
    pub open spec fn view(&self) -> SValue {
        match self {
            Value::Number(n) => SValue::Number(*n),
            Value::Float(b) => SValue::Float(*b),
            Value::String(s) => SValue::Str(s@),
            Value::Bool(b) => SValue::Bool(*b),
        }
    }

    /// A copy of this value.
    pub fn duplicate(&self) -> (r: Value)
        ensures
            r == *self,
    {
        match self {
            Value::Number(n) => Value::Number(*n),
            Value::Float(b) => Value::Float(*b),
            Value::String(s) => Value::String(s.clone()),
            Value::Bool(b) => Value::Bool(*b),
        }
    }
}

/// What a statement yields: its value, or the value of a `return`.
#[derive(Debug, Clone, PartialEq)]
pub enum ExecutionResult {
    Value(Value),
    Return(Value),
}

/// Floating-point arithmetic, which the host of the interpreter provides.
pub trait FloatHost {
    /// The double nearest to a decimal literal such as `-1.5`, as IEEE 754 bits.
    fn parse_float(&self, text: &String) -> u64;

    /// `lhs op rhs` on doubles given as IEEE 754 bits, for `op` one of `+ - * /`.
    fn float_arith(&self, lhs: u64, op: &String, rhs: u64) -> u64;

    /// The text that `{}` writes for the double with these IEEE 754 bits.
    fn format_float(&self, bits: u64) -> String;
}

impl Value {
    /// The text of a value as `print` shows it: an integer in decimal, a string
    /// as it is, a boolean as `true` or `false`, and a float as the host writes
    /// it.
    pub fn to_display_string<H: FloatHost>(&self, host: &H) -> (r: String)
        ensures
            match self {
                Value::Number(n) => r@ == int_decimal(*n as int),
                Value::String(s) => r@ == s@,
                Value::Bool(b) => r@ == (if *b { "true"@ } else { "false"@ }),
                Value::Float(_) => true,
            },
    {
        match self {
            Value::Number(n) => i64_to_string(*n),
            Value::Float(bits) => host.format_float(*bits),
            Value::String(s) => s.clone(),
            Value::Bool(b) => if *b {
                lit("true")
            } else {
                lit("false")
            },
        }
    }
}

/// The outcome of evaluating an expression.
pub enum Outcome {
    Val(Value),
    Error(String),
    Fault,
    OutOfFuel,
}

impl Outcome {
    pub open spec fn view(&self) -> ExprOut {
        match self {
            Outcome::Val(v) => ExprOut::Val(v.view()),
            Outcome::Error(m) => ExprOut::Error(m@),
            Outcome::Fault => ExprOut::Fault,
            Outcome::OutOfFuel => ExprOut::OutOfFuel,
        }
    }
}

pub open spec fn vars_view(m: Map<Seq<char>, Value>) -> Map<Seq<char>, SValue> {
    m.map_values(|v: Value| v.view())
}

pub open spec fn funcs_view(m: Map<Seq<char>, FuncDecl>) -> FuncTable {
    m.map_values(|f: FuncDecl| f.view())
}

pub open spec fn outs_view(o: Seq<Value>) -> Seq<SValue> {
    o.map_values(|v: Value| v.view())
}

pub open spec fn state(vars: Map<Seq<char>, Value>, out: Seq<Value>, tape: Seq<u64>) -> EvalState {
    EvalState { vars: vars_view(vars), out: outs_view(out), tape }
}

/// Evaluating `e` from variables `v0` and output `o0` reads the host replies
/// `used` and ends with `res`, variables `v1` and output `o1`, whatever replies
/// follow.
pub open spec fn expr_runs(
    fuel: nat,
    f: FuncTable,
    e: crate::ast::SExpr,
    v0: Map<Seq<char>, Value>,
    o0: Seq<Value>,
    used: Seq<u64>,
    res: ExprOut,
    v1: Map<Seq<char>, Value>,
    o1: Seq<Value>,
) -> bool {
    forall|rest: Seq<u64>| #[trigger]
        eval_expr(fuel, f, e, state(v0, o0, used + rest)) == (res, state(v1, o1, rest))
}

/// Integer division rounding toward zero, for divisions that cannot overflow.
fn x_int_div(a: i64, b: i64) -> (r: i64)
    requires
        b != 0,
        !(a == i64::MIN && b == -1),
    ensures
        r == int_div(a, b),
{
    let ma: u64 = if a < 0 { ((-(a + 1)) as u64) + 1 } else { a as u64 };
    let mb: u64 = if b < 0 { ((-(b + 1)) as u64) + 1 } else { b as u64 };
    let q: u64 = ma / mb;
    assert(q <= ma) by (nonlinear_arith)
        requires
            q == ma / mb,
            mb >= 1,
    ;
    if (a < 0) != (b < 0) {
        assert(q <= 0x8000_0000_0000_0000u64);
        if q == 0x8000_0000_0000_0000u64 {
            i64::MIN
        } else {
            -(q as i64)
        }
    } else {
        assert(q <= 0x7fff_ffff_ffff_ffffu64) by (nonlinear_arith)
            requires
                q == ma / mb,
                mb >= 1,
                ma <= 0x8000_0000_0000_0000u64,
                ma == 0x8000_0000_0000_0000u64 ==> mb >= 2,
        ;
        q as i64
    }
}

fn x_int_arith(a: i64, op: &String, b: i64) -> (r: Outcome)
    ensures
        r.view() == int_arith(a, op@, b),
{
    if *op == lit("+") {
        Outcome::Val(Value::Number(a.wrapping_add(b)))
    } else if *op == lit("-") {
        Outcome::Val(Value::Number(a.wrapping_sub(b)))
    } else if *op == lit("*") {
        Outcome::Val(Value::Number(a.wrapping_mul(b)))
    } else if *op == lit("/") {
        if b == 0 || (a == i64::MIN && b == -1) {
            Outcome::Fault
        } else {
            Outcome::Val(Value::Number(x_int_div(a, b)))
        }
    } else {
        Outcome::Error(lit("Unknown op"))
    }
}

fn x_compare(lv: &Value, op: &String, rv: &Value) -> (r: Outcome)
    ensures
        r.view() == compare(lv.view(), op@, rv.view()),
{
    match (lv, rv) {
        (Value::Number(a), Value::Number(b)) => {
            let (a, b) = (*a, *b);
            let res = if *op == lit("==") {
                a == b
            } else if *op == lit("!=") {
                a != b
            } else if *op == lit("<") {
                a < b
            } else if *op == lit(">") {
                a > b
            } else if *op == lit("<=") {
                a <= b
            } else if *op == lit(">=") {
                a >= b
            } else {
                false
            };
            Outcome::Val(Value::Bool(res))
        },
        _ => Outcome::Error(lit("Type mismatch")),
    }
}

/// The outcome of executing a statement.
pub enum StmtOutcome {
    Val(Value),
    Ret(Value),
    Error(String),
    Fault,
    OutOfFuel,
}

impl StmtOutcome {
    pub open spec fn view(&self) -> StmtOut {
        match self {
            StmtOutcome::Val(v) => StmtOut::Val(v.view()),
            StmtOutcome::Ret(v) => StmtOut::Ret(v.view()),
            StmtOutcome::Error(m) => StmtOut::Error(m@),
            StmtOutcome::Fault => StmtOut::Fault,
            StmtOutcome::OutOfFuel => StmtOut::OutOfFuel,
        }
    }
}

pub open spec fn vals_view(r: Result<Vec<Value>, Outcome>) -> Result<Seq<SValue>, ExprOut> {
    match r {
        Ok(v) => Ok(outs_view(v@)),
        Err(o) => Err(o.view()),
    }
}

pub open spec fn opt_stmt_view(r: Option<StmtOutcome>) -> Option<StmtOut> {
    match r {
        Some(o) => Some(o.view()),
        None => None,
    }
}

pub open spec fn args_runs(
    fuel: nat,
    f: FuncTable,
    a: Seq<crate::ast::SExpr>,
    v0: Map<Seq<char>, Value>,
    o0: Seq<Value>,
    used: Seq<u64>,
    res: Result<Seq<SValue>, ExprOut>,
    v1: Map<Seq<char>, Value>,
    o1: Seq<Value>,
) -> bool {
    forall|rest: Seq<u64>| #[trigger]
        eval_args(fuel, f, a, state(v0, o0, used + rest)) == (res, state(v1, o1, rest))
}

pub open spec fn body_runs(
    fuel: nat,
    f: FuncTable,
    b: Seq<crate::ast::SStmt>,
    v0: Map<Seq<char>, Value>,
    o0: Seq<Value>,
    used: Seq<u64>,
    res: ExprOut,
    v1: Map<Seq<char>, Value>,
    o1: Seq<Value>,
) -> bool {
    forall|rest: Seq<u64>| #[trigger]
        eval_body(fuel, f, b, state(v0, o0, used + rest)) == (res, state(v1, o1, rest))
}

pub open spec fn block_runs(
    fuel: nat,
    f: FuncTable,
    b: Seq<crate::ast::SStmt>,
    v0: Map<Seq<char>, Value>,
    o0: Seq<Value>,
    used: Seq<u64>,
    res: Option<StmtOut>,
    v1: Map<Seq<char>, Value>,
    o1: Seq<Value>,
) -> bool {
    forall|rest: Seq<u64>| #[trigger]
        run_block(fuel, f, b, state(v0, o0, used + rest)) == (res, state(v1, o1, rest))
}

pub open spec fn stmt_runs(
    fuel: nat,
    f: FuncTable,
    s: crate::ast::SStmt,
    v0: Map<Seq<char>, Value>,
    o0: Seq<Value>,
    used: Seq<u64>,
    res: StmtOut,
    v1: Map<Seq<char>, Value>,
    o1: Seq<Value>,
) -> bool {
    forall|rest: Seq<u64>| #[trigger]
        eval_stmt(fuel, f, s, state(v0, o0, used + rest)) == (res, state(v1, o1, rest))
}

proof fn lemma_assoc(a: Seq<u64>, b: Seq<u64>, c: Seq<u64>)
    ensures
        (a + b) + c == a + (b + c),
{
    assert((a + b) + c =~= a + (b + c));
}

proof fn lemma_empty_left(a: Seq<u64>)
    ensures
        Seq::<u64>::empty() + a == a,
{
    assert(Seq::<u64>::empty() + a =~= a);
}

pub(crate) proof fn lemma_vars_insert(m: Map<Seq<char>, Value>, k: Seq<char>, v: Value)
    ensures
        vars_view(m.insert(k, v)) == vars_view(m).insert(k, v.view()),
{
    assert(vars_view(m.insert(k, v)) =~= vars_view(m).insert(k, v.view()));
}

proof fn lemma_outs_push(o: Seq<Value>, v: Value)
    ensures
        outs_view(o.push(v)) == outs_view(o).push(v.view()),
{
    assert(outs_view(o.push(v)) =~= outs_view(o).push(v.view()));
}

/// The state of a call's callee: the variables it starts with.
proof fn lemma_funcs_view_get(m: Map<Seq<char>, FuncDecl>, k: Seq<char>)
    requires
        m.contains_key(k),
    ensures
        funcs_view(m).contains_key(k),
        funcs_view(m)[k] == m[k].view(),
{
}

pub(crate) fn x_expr<H: FloatHost>(
    funcs: &NameMap<FuncDecl>,
    vars: &mut NameMap<Value>,
    out: &mut Vec<Value>,
    e: &Expr,
    fuel: u64,
    host: &H,
) -> (r: (Outcome, Ghost<Seq<u64>>))
    ensures
        expr_runs(
            fuel as nat,
            funcs_view(funcs@),
            e.view(),
            old(vars)@,
            old(out)@,
            r.1@,
            r.0.view(),
            final(vars)@,
            final(out)@,
        ),
    decreases fuel, expr_size(e.view()), 1nat,
{
    let ghost f = funcs_view(funcs@);
    let ghost v0 = vars@;
    let ghost o0 = out@;
    match e {
        Expr::Number(n) => {
            proof {
                assert forall|rest: Seq<u64>| #[trigger] eval_expr(fuel as nat, f, e.view(), state(v0, o0, Seq::<u64>::empty() + rest)) == (ExprOut::Val(SValue::Number(*n)), state(v0, o0, rest)) by {
                    lemma_empty_left(rest);
                }
            }
            (Outcome::Val(Value::Number(*n)), Ghost(Seq::empty()))
        },
        Expr::Bool(b) => {
            proof {
                assert forall|rest: Seq<u64>| #[trigger] eval_expr(fuel as nat, f, e.view(), state(v0, o0, Seq::<u64>::empty() + rest)) == (ExprOut::Val(SValue::Bool(*b)), state(v0, o0, rest)) by {
                    lemma_empty_left(rest);
                }
            }
            (Outcome::Val(Value::Bool(*b)), Ghost(Seq::empty()))
        },
        Expr::StringLit(t) => {
            let v = Value::String(t.clone());
            proof {
                assert forall|rest: Seq<u64>| #[trigger] eval_expr(fuel as nat, f, e.view(), state(v0, o0, Seq::<u64>::empty() + rest)) == (ExprOut::Val(v.view()), state(v0, o0, rest)) by {
                    lemma_empty_left(rest);
                }
            }
            (Outcome::Val(v), Ghost(Seq::empty()))
        },
        Expr::FloatLit(t) => {
            let x = host.parse_float(t);
            proof {
                assert forall|rest: Seq<u64>| #[trigger] eval_expr(fuel as nat, f, e.view(), state(v0, o0, seq![x] + rest)) == (ExprOut::Val(SValue::Float(x)), state(v0, o0, rest)) by {
                    assert((seq![x] + rest).drop_first() =~= rest);
                }
            }
            let ghost used = seq![x];
            (Outcome::Val(Value::Float(x)), Ghost(used))
        },
        Expr::Identifier(name) => {
            let r = match vars.get(name) {
                Some(v) => Outcome::Val(v.duplicate()),
                None => Outcome::Error(concat(lit("Undefined: "), name.as_str())),
            };
            proof {
                assert forall|rest: Seq<u64>| #[trigger] eval_expr(fuel as nat, f, e.view(), state(v0, o0, Seq::<u64>::empty() + rest)) == (r.view(), state(v0, o0, rest)) by {
                    lemma_empty_left(rest);
                }
            }
            (r, Ghost(Seq::empty()))
        },
        Expr::Print(inner) => {
            let (o, u1) = x_expr(funcs, vars, out, inner, fuel, host);
            let ghost v1 = vars@;
            let ghost o1 = out@;
            match o {
                Outcome::Val(v) => {
                    out.push(v.duplicate());
                    proof {
                        lemma_outs_push(o1, v);
                        assert forall|rest: Seq<u64>| #[trigger] eval_expr(fuel as nat, f, e.view(), state(v0, o0, u1@ + rest)) == (ExprOut::Val(v.view()), state(v1, out@, rest)) by {
                            assert(eval_expr(fuel as nat, f, inner.view(), state(v0, o0, u1@ + rest)) == (ExprOut::Val(v.view()), state(v1, o1, rest)));
                        }
                    }
                    (Outcome::Val(v), u1)
                },
                _ => {
                    proof {
                        assert forall|rest: Seq<u64>| #[trigger] eval_expr(fuel as nat, f, e.view(), state(v0, o0, u1@ + rest)) == (o.view(), state(v1, o1, rest)) by {
                            assert(eval_expr(fuel as nat, f, inner.view(), state(v0, o0, u1@ + rest)) == (o.view(), state(v1, o1, rest)));
                        }
                    }
                    (o, u1)
                },
            }
        },
        Expr::Assign(name, value) => {
            let (o, u1) = x_expr(funcs, vars, out, value, fuel, host);
            let ghost v1 = vars@;
            let ghost o1 = out@;
            match o {
                Outcome::Val(v) => {
                    vars.insert(name.clone(), v.duplicate());
                    proof {
                        lemma_vars_insert(v1, name@, v);
                        assert forall|rest: Seq<u64>| #[trigger] eval_expr(fuel as nat, f, e.view(), state(v0, o0, u1@ + rest)) == (ExprOut::Val(v.view()), state(vars@, o1, rest)) by {
                            assert(eval_expr(fuel as nat, f, value.view(), state(v0, o0, u1@ + rest)) == (ExprOut::Val(v.view()), state(v1, o1, rest)));
                        }
                    }
                    (Outcome::Val(v), u1)
                },
                _ => {
                    proof {
                        assert forall|rest: Seq<u64>| #[trigger] eval_expr(fuel as nat, f, e.view(), state(v0, o0, u1@ + rest)) == (o.view(), state(v1, o1, rest)) by {
                            assert(eval_expr(fuel as nat, f, value.view(), state(v0, o0, u1@ + rest)) == (o.view(), state(v1, o1, rest)));
                        }
                    }
                    (o, u1)
                },
            }
        },
        Expr::BinOp(l, op, r) => {
            let (lo, u1) = x_expr(funcs, vars, out, l, fuel, host);
            let ghost v1 = vars@;
            let ghost o1 = out@;
            let lv = match lo {
                Outcome::Val(lv) => lv,
                _ => {
                    proof {
                        assert forall|rest: Seq<u64>| #[trigger] eval_expr(fuel as nat, f, e.view(), state(v0, o0, u1@ + rest)) == (lo.view(), state(v1, o1, rest)) by {
                            assert(eval_expr(fuel as nat, f, l.view(), state(v0, o0, u1@ + rest)) == (lo.view(), state(v1, o1, rest)));
                        }
                    }
                    return (lo, u1);
                },
            };
            let (ro, u2) = x_expr(funcs, vars, out, r, fuel, host);
            let ghost v2 = vars@;
            let ghost o2 = out@;
            let rv = match ro {
                Outcome::Val(rv) => rv,
                _ => {
                    proof {
                        assert forall|rest: Seq<u64>| #[trigger] eval_expr(fuel as nat, f, e.view(), state(v0, o0, (u1@ + u2@) + rest)) == (ro.view(), state(v2, o2, rest)) by {
                            lemma_assoc(u1@, u2@, rest);
                            assert(eval_expr(fuel as nat, f, l.view(), state(v0, o0, u1@ + (u2@ + rest))) == (ExprOut::Val(lv.view()), state(v1, o1, u2@ + rest)));
                            assert(eval_expr(fuel as nat, f, r.view(), state(v1, o1, u2@ + rest)) == (ro.view(), state(v2, o2, rest)));
                        }
                    }
                    return (ro, Ghost(u1@ + u2@));
                },
            };
            let (res, tail): (Outcome, Ghost<Seq<u64>>) = match (&lv, &rv) {
                (Value::Float(a), Value::Float(b)) => {
                    if *op == lit("+") || *op == lit("-") || *op == lit("*") || *op == lit("/") {
                        let x = host.float_arith(*a, op, *b);
                        let ghost used = seq![x];
                        (Outcome::Val(Value::Float(x)), Ghost(used))
                    } else {
                        (Outcome::Error(lit("Unknown op")), Ghost(Seq::empty()))
                    }
                },
                (Value::Number(a), Value::Number(b)) => (x_int_arith(*a, op, *b), Ghost(Seq::empty())),
                _ => (Outcome::Error(lit("Type mismatch")), Ghost(Seq::empty())),
            };
            proof {
                assert forall|rest: Seq<u64>| #[trigger] binop(lv.view(), op@, rv.view(), state(v2, o2, tail@ + rest)) == (res.view(), state(v2, o2, rest)) by {
                    lemma_empty_left(rest);
                    assert((seq![0u64] + rest).drop_first() =~= rest);
                    if tail@.len() == 1 {
                        assert((tail@ + rest).drop_first() =~= rest);
                    }
                }
                assert forall|rest: Seq<u64>| #[trigger] eval_expr(fuel as nat, f, e.view(), state(v0, o0, ((u1@ + u2@) + tail@) + rest)) == (res.view(), state(v2, o2, rest)) by {
                    lemma_assoc(u1@, u2@, tail@ + rest);
                    lemma_assoc(u1@ + u2@, tail@, rest);
                    assert(eval_expr(fuel as nat, f, l.view(), state(v0, o0, u1@ + (u2@ + (tail@ + rest)))) == (ExprOut::Val(lv.view()), state(v1, o1, u2@ + (tail@ + rest))));
                    assert(eval_expr(fuel as nat, f, r.view(), state(v1, o1, u2@ + (tail@ + rest))) == (ExprOut::Val(rv.view()), state(v2, o2, tail@ + rest)));
                    assert(binop(lv.view(), op@, rv.view(), state(v2, o2, tail@ + rest)) == (res.view(), state(v2, o2, rest)));
                }
            }
            (res, Ghost((u1@ + u2@) + tail@))
        },
        Expr::Compare(l, op, r) => {
            let (lo, u1) = x_expr(funcs, vars, out, l, fuel, host);
            let ghost v1 = vars@;
            let ghost o1 = out@;
            let lv = match lo {
                Outcome::Val(lv) => lv,
                _ => {
                    proof {
                        assert forall|rest: Seq<u64>| #[trigger] eval_expr(fuel as nat, f, e.view(), state(v0, o0, u1@ + rest)) == (lo.view(), state(v1, o1, rest)) by {
                            assert(eval_expr(fuel as nat, f, l.view(), state(v0, o0, u1@ + rest)) == (lo.view(), state(v1, o1, rest)));
                        }
                    }
                    return (lo, u1);
                },
            };
            let (ro, u2) = x_expr(funcs, vars, out, r, fuel, host);
            let ghost v2 = vars@;
            let ghost o2 = out@;
            let res = match ro {
                Outcome::Val(rv) => x_compare(&lv, op, &rv),
                _ => ro,
            };
            proof {
                assert forall|rest: Seq<u64>| #[trigger] eval_expr(fuel as nat, f, e.view(), state(v0, o0, (u1@ + u2@) + rest)) == (res.view(), state(v2, o2, rest)) by {
                    lemma_assoc(u1@, u2@, rest);
                    assert(eval_expr(fuel as nat, f, l.view(), state(v0, o0, u1@ + (u2@ + rest))) == (ExprOut::Val(lv.view()), state(v1, o1, u2@ + rest)));
                    assert(eval_expr(fuel as nat, f, r.view(), state(v1, o1, u2@ + rest)) == (ro.view(), state(v2, o2, rest)));
                }
            }
            (res, Ghost(u1@ + u2@))
        },
        Expr::Call(name, args) => {
            proof {
                lemma_exprs_view(args@);
            }
            let func = match funcs.get(name) {
                Some(func) => func,
                None => {
                    let m = concat(concat(lit("Bridge function '"), name.as_str()), "' not supported in interpreter.");
                    proof {
                        assert forall|rest: Seq<u64>| #[trigger] eval_expr(fuel as nat, f, e.view(), state(v0, o0, Seq::<u64>::empty() + rest)) == (ExprOut::Error(m@), state(v0, o0, rest)) by {
                            lemma_empty_left(rest);
                        }
                    }
                    return (Outcome::Error(m), Ghost(Seq::empty()));
                },
            };
            proof {
                lemma_funcs_view_get(funcs@, name@);
            }
            if args.len() != func.params.len() {
                let m = concat(concat(concat(concat(lit("Function '"), name.as_str()), "' expects "), u64_to_string(func.params.len() as u64).as_str()), " args, got ");
                let m = concat(m, u64_to_string(args.len() as u64).as_str());
                proof {
                    assert(int_decimal(func.params@.len() as int) == nat_decimal(func.params@.len()));
                    assert(int_decimal(args@.len() as int) == nat_decimal(args@.len()));
                    assert(m@ == arity_msg(name@, func.params@.len(), args@.len()));
                    assert forall|rest: Seq<u64>| #[trigger] eval_expr(fuel as nat, f, e.view(), state(v0, o0, Seq::<u64>::empty() + rest)) == (ExprOut::Error(m@), state(v0, o0, rest)) by {
                        lemma_empty_left(rest);
                    }
                }
                return (Outcome::Error(m), Ghost(Seq::empty()));
            }
            if fuel == 0 {
                proof {
                    assert forall|rest: Seq<u64>| #[trigger] eval_expr(fuel as nat, f, e.view(), state(v0, o0, Seq::<u64>::empty() + rest)) == (ExprOut::OutOfFuel, state(v0, o0, rest)) by {
                        lemma_empty_left(rest);
                    }
                }
                return (Outcome::OutOfFuel, Ghost(Seq::empty()));
            }
            let mut callee = vars.duplicate();
            proof {
                assert(exprs_view(args@).subrange(0, args@.len() as int) =~= exprs_view(args@));
            }
            let (ao, u1) = x_args(funcs, vars, out, args, 0, fuel, host);
            let ghost v1 = vars@;
            let ghost o1 = out@;
            let vals = match ao {
                Ok(vals) => vals,
                Err(o) => {
                    proof {
                        assert forall|rest: Seq<u64>| #[trigger] eval_expr(fuel as nat, f, e.view(), state(v0, o0, u1@ + rest)) == (o.view(), state(v1, o1, rest)) by {
                            assert(eval_args(fuel as nat, f, exprs_view(args@), state(v0, o0, u1@ + rest)) == (Err::<Seq<SValue>, ExprOut>(o.view()), state(v1, o1, rest)));
                        }
                    }
                    return (o, u1);
                },
            };
            let ghost pv = func.view().params;
            proof {
                assert(pv.subrange(0, 0) =~= Seq::<crate::ast::SFuncParam>::empty());
                assert(outs_view(vals@).subrange(0, 0) =~= Seq::<SValue>::empty());
            }
            let mut i: usize = 0;
            while i < func.params.len()
                invariant
                    i <= func.params@.len(),
                    vals@.len() == func.params@.len(),
                    pv == func.params@.map_values(|p: crate::ast::FuncParam| p.view()),
                    vars_view(callee@) == bind_params(vars_view(v0), pv.subrange(0, i as int), outs_view(vals@).subrange(0, i as int)),
                decreases func.params@.len() - i,
            {
                let ghost before = callee@;
                callee.insert(func.params[i].name.clone(), vals[i].duplicate());
                proof {
                    lemma_vars_insert(before, func.params@[i as int].name@, vals@[i as int]);
                    assert(pv.subrange(0, i + 1).drop_last() =~= pv.subrange(0, i as int));
                    assert(outs_view(vals@).subrange(0, i + 1).drop_last() =~= outs_view(vals@).subrange(0, i as int));
                }
                i = i + 1;
            }
            proof {
                assert(pv.subrange(0, pv.len() as int) =~= pv);
                assert(outs_view(vals@).subrange(0, vals@.len() as int) =~= outs_view(vals@));
            }
            let ghost c0 = callee@;
            proof {
                lemma_stmts_view(func.body@);
            }
            let (bo, u2) = x_body(funcs, &mut callee, out, &func.body, 0, fuel - 1, host);
            let ghost o2 = out@;
            proof {
                assert(stmts_view(func.body@).subrange(0, func.body@.len() as int) =~= stmts_view(func.body@));
                assert forall|rest: Seq<u64>| #[trigger] eval_expr(fuel as nat, f, e.view(), state(v0, o0, (u1@ + u2@) + rest)) == (bo.view(), state(v1, o2, rest)) by {
                    lemma_assoc(u1@, u2@, rest);
                    assert(eval_args(fuel as nat, f, exprs_view(args@), state(v0, o0, u1@ + (u2@ + rest))) == (Ok::<Seq<SValue>, ExprOut>(outs_view(vals@)), state(v1, o1, u2@ + rest)));
                    assert(eval_body((fuel - 1) as nat, f, stmts_view(func.body@), state(c0, o1, u2@ + rest)) == (bo.view(), state(callee@, o2, rest)));
                }
            }
            (bo, Ghost(u1@ + u2@))
        },
    }
}

/// Evaluates `args[k..]` from left to right.
fn x_args<H: FloatHost>(
    funcs: &NameMap<FuncDecl>,
    vars: &mut NameMap<Value>,
    out: &mut Vec<Value>,
    args: &Vec<Expr>,
    k: usize,
    fuel: u64,
    host: &H,
) -> (r: (Result<Vec<Value>, Outcome>, Ghost<Seq<u64>>))
    requires
        k <= args@.len(),
    ensures
        args_runs(
            fuel as nat,
            funcs_view(funcs@),
            exprs_view(args@).subrange(k as int, args@.len() as int),
            old(vars)@,
            old(out)@,
            r.1@,
            vals_view(r.0),
            final(vars)@,
            final(out)@,
        ),
        r.0 is Ok ==> r.0->Ok_0@.len() == args@.len() - k,
    decreases fuel, exprs_size(exprs_view(args@).subrange(k as int, args@.len() as int)), 1nat,
{
    let ghost f = funcs_view(funcs@);
    let ghost v0 = vars@;
    let ghost o0 = out@;
    let ghost a = exprs_view(args@).subrange(k as int, args@.len() as int);
    proof {
        lemma_exprs_view(args@);
    }
    if k == args.len() {
        let none: Vec<Value> = Vec::new();
        proof {
            assert(outs_view(none@) =~= Seq::<SValue>::empty());
            assert forall|rest: Seq<u64>| #[trigger] eval_args(fuel as nat, f, a, state(v0, o0, Seq::<u64>::empty() + rest)) == (Ok::<Seq<SValue>, ExprOut>(Seq::<SValue>::empty()), state(v0, o0, rest)) by {
                lemma_empty_left(rest);
                assert(outs_view(Seq::<Value>::empty()) =~= Seq::<SValue>::empty());
            }
        }
        return (Ok(none), Ghost(Seq::empty()));
    }
    proof {
        assert(a[0] == args@[k as int].view());
        assert(a.subrange(1, a.len() as int) =~= exprs_view(args@).subrange(k + 1, args@.len() as int));
    }
    let (o, u1) = x_expr(funcs, vars, out, &args[k], fuel, host);
    let ghost v1 = vars@;
    let ghost o1 = out@;
    let v = match o {
        Outcome::Val(v) => v,
        _ => {
            proof {
                assert forall|rest: Seq<u64>| #[trigger] eval_args(fuel as nat, f, a, state(v0, o0, u1@ + rest)) == (Err::<Seq<SValue>, ExprOut>(o.view()), state(v1, o1, rest)) by {
                    assert(eval_expr(fuel as nat, f, a[0], state(v0, o0, u1@ + rest)) == (o.view(), state(v1, o1, rest)));
                }
            }
            return (Err(o), u1);
        },
    };
    let (rest_r, u2) = x_args(funcs, vars, out, args, k + 1, fuel, host);
    let ghost v2 = vars@;
    let ghost o2 = out@;
    let res = match rest_r {
        Ok(mut vs) => {
            vs.insert(0, v);
            Ok(vs)
        },
        Err(e) => Err(e),
    };
    proof {
        assert forall|rest: Seq<u64>| #[trigger] eval_args(fuel as nat, f, a, state(v0, o0, (u1@ + u2@) + rest)) == (vals_view(res), state(v2, o2, rest)) by {
            lemma_assoc(u1@, u2@, rest);
            assert(eval_expr(fuel as nat, f, a[0], state(v0, o0, u1@ + (u2@ + rest))) == (ExprOut::Val(v.view()), state(v1, o1, u2@ + rest)));
            assert(eval_args(fuel as nat, f, a.subrange(1, a.len() as int), state(v1, o1, u2@ + rest)) == (vals_view(rest_r), state(v2, o2, rest)));
            match res {
                Ok(vs) => {
                    assert(outs_view(vs@) =~= seq![v.view()] + outs_view(rest_r->Ok_0@));
                },
                Err(_) => {},
            }
        }
    }
    (res, Ghost(u1@ + u2@))
}

/// Runs `body[k..]` as the body of a function.
fn x_body<H: FloatHost>(
    funcs: &NameMap<FuncDecl>,
    vars: &mut NameMap<Value>,
    out: &mut Vec<Value>,
    body: &Vec<Stmt>,
    k: usize,
    fuel: u64,
    host: &H,
) -> (r: (Outcome, Ghost<Seq<u64>>))
    requires
        k <= body@.len(),
    ensures
        body_runs(
            fuel as nat,
            funcs_view(funcs@),
            stmts_view(body@).subrange(k as int, body@.len() as int),
            old(vars)@,
            old(out)@,
            r.1@,
            r.0.view(),
            final(vars)@,
            final(out)@,
        ),
    decreases fuel, stmts_size(stmts_view(body@).subrange(k as int, body@.len() as int)), 1nat,
{
    let ghost f = funcs_view(funcs@);
    let ghost v0 = vars@;
    let ghost o0 = out@;
    let ghost b = stmts_view(body@).subrange(k as int, body@.len() as int);
    proof {
        lemma_stmts_view(body@);
    }
    if k == body.len() {
        proof {
            assert forall|rest: Seq<u64>| #[trigger] eval_body(fuel as nat, f, b, state(v0, o0, Seq::<u64>::empty() + rest)) == (ExprOut::Val(SValue::Number(0)), state(v0, o0, rest)) by {
                lemma_empty_left(rest);
            }
        }
        return (Outcome::Val(Value::Number(0)), Ghost(Seq::empty()));
    }
    proof {
        assert(b[0] == body@[k as int].view());
        assert(b.subrange(1, b.len() as int) =~= stmts_view(body@).subrange(k + 1, body@.len() as int));
    }
    let (so, u1) = x_stmt(funcs, vars, out, &body[k], fuel, host);
    let ghost v1 = vars@;
    let ghost o1 = out@;
    let res = match so {
        StmtOutcome::Val(_) => {
            let (r2, u2) = x_body(funcs, vars, out, body, k + 1, fuel, host);
            proof {
                assert forall|rest: Seq<u64>| #[trigger] eval_body(fuel as nat, f, b, state(v0, o0, (u1@ + u2@) + rest)) == (r2.view(), state(vars@, out@, rest)) by {
                    lemma_assoc(u1@, u2@, rest);
                    assert(eval_stmt(fuel as nat, f, b[0], state(v0, o0, u1@ + (u2@ + rest))) == (so.view(), state(v1, o1, u2@ + rest)));
                    assert(eval_body(fuel as nat, f, b.subrange(1, b.len() as int), state(v1, o1, u2@ + rest)) == (r2.view(), state(vars@, out@, rest)));
                }
            }
            return (r2, Ghost(u1@ + u2@));
        },
        StmtOutcome::Ret(v) => Outcome::Val(v),
        StmtOutcome::Error(m) => Outcome::Error(m),
        StmtOutcome::Fault => Outcome::Fault,
        StmtOutcome::OutOfFuel => Outcome::OutOfFuel,
    };
    proof {
        assert forall|rest: Seq<u64>| #[trigger] eval_body(fuel as nat, f, b, state(v0, o0, u1@ + rest)) == (res.view(), state(v1, o1, rest)) by {
            assert(eval_stmt(fuel as nat, f, b[0], state(v0, o0, u1@ + rest)) == (so.view(), state(v1, o1, rest)));
        }
    }
    (res, u1)
}

/// Runs `block[k..]` as a block of an `if` or a `while`.
fn x_block<H: FloatHost>(
    funcs: &NameMap<FuncDecl>,
    vars: &mut NameMap<Value>,
    out: &mut Vec<Value>,
    block: &Vec<Stmt>,
    k: usize,
    fuel: u64,
    host: &H,
) -> (r: (Option<StmtOutcome>, Ghost<Seq<u64>>))
    requires
        k <= block@.len(),
    ensures
        block_runs(
            fuel as nat,
            funcs_view(funcs@),
            stmts_view(block@).subrange(k as int, block@.len() as int),
            old(vars)@,
            old(out)@,
            r.1@,
            opt_stmt_view(r.0),
            final(vars)@,
            final(out)@,
        ),
    decreases fuel, stmts_size(stmts_view(block@).subrange(k as int, block@.len() as int)), 1nat,
{
    let ghost f = funcs_view(funcs@);
    let ghost v0 = vars@;
    let ghost o0 = out@;
    let ghost b = stmts_view(block@).subrange(k as int, block@.len() as int);
    proof {
        lemma_stmts_view(block@);
    }
    if k == block.len() {
        proof {
            assert forall|rest: Seq<u64>| #[trigger] run_block(fuel as nat, f, b, state(v0, o0, Seq::<u64>::empty() + rest)) == (None::<StmtOut>, state(v0, o0, rest)) by {
                lemma_empty_left(rest);
            }
        }
        return (None, Ghost(Seq::empty()));
    }
    proof {
        assert(b[0] == block@[k as int].view());
        assert(b.subrange(1, b.len() as int) =~= stmts_view(block@).subrange(k + 1, block@.len() as int));
    }
    let (so, u1) = x_stmt(funcs, vars, out, &block[k], fuel, host);
    let ghost v1 = vars@;
    let ghost o1 = out@;
    match so {
        StmtOutcome::Val(_) => {
            let (r2, u2) = x_block(funcs, vars, out, block, k + 1, fuel, host);
            proof {
                assert forall|rest: Seq<u64>| #[trigger] run_block(fuel as nat, f, b, state(v0, o0, (u1@ + u2@) + rest)) == (opt_stmt_view(r2), state(vars@, out@, rest)) by {
                    lemma_assoc(u1@, u2@, rest);
                    assert(eval_stmt(fuel as nat, f, b[0], state(v0, o0, u1@ + (u2@ + rest))) == (so.view(), state(v1, o1, u2@ + rest)));
                    assert(run_block(fuel as nat, f, b.subrange(1, b.len() as int), state(v1, o1, u2@ + rest)) == (opt_stmt_view(r2), state(vars@, out@, rest)));
                }
            }
            (r2, Ghost(u1@ + u2@))
        },
        _ => {
            proof {
                assert forall|rest: Seq<u64>| #[trigger] run_block(fuel as nat, f, b, state(v0, o0, u1@ + rest)) == (Some(so.view()), state(v1, o1, rest)) by {
                    assert(eval_stmt(fuel as nat, f, b[0], state(v0, o0, u1@ + rest)) == (so.view(), state(v1, o1, rest)));
                }
            }
            (Some(so), u1)
        },
    }
}

fn to_stmt_outcome(o: Outcome) -> (r: StmtOutcome)
    ensures
        r.view() == expr_to_stmt(o.view()),
{
    match o {
        Outcome::Val(v) => StmtOutcome::Val(v),
        Outcome::Error(m) => StmtOutcome::Error(m),
        Outcome::Fault => StmtOutcome::Fault,
        Outcome::OutOfFuel => StmtOutcome::OutOfFuel,
    }
}

pub(crate) fn x_stmt<H: FloatHost>(
    funcs: &NameMap<FuncDecl>,
    vars: &mut NameMap<Value>,
    out: &mut Vec<Value>,
    s: &Stmt,
    fuel: u64,
    host: &H,
) -> (r: (StmtOutcome, Ghost<Seq<u64>>))
    ensures
        stmt_runs(
            fuel as nat,
            funcs_view(funcs@),
            s.view(),
            old(vars)@,
            old(out)@,
            r.1@,
            r.0.view(),
            final(vars)@,
            final(out)@,
        ),
    decreases fuel, stmt_size(s.view()), 1nat,
{
    let ghost f = funcs_view(funcs@);
    let ghost v0 = vars@;
    let ghost o0 = out@;
    match s {
        Stmt::Expr(e) => {
            let (o, u1) = x_expr(funcs, vars, out, e, fuel, host);
            let r = to_stmt_outcome(o);
            proof {
                assert forall|rest: Seq<u64>| #[trigger] eval_stmt(fuel as nat, f, s.view(), state(v0, o0, u1@ + rest)) == (r.view(), state(vars@, out@, rest)) by {
                    assert(eval_expr(fuel as nat, f, e.view(), state(v0, o0, u1@ + rest)) == (o.view(), state(vars@, out@, rest)));
                }
            }
            (r, u1)
        },
        Stmt::Return(e) => {
            let (o, u1) = x_expr(funcs, vars, out, e, fuel, host);
            let r = match o {
                Outcome::Val(v) => StmtOutcome::Ret(v),
                _ => to_stmt_outcome(o),
            };
            proof {
                assert forall|rest: Seq<u64>| #[trigger] eval_stmt(fuel as nat, f, s.view(), state(v0, o0, u1@ + rest)) == (r.view(), state(vars@, out@, rest)) by {
                    assert(eval_expr(fuel as nat, f, e.view(), state(v0, o0, u1@ + rest)) == (o.view(), state(vars@, out@, rest)));
                }
            }
            (r, u1)
        },
        Stmt::If(c, then_b, else_b) => {
            let (o, u1) = x_expr(funcs, vars, out, c, fuel, host);
            let ghost v1 = vars@;
            let ghost o1 = out@;
            match o {
                Outcome::Val(Value::Bool(b)) => {
                    let branch = if b { then_b } else { else_b };
                    proof {
                        lemma_stmts_view(branch@);
                        assert(stmts_view(branch@).subrange(0, branch@.len() as int) =~= stmts_view(branch@));
                    }
                    let (bo, u2) = x_block(funcs, vars, out, branch, 0, fuel, host);
                    let r = match bo {
                        None => StmtOutcome::Val(Value::Bool(b)),
                        Some(stop) => stop,
                    };
                    proof {
                        assert(stmts_view(branch@).subrange(0, branch@.len() as int) =~= stmts_view(branch@));
                        assert forall|rest: Seq<u64>| #[trigger] eval_stmt(fuel as nat, f, s.view(), state(v0, o0, (u1@ + u2@) + rest)) == (r.view(), state(vars@, out@, rest)) by {
                            lemma_assoc(u1@, u2@, rest);
                            assert(eval_expr(fuel as nat, f, c.view(), state(v0, o0, u1@ + (u2@ + rest))) == (o.view(), state(v1, o1, u2@ + rest)));
                            assert(run_block(fuel as nat, f, stmts_view(branch@), state(v1, o1, u2@ + rest)) == (opt_stmt_view(bo), state(vars@, out@, rest)));
                        }
                    }
                    (r, Ghost(u1@ + u2@))
                },
                _ => {
                    let r = match o {
                        Outcome::Val(_) => StmtOutcome::Error(lit("Condition must be bool")),
                        _ => to_stmt_outcome(o),
                    };
                    proof {
                        assert forall|rest: Seq<u64>| #[trigger] eval_stmt(fuel as nat, f, s.view(), state(v0, o0, u1@ + rest)) == (r.view(), state(v1, o1, rest)) by {
                            assert(eval_expr(fuel as nat, f, c.view(), state(v0, o0, u1@ + rest)) == (o.view(), state(v1, o1, rest)));
                        }
                    }
                    (r, u1)
                },
            }
        },
        Stmt::While(c, body) => x_while(funcs, vars, out, s, c, body, fuel, host),
    }
}

fn x_while<H: FloatHost>(
    funcs: &NameMap<FuncDecl>,
    vars: &mut NameMap<Value>,
    out: &mut Vec<Value>,
    s: &Stmt,
    c: &Expr,
    body: &Vec<Stmt>,
    fuel: u64,
    host: &H,
) -> (r: (StmtOutcome, Ghost<Seq<u64>>))
    requires
        s.view() == crate::ast::SStmt::While(c.view(), stmts_view(body@)),
    ensures
        stmt_runs(
            fuel as nat,
            funcs_view(funcs@),
            s.view(),
            old(vars)@,
            old(out)@,
            r.1@,
            r.0.view(),
            final(vars)@,
            final(out)@,
        ),
    decreases fuel, stmt_size(s.view()), 1nat, 0nat,
{
    let ghost f = funcs_view(funcs@);
    let ghost v0 = vars@;
    let ghost o0 = out@;
    let ghost w = s.view();
    let mut k = fuel;
    let ghost mut used: Seq<u64> = Seq::empty();
    proof {
        lemma_stmts_view(body@);
        assert(stmts_view(body@).subrange(0, body@.len() as int) =~= stmts_view(body@));
        assert forall|rest: Seq<u64>| #[trigger] eval_stmt(fuel as nat, f, w, state(v0, o0, used + rest)) == eval_stmt(k as nat, f, w, state(vars@, out@, rest)) by {
            lemma_empty_left(rest);
        }
    }
    loop
        invariant
            k <= fuel,
            w == s.view(),
            v0 == old(vars)@,
            o0 == old(out)@,
            w == crate::ast::SStmt::While(c.view(), stmts_view(body@)),
            stmts_view(body@).subrange(0, body@.len() as int) == stmts_view(body@),
            f == funcs_view(funcs@),
            forall|rest: Seq<u64>| #[trigger] eval_stmt(fuel as nat, f, w, state(v0, o0, used + rest)) == eval_stmt(k as nat, f, w, state(vars@, out@, rest)),
        decreases k,
    {
        let ghost vk = vars@;
        let ghost ok = out@;
        if k == 0 {
            proof {
                assert forall|rest: Seq<u64>| #[trigger] eval_stmt(fuel as nat, f, w, state(v0, o0, used + rest)) == (StmtOut::OutOfFuel, state(vars@, out@, rest)) by {
                    assert(eval_stmt(k as nat, f, w, state(vars@, out@, rest)) == (StmtOut::OutOfFuel, state(vars@, out@, rest)));
                }
            }
            return (StmtOutcome::OutOfFuel, Ghost(used));
        }
        let (o, u1) = x_expr(funcs, vars, out, c, k, host);
        let ghost v1 = vars@;
        let ghost o1 = out@;
        match o {
            Outcome::Val(Value::Bool(true)) => {
                let (bo, u2) = x_block(funcs, vars, out, body, 0, k, host);
                match bo {
                    None => {
                        proof {
                            assert forall|rest: Seq<u64>| #[trigger] eval_stmt(fuel as nat, f, w, state(v0, o0, (used + (u1@ + u2@)) + rest)) == eval_stmt((k - 1) as nat, f, w, state(vars@, out@, rest)) by {
                                lemma_assoc(used, u1@ + u2@, rest);
                                lemma_assoc(u1@, u2@, rest);
                                assert(eval_stmt(fuel as nat, f, w, state(v0, o0, used + ((u1@ + u2@) + rest))) == eval_stmt(k as nat, f, w, state(vk, ok, (u1@ + u2@) + rest)));
                                assert(eval_expr(k as nat, f, c.view(), state(vk, ok, u1@ + (u2@ + rest))) == (o.view(), state(v1, o1, u2@ + rest)));
                                assert(run_block(k as nat, f, stmts_view(body@), state(v1, o1, u2@ + rest)) == (None::<StmtOut>, state(vars@, out@, rest)));
                            }
                            used = used + (u1@ + u2@);
                        }
                        k = k - 1;
                    },
                    Some(stop) => {
                        proof {
                            assert forall|rest: Seq<u64>| #[trigger] eval_stmt(fuel as nat, f, w, state(v0, o0, (used + (u1@ + u2@)) + rest)) == (stop.view(), state(vars@, out@, rest)) by {
                                lemma_assoc(used, u1@ + u2@, rest);
                                lemma_assoc(u1@, u2@, rest);
                                assert(eval_stmt(fuel as nat, f, w, state(v0, o0, used + ((u1@ + u2@) + rest))) == eval_stmt(k as nat, f, w, state(vk, ok, (u1@ + u2@) + rest)));
                                assert(eval_expr(k as nat, f, c.view(), state(vk, ok, u1@ + (u2@ + rest))) == (o.view(), state(v1, o1, u2@ + rest)));
                                assert(run_block(k as nat, f, stmts_view(body@), state(v1, o1, u2@ + rest)) == (Some(stop.view()), state(vars@, out@, rest)));
                            }
                        }
                        return (stop, Ghost(used + (u1@ + u2@)));
                    },
                }
            },
            _ => {
                let r = match o {
                    Outcome::Val(_) => StmtOutcome::Val(Value::Bool(false)),
                    _ => to_stmt_outcome(o),
                };
                proof {
                    assert forall|rest: Seq<u64>| #[trigger] eval_stmt(fuel as nat, f, w, state(v0, o0, (used + u1@) + rest)) == (r.view(), state(v1, o1, rest)) by {
                        lemma_assoc(used, u1@, rest);
                        assert(eval_stmt(fuel as nat, f, w, state(v0, o0, used + (u1@ + rest))) == eval_stmt(k as nat, f, w, state(vk, ok, u1@ + rest)));
                        assert(eval_expr(k as nat, f, c.view(), state(vk, ok, u1@ + rest)) == (o.view(), state(v1, o1, rest)));
                    }
                }
                return (r, Ghost(used + u1@));
            },
        }
    }
}

/// The bound on loop iterations and call depth of one evaluation; it is never
/// reached by a program that ends.
pub const STEP_LIMIT: u64 = 0xffff_ffff_ffff_ffff;

pub open spec fn limit_msg() -> Seq<char> {
    "Evaluation step limit reached"@
}

/// Why an evaluation produced no value.
#[derive(Debug, Clone, PartialEq)]
pub enum EvalError {
    /// A run-time error, with its message.
    Message(String),
    /// An integer division by zero, or of the least integer by -1, which aborts
    /// the program.
    DivisionFault,
}

/// The variables and functions a program runs with, and the values that its
/// `print` expressions have emitted.
pub struct Environment {
    pub variables: NameMap<Value>,
    pub functions: NameMap<FuncDecl>,
    pub output: Vec<Value>,
}

/// An outcome as the interpreter reports it: reaching the step limit is an error.
pub open spec fn settle_expr(o: ExprOut) -> ExprOut {
    match o {
        ExprOut::OutOfFuel => ExprOut::Error(limit_msg()),
        _ => o,
    }
}

pub open spec fn settle_stmt(o: StmtOut) -> StmtOut {
    match o {
        StmtOut::OutOfFuel => StmtOut::Error(limit_msg()),
        _ => o,
    }
}

pub open spec fn try_expr_view(r: Result<Value, EvalError>) -> ExprOut {
    match r {
        Ok(v) => ExprOut::Val(v.view()),
        Err(EvalError::Message(m)) => ExprOut::Error(m@),
        Err(EvalError::DivisionFault) => ExprOut::Fault,
    }
}

pub open spec fn try_stmt_view(r: Result<ExecutionResult, EvalError>) -> StmtOut {
    match r {
        Ok(ExecutionResult::Value(v)) => StmtOut::Val(v.view()),
        Ok(ExecutionResult::Return(v)) => StmtOut::Ret(v.view()),
        Err(EvalError::Message(m)) => StmtOut::Error(m@),
        Err(EvalError::DivisionFault) => StmtOut::Fault,
    }
}

pub open spec fn expr_result_view(r: Result<Value, String>) -> ExprOut {
    match r {
        Ok(v) => ExprOut::Val(v.view()),
        Err(m) => ExprOut::Error(m@),
    }
}

pub open spec fn stmt_result_view(r: Result<ExecutionResult, String>) -> StmtOut {
    match r {
        Ok(ExecutionResult::Value(v)) => StmtOut::Val(v.view()),
        Ok(ExecutionResult::Return(v)) => StmtOut::Ret(v.view()),
        Err(m) => StmtOut::Error(m@),
    }
}

/// Some replies of the host make evaluating `e` divide by zero (or the least
/// integer by -1).
pub open spec fn expr_may_fault(f: FuncTable, e: crate::ast::SExpr, vars: Map<Seq<char>, Value>, out: Seq<Value>) -> bool {
    exists|tape: Seq<u64>| #[trigger] eval_expr(STEP_LIMIT as nat, f, e, state(vars, out, tape)).0 is Fault
}

pub open spec fn stmt_may_fault(f: FuncTable, s: crate::ast::SStmt, vars: Map<Seq<char>, Value>, out: Seq<Value>) -> bool {
    exists|tape: Seq<u64>| #[trigger] eval_stmt(STEP_LIMIT as nat, f, s, state(vars, out, tape)).0 is Fault
}

impl Environment {
    pub open spec fn funcs(&self) -> FuncTable {
        funcs_view(self.functions@)
    }

    /// An environment with no variables, no functions and no output.
    pub fn new() -> (r: Self)
        ensures
            r.variables@ == Map::<Seq<char>, Value>::empty(),
            r.functions@ == Map::<Seq<char>, FuncDecl>::empty(),
            r.output@ == Seq::<Value>::empty(),
    {
        Environment { variables: NameMap::new(), functions: NameMap::new(), output: Vec::new() }
    }

    /// Evaluates an expression; a division fault is reported as such.
    pub fn try_eval_expr<H: FloatHost>(&mut self, expr: &Expr, host: &H) -> (r: Result<Value, EvalError>)
        ensures
            final(self).functions@ == old(self).functions@,
            exists|used: Seq<u64>, res: ExprOut|
                #[trigger] expr_runs(
                    STEP_LIMIT as nat,
                    old(self).funcs(),
                    expr.view(),
                    old(self).variables@,
                    old(self).output@,
                    used,
                    res,
                    final(self).variables@,
                    final(self).output@,
                ) && try_expr_view(r) == settle_expr(res),
    {
        let (o, used) = x_expr(&self.functions, &mut self.variables, &mut self.output, expr, STEP_LIMIT, host);
        let ghost res = o.view();
        let r = match o {
            Outcome::Val(v) => Ok(v),
            Outcome::Error(m) => Err(EvalError::Message(m)),
            Outcome::Fault => Err(EvalError::DivisionFault),
            Outcome::OutOfFuel => Err(EvalError::Message(lit("Evaluation step limit reached"))),
        };
        proof {
            assert(self.functions@ == old(self).functions@);
            assert(try_expr_view(r) == settle_expr(res));
            assert(expr_runs(STEP_LIMIT as nat, old(self).funcs(), expr.view(), old(self).variables@, old(self).output@, used@, res, self.variables@, self.output@));
        }
        r
    }

    /// Executes a statement; a division fault is reported as such.
    pub fn try_eval_stmt<H: FloatHost>(&mut self, stmt: &Stmt, host: &H) -> (r: Result<ExecutionResult, EvalError>)
        ensures
            final(self).functions@ == old(self).functions@,
            exists|used: Seq<u64>, res: StmtOut|
                #[trigger] stmt_runs(
                    STEP_LIMIT as nat,
                    old(self).funcs(),
                    stmt.view(),
                    old(self).variables@,
                    old(self).output@,
                    used,
                    res,
                    final(self).variables@,
                    final(self).output@,
                ) && try_stmt_view(r) == settle_stmt(res),
    {
        let (o, used) = x_stmt(&self.functions, &mut self.variables, &mut self.output, stmt, STEP_LIMIT, host);
        let ghost res = o.view();
        let r = match o {
            StmtOutcome::Val(v) => Ok(ExecutionResult::Value(v)),
            StmtOutcome::Ret(v) => Ok(ExecutionResult::Return(v)),
            StmtOutcome::Error(m) => Err(EvalError::Message(m)),
            StmtOutcome::Fault => Err(EvalError::DivisionFault),
            StmtOutcome::OutOfFuel => Err(EvalError::Message(lit("Evaluation step limit reached"))),
        };
        proof {
            assert(self.functions@ == old(self).functions@);
            assert(try_stmt_view(r) == settle_stmt(res));
            assert(stmt_runs(STEP_LIMIT as nat, old(self).funcs(), stmt.view(), old(self).variables@, old(self).output@, used@, res, self.variables@, self.output@));
        }
        r
    }

    /// Evaluates an expression: its value, or the message of the run-time error
    /// that stopped it. Assignments change the variables, and each `print`
    /// appends its value to the output.
    pub fn eval_expr<H: FloatHost>(&mut self, expr: &Expr, host: &H) -> (r: Result<Value, String>)
        requires
            !expr_may_fault(old(self).funcs(), expr.view(), old(self).variables@, old(self).output@),
        ensures
            final(self).functions@ == old(self).functions@,
            exists|used: Seq<u64>, res: ExprOut|
                #[trigger] expr_runs(
                    STEP_LIMIT as nat,
                    old(self).funcs(),
                    expr.view(),
                    old(self).variables@,
                    old(self).output@,
                    used,
                    res,
                    final(self).variables@,
                    final(self).output@,
                ) && expr_result_view(r) == settle_expr(res),
    {
        let ghost f = self.funcs();
        let ghost v0 = self.variables@;
        let ghost o0 = self.output@;
        match self.try_eval_expr(expr, host) {
            Ok(v) => Ok(v),
            Err(EvalError::Message(m)) => Err(m),
            Err(EvalError::DivisionFault) => {
                proof {
                    let (used, res) = choose|used: Seq<u64>, res: ExprOut|
                        #[trigger] expr_runs(STEP_LIMIT as nat, f, expr.view(), v0, o0, used, res, self.variables@, self.output@)
                            && ExprOut::Fault == settle_expr(res);
                    assert(used + Seq::<u64>::empty() =~= used);
                    assert(eval_expr(STEP_LIMIT as nat, f, expr.view(), state(v0, o0, used + Seq::<u64>::empty())).0 is Fault);
                }
                Err(String::new())
            },
        }
    }

    /// Executes a statement: its value or the value it returns, or the message
    /// of the run-time error that stopped it.
    pub fn eval_stmt<H: FloatHost>(&mut self, stmt: &Stmt, host: &H) -> (r: Result<ExecutionResult, String>)
        requires
            !stmt_may_fault(old(self).funcs(), stmt.view(), old(self).variables@, old(self).output@),
        ensures
            final(self).functions@ == old(self).functions@,
            exists|used: Seq<u64>, res: StmtOut|
                #[trigger] stmt_runs(
                    STEP_LIMIT as nat,
                    old(self).funcs(),
                    stmt.view(),
                    old(self).variables@,
                    old(self).output@,
                    used,
                    res,
                    final(self).variables@,
                    final(self).output@,
                ) && stmt_result_view(r) == settle_stmt(res),
    {
        let ghost f = self.funcs();
        let ghost v0 = self.variables@;
        let ghost o0 = self.output@;
        match self.try_eval_stmt(stmt, host) {
            Ok(v) => Ok(v),
            Err(EvalError::Message(m)) => Err(m),
            Err(EvalError::DivisionFault) => {
                proof {
                    let (used, res) = choose|used: Seq<u64>, res: StmtOut|
                        #[trigger] stmt_runs(STEP_LIMIT as nat, f, stmt.view(), v0, o0, used, res, self.variables@, self.output@)
                            && StmtOut::Fault == settle_stmt(res);
                    assert(used + Seq::<u64>::empty() =~= used);
                    assert(eval_stmt(STEP_LIMIT as nat, f, stmt.view(), state(v0, o0, used + Seq::<u64>::empty())).0 is Fault);
                }
                Err(String::new())
            },
        }
    }
}

} // verus!
