//! A recursive-descent parser that follows the grammar of `grammar.rs`.
use vstd::prelude::*;
use crate::token::{Token, SToken};
use crate::ast::{
    Expr, Stmt, FuncParam, FuncDecl, BridgeParam, ConfigItem, SystemUnit, TopLevel, SExpr, SStmt,
    STopLevel, SConfigItem, SSystemUnit, exprs_view, stmts_view, lemma_exprs_view_push,
    lemma_stmts_view_push, toplevels_view,
};
use crate::grammar::{
    is_tok, opt_semi, ident_at, strlit_at, type_at, num_type_at, mul_op_at, add_op_at, rel_op_at,
    p_print, p_call, p_paren, p_simple, p_atom, p_term_tail, p_term, p_bin_tail, p_bin, p_rel_tail,
    p_expr, p_args, p_args_tail, p_block, p_if_parts, p_while_parts, p_return, p_assign, p_stmt,
    p_stmts, p_param, p_params, p_params_tail, to_func_params, to_bridge_params, p_bridge, p_let,
    p_func, p_config_item, p_config_items, p_unit, p_units, p_system, p_use, p_top, p_tops,
    spec_parse_program,
};

verus! {

/// The mathematical values of a token sequence.
pub open spec fn toks_view(t: Seq<Token>) -> Seq<SToken> {
    t.map_values(|x: Token| x@)
}

pub open spec fn ov_expr(r: Option<(Expr, usize)>) -> Option<(SExpr, int)> {
    match r {
        Some((e, q)) => Some((e.view(), q as int)),
        None => None,
    }
}

pub open spec fn ov_stmt(r: Option<(Stmt, usize)>) -> Option<(SStmt, int)> {
    match r {
        Some((e, q)) => Some((e.view(), q as int)),
        None => None,
    }
}

pub open spec fn ov_top(r: Option<(TopLevel, usize)>) -> Option<(STopLevel, int)> {
    match r {
        Some((e, q)) => Some((e.view(), q as int)),
        None => None,
    }
}

/// A number for each keyword or symbol; 0 for the tokens that carry a value.
pub open spec fn skind(t: SToken) -> u8 {
    match t {
        SToken::Let => 1,
        SToken::Print => 2,
        SToken::Bridge => 3,
        SToken::Func => 4,
        SToken::Return => 5,
        SToken::Use => 6,
        SToken::System => 7,
        SToken::Package => 8,
        SToken::Service => 9,
        SToken::RArrow => 10,
        SToken::If => 11,
        SToken::Else => 12,
        SToken::While => 13,
        SToken::True => 14,
        SToken::False => 15,
        SToken::LBrace => 16,
        SToken::RBrace => 17,
        SToken::Comma => 18,
        SToken::Semicolon => 19,
        SToken::Assign => 20,
        SToken::LParen => 21,
        SToken::RParen => 22,
        SToken::Add => 23,
        SToken::Sub => 24,
        SToken::Mul => 25,
        SToken::Div => 26,
        SToken::EqEq => 27,
        SToken::NotEq => 28,
        SToken::Lt => 29,
        SToken::Gt => 30,
        SToken::Le => 31,
        SToken::Ge => 32,
        SToken::TypeInt => 33,
        SToken::TypeFloat => 34,
        SToken::TypeString => 35,
        _ => 0,
    }
}

pub(crate) fn kind(t: &Token) -> (r: u8)
    ensures
        r == skind(t@),
{
    match t {
        Token::Let => 1,
        Token::Print => 2,
        Token::Bridge => 3,
        Token::Func => 4,
        Token::Return => 5,
        Token::Use => 6,
        Token::System => 7,
        Token::Package => 8,
        Token::Service => 9,
        Token::RArrow => 10,
        Token::If => 11,
        Token::Else => 12,
        Token::While => 13,
        Token::True => 14,
        Token::False => 15,
        Token::LBrace => 16,
        Token::RBrace => 17,
        Token::Comma => 18,
        Token::Semicolon => 19,
        Token::Assign => 20,
        Token::LParen => 21,
        Token::RParen => 22,
        Token::Add => 23,
        Token::Sub => 24,
        Token::Mul => 25,
        Token::Div => 26,
        Token::EqEq => 27,
        Token::NotEq => 28,
        Token::Lt => 29,
        Token::Gt => 30,
        Token::Le => 31,
        Token::Ge => 32,
        Token::TypeInt => 33,
        Token::TypeFloat => 34,
        Token::TypeString => 35,
        _ => 0,
    }
}

/// Token equality, by value.
pub fn tok_eq(a: &Token, b: &Token) -> (r: bool)
    ensures
        r == (a@ == b@),
{
    match a {
        Token::Identifier(x) => match b {
            Token::Identifier(y) => *x == *y,
            _ => false,
        },
        Token::FloatLit(x) => match b {
            Token::FloatLit(y) => *x == *y,
            _ => false,
        },
        Token::StringLit(x) => match b {
            Token::StringLit(y) => *x == *y,
            _ => false,
        },
        Token::Number(x) => match b {
            Token::Number(y) => *x == *y,
            _ => false,
        },
        _ => {
            let r = kind(a) == kind(b);
            proof {
                if r {
                    lemma_kind_determines(a@, b@);
                }
            }
            r
        },
    }
}

proof fn lemma_kind_determines(x: SToken, y: SToken)
    requires
        skind(x) == skind(y),
        skind(x) != 0,
    ensures
        x == y,
{
    match x {
        SToken::Identifier(_) => {},
        SToken::FloatLit(_) => {},
        SToken::StringLit(_) => {},
        SToken::Number(_) => {},
        _ => {
            match y {
                SToken::Identifier(_) => {},
                SToken::FloatLit(_) => {},
                SToken::StringLit(_) => {},
                SToken::Number(_) => {},
                _ => {},
            }
        },
    }
}

pub(crate) fn at(t: &[Token], i: usize, k: &Token) -> (r: bool)
    ensures
        r == is_tok(toks_view(t@), i as int, k@),
        r ==> i < t@.len(),
{
    i < t.len() && tok_eq(&t[i], k)
}

fn semi(t: &[Token], q: usize) -> (r: usize)
    requires
        q <= t@.len() < usize::MAX,
    ensures
        r == opt_semi(toks_view(t@), q as int),
        r <= t@.len(),
{
    if at(t, q, &Token::Semicolon) {
        q + 1
    } else {
        q
    }
}

fn ident(t: &[Token], i: usize) -> (r: Option<String>)
    ensures
        match r {
            Some(s) => ident_at(toks_view(t@), i as int) == Some(s@),
            None => ident_at(toks_view(t@), i as int) is None,
        },
        r is Some ==> i < t@.len(),
{
    if i < t.len() {
        match &t[i] {
            Token::Identifier(s) => Some(s.clone()),
            _ => None,
        }
    } else {
        None
    }
}

fn strlit(t: &[Token], i: usize) -> (r: Option<String>)
    ensures
        match r {
            Some(s) => strlit_at(toks_view(t@), i as int) == Some(s@),
            None => strlit_at(toks_view(t@), i as int) is None,
        },
        r is Some ==> i < t@.len(),
{
    if i < t.len() {
        match &t[i] {
            Token::StringLit(s) => Some(s.clone()),
            _ => None,
        }
    } else {
        None
    }
}

fn type_token(t: &[Token], i: usize, allow_string: bool) -> (r: Option<String>)
    ensures
        match r {
            Some(s) => (if allow_string { type_at(toks_view(t@), i as int) } else { num_type_at(toks_view(t@), i as int) }) == Some(s@),
            None => (if allow_string { type_at(toks_view(t@), i as int) } else { num_type_at(toks_view(t@), i as int) }) is None,
        },
{
    if i < t.len() {
        match &t[i] {
            Token::TypeInt => Some("Int".to_owned()),
            Token::TypeFloat => Some("Float".to_owned()),
            Token::TypeString => if allow_string { Some("String".to_owned()) } else { None },
            _ => None,
        }
    } else {
        None
    }
}

/// The operator that a token stands for, in the given class:
/// 0 multiplicative, 1 additive, 2 comparison.
fn op_at(t: &[Token], i: usize, class: u8) -> (r: Option<String>)
    requires
        class < 3,
    ensures
        ({
            let spec_op = if class == 0 {
                mul_op_at(toks_view(t@), i as int)
            } else if class == 1 {
                add_op_at(toks_view(t@), i as int)
            } else {
                rel_op_at(toks_view(t@), i as int)
            };
            match r {
                Some(s) => spec_op == Some(s@),
                None => spec_op is None,
            }
        }),
        r is Some ==> i < t@.len(),
{
    if i >= t.len() {
        return None;
    }
    match &t[i] {
        Token::Mul => if class == 0 { Some("*".to_owned()) } else { None },
        Token::Div => if class == 0 { Some("/".to_owned()) } else { None },
        Token::Add => if class == 1 { Some("+".to_owned()) } else { None },
        Token::Sub => if class == 1 { Some("-".to_owned()) } else { None },
        Token::EqEq => if class == 2 { Some("==".to_owned()) } else { None },
        Token::NotEq => if class == 2 { Some("!=".to_owned()) } else { None },
        Token::Lt => if class == 2 { Some("<".to_owned()) } else { None },
        Token::Gt => if class == 2 { Some(">".to_owned()) } else { None },
        Token::Le => if class == 2 { Some("<=".to_owned()) } else { None },
        Token::Ge => if class == 2 { Some(">=".to_owned()) } else { None },
        _ => None,
    }
}

// ---------------------------------------------------------------------------
// Expressions
// ---------------------------------------------------------------------------

fn x_print(t: &[Token], pos: usize) -> (r: Option<(Expr, usize)>)
    requires
        pos <= t@.len() < usize::MAX,
    ensures
        ov_expr(r) == p_print(toks_view(t@), pos as int),
        r matches Some((_, q)) ==> q <= t@.len(),
    decreases t@.len() - pos, 0int,
{
    if at(t, pos, &Token::Print) && at(t, pos + 1, &Token::LParen) {
        match x_expr(t, pos + 2) {
            Some((e, q)) => if at(t, q, &Token::RParen) {
                Some((Expr::Print(Box::new(e)), q + 1))
            } else {
                None
            },
            None => None,
        }
    } else {
        None
    }
}

fn x_call(t: &[Token], pos: usize) -> (r: Option<(Expr, usize)>)
    requires
        pos <= t@.len() < usize::MAX,
    ensures
        ov_expr(r) == p_call(toks_view(t@), pos as int),
        r matches Some((_, q)) ==> q <= t@.len(),
    decreases t@.len() - pos, 0int,
{
    match ident(t, pos) {
        Some(name) => if at(t, pos + 1, &Token::LParen) {
            let (args, q) = x_args(t, pos + 2);
            if at(t, q, &Token::RParen) {
                Some((Expr::Call(name, args), q + 1))
            } else {
                None
            }
        } else {
            None
        },
        None => None,
    }
}

fn x_paren(t: &[Token], pos: usize) -> (r: Option<(Expr, usize)>)
    requires
        pos <= t@.len() < usize::MAX,
    ensures
        ov_expr(r) == p_paren(toks_view(t@), pos as int),
        r matches Some((_, q)) ==> q <= t@.len(),
    decreases t@.len() - pos, 0int,
{
    if at(t, pos, &Token::LParen) {
        match x_expr(t, pos + 1) {
            Some((e, q)) => if at(t, q, &Token::RParen) {
                Some((e, q + 1))
            } else {
                None
            },
            None => None,
        }
    } else {
        None
    }
}

fn x_simple(t: &[Token], pos: usize) -> (r: Option<(Expr, usize)>)
    requires
        pos <= t@.len() < usize::MAX,
    ensures
        ov_expr(r) == p_simple(toks_view(t@), pos as int),
        r matches Some((_, q)) ==> q <= t@.len(),
{
    if pos >= t.len() {
        return None;
    }
    match &t[pos] {
        Token::FloatLit(s) => Some((Expr::FloatLit(s.clone()), pos + 1)),
        Token::Number(n) => Some((Expr::Number(*n), pos + 1)),
        Token::StringLit(s) => Some((Expr::StringLit(s.clone()), pos + 1)),
        Token::Identifier(s) => Some((Expr::Identifier(s.clone()), pos + 1)),
        Token::True => Some((Expr::Bool(true), pos + 1)),
        Token::False => Some((Expr::Bool(false), pos + 1)),
        _ => None,
    }
}

fn x_atom(t: &[Token], pos: usize) -> (r: Option<(Expr, usize)>)
    requires
        pos <= t@.len() < usize::MAX,
    ensures
        ov_expr(r) == p_atom(toks_view(t@), pos as int),
        r matches Some((_, q)) ==> q <= t@.len(),
    decreases t@.len() - pos, 1int,
{
    let r = x_print(t, pos);
    if r.is_some() {
        return r;
    }
    let r = x_call(t, pos);
    if r.is_some() {
        return r;
    }
    let r = x_simple(t, pos);
    if r.is_some() {
        return r;
    }
    x_paren(t, pos)
}

fn x_term_tail(t: &[Token], pos: usize, acc: Expr) -> (r: (Expr, usize))
    requires
        pos <= t@.len() < usize::MAX,
    ensures
        (r.0.view(), r.1 as int) == p_term_tail(toks_view(t@), pos as int, acc.view()),
        r.1 <= t@.len(),
    decreases t@.len() - pos, 0int,
{
    match op_at(t, pos, 0) {
        Some(op) => match x_atom(t, pos + 1) {
            Some((rhs, q)) => if pos < q && q <= t.len() {
                x_term_tail(t, q, Expr::BinOp(Box::new(acc), op, Box::new(rhs)))
            } else {
                (acc, pos)
            },
            None => (acc, pos),
        },
        None => (acc, pos),
    }
}

fn x_term(t: &[Token], pos: usize) -> (r: Option<(Expr, usize)>)
    requires
        pos <= t@.len() < usize::MAX,
    ensures
        ov_expr(r) == p_term(toks_view(t@), pos as int),
        r matches Some((_, q)) ==> q <= t@.len(),
    decreases t@.len() - pos, 2int,
{
    match x_atom(t, pos) {
        Some((e, q)) => if pos < q && q <= t.len() {
            Some(x_term_tail(t, q, e))
        } else {
            None
        },
        None => None,
    }
}

fn x_bin_tail(t: &[Token], pos: usize, acc: Expr) -> (r: (Expr, usize))
    requires
        pos <= t@.len() < usize::MAX,
    ensures
        (r.0.view(), r.1 as int) == p_bin_tail(toks_view(t@), pos as int, acc.view()),
        r.1 <= t@.len(),
    decreases t@.len() - pos, 0int,
{
    match op_at(t, pos, 1) {
        Some(op) => match x_term(t, pos + 1) {
            Some((rhs, q)) => if pos < q && q <= t.len() {
                x_bin_tail(t, q, Expr::BinOp(Box::new(acc), op, Box::new(rhs)))
            } else {
                (acc, pos)
            },
            None => (acc, pos),
        },
        None => (acc, pos),
    }
}

fn x_bin(t: &[Token], pos: usize) -> (r: Option<(Expr, usize)>)
    requires
        pos <= t@.len() < usize::MAX,
    ensures
        ov_expr(r) == p_bin(toks_view(t@), pos as int),
        r matches Some((_, q)) ==> q <= t@.len(),
    decreases t@.len() - pos, 3int,
{
    match x_term(t, pos) {
        Some((e, q)) => if pos < q && q <= t.len() {
            Some(x_bin_tail(t, q, e))
        } else {
            None
        },
        None => None,
    }
}

fn x_rel_tail(t: &[Token], pos: usize, acc: Expr) -> (r: (Expr, usize))
    requires
        pos <= t@.len() < usize::MAX,
    ensures
        (r.0.view(), r.1 as int) == p_rel_tail(toks_view(t@), pos as int, acc.view()),
        r.1 <= t@.len(),
    decreases t@.len() - pos, 0int,
{
    match op_at(t, pos, 2) {
        Some(op) => match x_bin(t, pos + 1) {
            Some((rhs, q)) => if pos < q && q <= t.len() {
                x_rel_tail(t, q, Expr::Compare(Box::new(acc), op, Box::new(rhs)))
            } else {
                (acc, pos)
            },
            None => (acc, pos),
        },
        None => (acc, pos),
    }
}

/// Parses one expression starting at token `pos`.
pub fn x_expr(t: &[Token], pos: usize) -> (r: Option<(Expr, usize)>)
    requires
        pos <= t@.len() < usize::MAX,
    ensures
        ov_expr(r) == p_expr(toks_view(t@), pos as int),
        r matches Some((_, q)) ==> q <= t@.len(),
    decreases t@.len() - pos, 4int,
{
    match x_bin(t, pos) {
        Some((e, q)) => if pos < q && q <= t.len() {
            Some(x_rel_tail(t, q, e))
        } else {
            None
        },
        None => None,
    }
}

fn x_args(t: &[Token], pos: usize) -> (r: (Vec<Expr>, usize))
    requires
        pos <= t@.len() < usize::MAX,
    ensures
        (exprs_view(r.0@), r.1 as int) == p_args(toks_view(t@), pos as int),
        r.1 <= t@.len(),
    decreases t@.len() - pos, 5int,
{
    match x_expr(t, pos) {
        Some((e, q)) => if pos < q && q <= t.len() {
            let mut acc: Vec<Expr> = Vec::new();
            let ghost e_view = e.view();
            acc.push(e);
            proof {
                lemma_exprs_view_push(Seq::empty(), acc@[0]);
                assert(acc@ =~= Seq::<Expr>::empty().push(acc@[0]));
                assert(exprs_view(Seq::<Expr>::empty()) =~= Seq::<SExpr>::empty());
                assert(exprs_view(acc@) =~= seq![e_view]);
            }
            x_args_tail(t, q, acc)
        } else {
            (Vec::new(), pos)
        },
        None => (Vec::new(), pos),
    }
}

fn x_args_tail(t: &[Token], pos: usize, acc: Vec<Expr>) -> (r: (Vec<Expr>, usize))
    requires
        pos <= t@.len() < usize::MAX,
    ensures
        (exprs_view(r.0@), r.1 as int) == p_args_tail(toks_view(t@), pos as int, exprs_view(acc@)),
        r.1 <= t@.len(),
    decreases t@.len() - pos, 0int,
{
    if at(t, pos, &Token::Comma) {
        match x_expr(t, pos + 1) {
            Some((e, q)) => if pos < q && q <= t.len() {
                let mut acc = acc;
                let ghost old_acc = acc@;
                proof {
                    lemma_exprs_view_push(old_acc, e);
                }
                acc.push(e);
                x_args_tail(t, q, acc)
            } else {
                (acc, pos + 1)
            },
            None => (acc, pos + 1),
        }
    } else {
        (acc, pos)
    }
}

// ---------------------------------------------------------------------------
// Statements
// ---------------------------------------------------------------------------

fn x_block(t: &[Token], pos: usize) -> (r: Option<(Vec<Stmt>, usize)>)
    requires
        pos <= t@.len() < usize::MAX,
    ensures
        match r {
            Some((b, q)) => p_block(toks_view(t@), pos as int) == Some((stmts_view(b@), q as int)),
            None => p_block(toks_view(t@), pos as int) is None,
        },
        r matches Some((_, q)) ==> q <= t@.len(),
    decreases t@.len() - pos, 8int,
{
    if at(t, pos, &Token::LBrace) {
        let (body, q) = x_stmts(t, pos + 1);
        if at(t, q, &Token::RBrace) {
            Some((body, q + 1))
        } else {
            None
        }
    } else {
        None
    }
}

#[verifier::rlimit(80)]
fn x_if_parts(t: &[Token], pos: usize) -> (r: Option<(Expr, Vec<Stmt>, Vec<Stmt>, usize)>)
    requires
        pos <= t@.len() < usize::MAX,
    ensures
        match r {
            Some((c, a, b, q)) => p_if_parts(toks_view(t@), pos as int) == Some(
                (c.view(), stmts_view(a@), stmts_view(b@), q as int),
            ),
            None => p_if_parts(toks_view(t@), pos as int) is None,
        },
        r matches Some((_, _, _, q)) ==> q <= t@.len(),
    decreases t@.len() - pos, 0int,
{
    if at(t, pos, &Token::If) && at(t, pos + 1, &Token::LParen) {
        match x_expr(t, pos + 2) {
            Some((c, q)) => if pos < q && q <= t.len() && at(t, q, &Token::RParen) {
                match x_block(t, q + 1) {
                    Some((then_b, q2)) => if pos < q2 && q2 <= t.len() && at(t, q2, &Token::Else) {
                        match x_block(t, q2 + 1) {
                            Some((else_b, q3)) => Some((c, then_b, else_b, q3)),
                            None => Some((c, then_b, Vec::new(), q2)),
                        }
                    } else {
                        Some((c, then_b, Vec::new(), q2))
                    },
                    None => None,
                }
            } else {
                None
            },
            None => None,
        }
    } else {
        None
    }
}

#[verifier::rlimit(50)]
fn x_while_parts(t: &[Token], pos: usize) -> (r: Option<(Expr, Vec<Stmt>, usize)>)
    requires
        pos <= t@.len() < usize::MAX,
    ensures
        match r {
            Some((c, b, q)) => p_while_parts(toks_view(t@), pos as int) == Some(
                (c.view(), stmts_view(b@), q as int),
            ),
            None => p_while_parts(toks_view(t@), pos as int) is None,
        },
        r matches Some((_, _, q)) ==> q <= t@.len(),
    decreases t@.len() - pos, 0int,
{
    if at(t, pos, &Token::While) && at(t, pos + 1, &Token::LParen) {
        match x_expr(t, pos + 2) {
            Some((c, q)) => if pos < q && q <= t.len() && at(t, q, &Token::RParen) {
                match x_block(t, q + 1) {
                    Some((body, q2)) => Some((c, body, q2)),
                    None => None,
                }
            } else {
                None
            },
            None => None,
        }
    } else {
        None
    }
}

fn x_return(t: &[Token], pos: usize) -> (r: Option<(Stmt, usize)>)
    requires
        pos <= t@.len() < usize::MAX,
    ensures
        ov_stmt(r) == p_return(toks_view(t@), pos as int),
        r matches Some((_, q)) ==> q <= t@.len(),
    decreases t@.len() - pos, 0int,
{
    if at(t, pos, &Token::Return) {
        match x_expr(t, pos + 1) {
            Some((e, q)) => Some((Stmt::Return(Box::new(e)), semi(t, q))),
            None => None,
        }
    } else {
        None
    }
}

fn x_assign(t: &[Token], pos: usize) -> (r: Option<(Stmt, usize)>)
    requires
        pos <= t@.len() < usize::MAX,
    ensures
        ov_stmt(r) == p_assign(toks_view(t@), pos as int),
        r matches Some((_, q)) ==> q <= t@.len(),
    decreases t@.len() - pos, 0int,
{
    match ident(t, pos) {
        Some(name) => if at(t, pos + 1, &Token::Assign) {
            match x_expr(t, pos + 2) {
                Some((e, q)) => Some((Stmt::Expr(Expr::Assign(name, Box::new(e))), semi(t, q))),
                None => None,
            }
        } else {
            None
        },
        None => None,
    }
}

fn x_stmt(t: &[Token], pos: usize) -> (r: Option<(Stmt, usize)>)
    requires
        pos <= t@.len() < usize::MAX,
    ensures
        ov_stmt(r) == p_stmt(toks_view(t@), pos as int),
        r matches Some((_, q)) ==> q <= t@.len(),
    decreases t@.len() - pos, 6int,
{
    match x_if_parts(t, pos) {
        Some((c, a, b, q)) => {
            return Some((Stmt::If(Box::new(c), a, b), q));
        },
        None => {},
    }
    match x_while_parts(t, pos) {
        Some((c, b, q)) => {
            return Some((Stmt::While(Box::new(c), b), q));
        },
        None => {},
    }
    let r = x_return(t, pos);
    if r.is_some() {
        return r;
    }
    let r = x_assign(t, pos);
    if r.is_some() {
        return r;
    }
    match x_expr(t, pos) {
        Some((e, q)) => Some((Stmt::Expr(e), semi(t, q))),
        None => None,
    }
}

fn x_stmts(t: &[Token], pos: usize) -> (r: (Vec<Stmt>, usize))
    requires
        pos <= t@.len() < usize::MAX,
    ensures
        (stmts_view(r.0@), r.1 as int) == p_stmts(toks_view(t@), pos as int),
        r.1 <= t@.len(),
    decreases t@.len() - pos, 7int,
{
    let ghost ts = toks_view(t@);
    let mut acc: Vec<Stmt> = Vec::new();
    let mut p = pos;
    loop
        invariant
            ts == toks_view(t@),
            pos <= p <= t@.len() < usize::MAX,
            p_stmts(ts, pos as int) == (
                stmts_view(acc@) + p_stmts(ts, p as int).0,
                p_stmts(ts, p as int).1,
            ),
        decreases t@.len() - p,
    {
        match x_stmt(t, p) {
            Some((st, q)) => if p < q && q <= t.len() {
                proof {
                    lemma_stmts_view_push(acc@, st);
                    let rest = p_stmts(ts, q as int);
                    assert(stmts_view(acc@) + (seq![st.view()] + rest.0) =~= stmts_view(acc@.push(st)) + rest.0);
                }
                acc.push(st);
                p = q;
            } else {
                proof {
                    assert(stmts_view(acc@) + Seq::<SStmt>::empty() =~= stmts_view(acc@));
                }
                return (acc, p);
            },
            None => {
                proof {
                    assert(stmts_view(acc@) + Seq::<SStmt>::empty() =~= stmts_view(acc@));
                }
                return (acc, p);
            },
        }
    }
}

// ---------------------------------------------------------------------------
// Declarations
// ---------------------------------------------------------------------------

pub open spec fn pairs_view(v: Seq<(String, String)>) -> Seq<(Seq<char>, Seq<char>)> {
    v.map_values(|p: (String, String)| (p.0@, p.1@))
}

pub open spec fn configs_view(v: Seq<ConfigItem>) -> Seq<SConfigItem> {
    v.map_values(|c: ConfigItem| c.view())
}

pub open spec fn units_view(v: Seq<SystemUnit>) -> Seq<SSystemUnit> {
    v.map_values(|u: SystemUnit| u.view())
}

fn x_param(t: &[Token], pos: usize) -> (r: Option<((String, String), usize)>)
    requires
        pos <= t@.len() < usize::MAX,
    ensures
        match r {
            Some((p, q)) => p_param(toks_view(t@), pos as int) == Some(((p.0@, p.1@), q as int)),
            None => p_param(toks_view(t@), pos as int) is None,
        },
        r matches Some((_, q)) ==> q <= t@.len(),
{
    match ident(t, pos) {
        Some(name) => if at(t, pos + 1, &Token::Assign) {
            match type_token(t, pos + 2, true) {
                Some(ty) => Some(((name, ty), pos + 3)),
                None => None,
            }
        } else {
            None
        },
        None => None,
    }
}

fn x_params(t: &[Token], pos: usize) -> (r: (Vec<(String, String)>, usize))
    requires
        pos <= t@.len() < usize::MAX,
    ensures
        (pairs_view(r.0@), r.1 as int) == p_params(toks_view(t@), pos as int),
        r.1 <= t@.len(),
{
    let ghost ts = toks_view(t@);
    match x_param(t, pos) {
        None => {
            proof {
                assert(pairs_view(Seq::<(String, String)>::empty()) =~= Seq::empty());
            }
            (Vec::new(), pos)
        },
        Some((first, q)) => {
            let mut acc: Vec<(String, String)> = Vec::new();
            acc.push(first);
            let mut p = q;
            proof {
                assert(pairs_view(acc@) =~= seq![(acc@[0].0@, acc@[0].1@)]);
            }
            loop
                invariant
                    ts == toks_view(t@),
                    p <= t@.len() < usize::MAX,
                    p_params(ts, pos as int) == p_params_tail(ts, p as int, pairs_view(acc@)),
                decreases t@.len() - p,
            {
                if at(t, p, &Token::Comma) {
                    match x_param(t, p + 1) {
                        Some((prm, q)) => {
                            proof {
                                assert(pairs_view(acc@.push(prm)) =~= pairs_view(acc@).push(
                                    (prm.0@, prm.1@),
                                ));
                            }
                            acc.push(prm);
                            p = q;
                        },
                        None => {
                            return (acc, p + 1);
                        },
                    }
                } else {
                    return (acc, p);
                }
            }
        },
    }
}

fn to_func_param_vec(v: Vec<(String, String)>) -> (r: Vec<FuncParam>)
    ensures
        r@.map_values(|p: FuncParam| p.view()) == to_func_params(pairs_view(v@)),
{
    let mut r: Vec<FuncParam> = Vec::new();
    let mut i: usize = 0;
    while i < v.len()
        invariant
            i <= v@.len(),
            r@.len() == i,
            forall|j: int| 0 <= j < i ==> #[trigger] r@[j].view() == to_func_params(pairs_view(v@))[j],
        decreases v@.len() - i,
    {
        let (n, ty) = (v[i].0.clone(), v[i].1.clone());
        r.push(FuncParam { name: n, ty });
        i = i + 1;
    }
    assert(r@.map_values(|p: FuncParam| p.view()) =~= to_func_params(pairs_view(v@)));
    r
}

fn to_bridge_param_vec(v: Vec<(String, String)>) -> (r: Vec<BridgeParam>)
    ensures
        r@.map_values(|p: BridgeParam| p.view()) == to_bridge_params(pairs_view(v@)),
{
    let mut r: Vec<BridgeParam> = Vec::new();
    let mut i: usize = 0;
    while i < v.len()
        invariant
            i <= v@.len(),
            r@.len() == i,
            forall|j: int| 0 <= j < i ==> #[trigger] r@[j].view() == to_bridge_params(pairs_view(v@))[j],
        decreases v@.len() - i,
    {
        let (n, ty) = (v[i].0.clone(), v[i].1.clone());
        r.push(BridgeParam::Param { name: n, ty });
        i = i + 1;
    }
    assert(r@.map_values(|p: BridgeParam| p.view()) =~= to_bridge_params(pairs_view(v@)));
    r
}

fn x_bridge(t: &[Token], pos: usize) -> (r: Option<(TopLevel, usize)>)
    requires
        pos <= t@.len() < usize::MAX,
    ensures
        ov_top(r) == p_bridge(toks_view(t@), pos as int),
        r matches Some((_, q)) ==> q <= t@.len(),
{
    if !at(t, pos, &Token::Bridge) {
        return None;
    }
    let lang = match ident(t, pos + 1) {
        Some(s) => s,
        None => return None,
    };
    let lib = match strlit(t, pos + 2) {
        Some(s) => s,
        None => return None,
    };
    if !(at(t, pos + 3, &Token::LBrace) && at(t, pos + 4, &Token::Func)) {
        return None;
    }
    let name = match ident(t, pos + 5) {
        Some(s) => s,
        None => return None,
    };
    if !at(t, pos + 6, &Token::LParen) {
        return None;
    }
    let (ps, q) = x_params(t, pos + 7);
    if !(at(t, q, &Token::RParen) && at(t, q + 1, &Token::RArrow)) {
        return None;
    }
    let ret_ty = match type_token(t, q + 2, false) {
        Some(s) => s,
        None => return None,
    };
    if !at(t, q + 3, &Token::RBrace) {
        return None;
    }
    let params = to_bridge_param_vec(ps);
    Some((TopLevel::BridgeDecl { lang, lib, name, params, ret_ty }, q + 4))
}

fn x_let(t: &[Token], pos: usize) -> (r: Option<(TopLevel, usize)>)
    requires
        pos <= t@.len() < usize::MAX,
    ensures
        ov_top(r) == p_let(toks_view(t@), pos as int),
        r matches Some((_, q)) ==> q <= t@.len(),
{
    if !at(t, pos, &Token::Let) {
        return None;
    }
    let name = match ident(t, pos + 1) {
        Some(s) => s,
        None => return None,
    };
    if !at(t, pos + 2, &Token::Assign) {
        return None;
    }
    match x_expr(t, pos + 3) {
        Some((e, q)) => Some((TopLevel::LetDecl { name, value: Box::new(e) }, semi(t, q))),
        None => None,
    }
}

fn x_func(t: &[Token], pos: usize) -> (r: Option<(TopLevel, usize)>)
    requires
        pos <= t@.len() < usize::MAX,
    ensures
        ov_top(r) == p_func(toks_view(t@), pos as int),
        r matches Some((_, q)) ==> q <= t@.len(),
{
    if !at(t, pos, &Token::Func) {
        return None;
    }
    let name = match ident(t, pos + 1) {
        Some(s) => s,
        None => return None,
    };
    if !at(t, pos + 2, &Token::LParen) {
        return None;
    }
    let (ps, q) = x_params(t, pos + 3);
    if !(at(t, q, &Token::RParen) && at(t, q + 1, &Token::RArrow)) {
        return None;
    }
    let ret_ty = match type_token(t, q + 2, true) {
        Some(s) => s,
        None => return None,
    };
    if !at(t, q + 3, &Token::LBrace) {
        return None;
    }
    let (body, q2) = x_stmts(t, q + 4);
    if !at(t, q2, &Token::RBrace) {
        return None;
    }
    let params = to_func_param_vec(ps);
    Some((TopLevel::FuncDecl(FuncDecl { name, params, ret_ty, body }), q2 + 1))
}

fn x_config_item(t: &[Token], pos: usize) -> (r: Option<(ConfigItem, usize)>)
    requires
        pos <= t@.len() < usize::MAX,
    ensures
        match r {
            Some((c, q)) => p_config_item(toks_view(t@), pos as int) == Some((c.view(), q as int)),
            None => p_config_item(toks_view(t@), pos as int) is None,
        },
        r matches Some((_, q)) ==> q <= t@.len(),
{
    let key = match ident(t, pos) {
        Some(s) => s,
        None => return None,
    };
    if !at(t, pos + 1, &Token::Assign) {
        return None;
    }
    match x_expr(t, pos + 2) {
        Some((e, q)) => Some((ConfigItem { key, value: e }, semi(t, q))),
        None => None,
    }
}

fn x_config_items(t: &[Token], pos: usize) -> (r: (Vec<ConfigItem>, usize))
    requires
        pos <= t@.len() < usize::MAX,
    ensures
        (configs_view(r.0@), r.1 as int) == p_config_items(toks_view(t@), pos as int),
        r.1 <= t@.len(),
{
    let ghost ts = toks_view(t@);
    let mut acc: Vec<ConfigItem> = Vec::new();
    let mut p = pos;
    loop
        invariant
            ts == toks_view(t@),
            pos <= p <= t@.len() < usize::MAX,
            p_config_items(ts, pos as int) == (
                configs_view(acc@) + p_config_items(ts, p as int).0,
                p_config_items(ts, p as int).1,
            ),
        decreases t@.len() - p,
    {
        match x_config_item(t, p) {
            Some((c, q)) => if p < q && q <= t.len() {
                proof {
                    let rest = p_config_items(ts, q as int);
                    assert(configs_view(acc@) + (seq![c.view()] + rest.0) =~= configs_view(acc@.push(c)) + rest.0);
                }
                acc.push(c);
                p = q;
            } else {
                proof {
                    assert(configs_view(acc@) + Seq::<SConfigItem>::empty() =~= configs_view(acc@));
                }
                return (acc, p);
            },
            None => {
                proof {
                    assert(configs_view(acc@) + Seq::<SConfigItem>::empty() =~= configs_view(acc@));
                }
                return (acc, p);
            },
        }
    }
}

fn x_unit(t: &[Token], pos: usize) -> (r: Option<(SystemUnit, usize)>)
    requires
        pos <= t@.len() < usize::MAX,
    ensures
        match r {
            Some((u, q)) => p_unit(toks_view(t@), pos as int) == Some((u.view(), q as int)),
            None => p_unit(toks_view(t@), pos as int) is None,
        },
        r matches Some((_, q)) ==> q <= t@.len(),
{
    let is_package = at(t, pos, &Token::Package);
    if !(is_package || at(t, pos, &Token::Service)) {
        return None;
    }
    let name = match strlit(t, pos + 1) {
        Some(s) => s,
        None => return None,
    };
    if !at(t, pos + 2, &Token::LBrace) {
        return None;
    }
    let (config, q) = x_config_items(t, pos + 3);
    if !at(t, q, &Token::RBrace) {
        return None;
    }
    if is_package {
        Some((SystemUnit::Package { name, config }, q + 1))
    } else {
        Some((SystemUnit::Service { name, config }, q + 1))
    }
}

fn x_units(t: &[Token], pos: usize) -> (r: (Vec<SystemUnit>, usize))
    requires
        pos <= t@.len() < usize::MAX,
    ensures
        (units_view(r.0@), r.1 as int) == p_units(toks_view(t@), pos as int),
        r.1 <= t@.len(),
{
    let ghost ts = toks_view(t@);
    let mut acc: Vec<SystemUnit> = Vec::new();
    let mut p = pos;
    loop
        invariant
            ts == toks_view(t@),
            pos <= p <= t@.len() < usize::MAX,
            p_units(ts, pos as int) == (
                units_view(acc@) + p_units(ts, p as int).0,
                p_units(ts, p as int).1,
            ),
        decreases t@.len() - p,
    {
        match x_unit(t, p) {
            Some((u, q)) => if p < q && q <= t.len() {
                proof {
                    let rest = p_units(ts, q as int);
                    assert(units_view(acc@) + (seq![u.view()] + rest.0) =~= units_view(acc@.push(u)) + rest.0);
                }
                acc.push(u);
                p = q;
            } else {
                proof {
                    assert(units_view(acc@) + Seq::<SSystemUnit>::empty() =~= units_view(acc@));
                }
                return (acc, p);
            },
            None => {
                proof {
                    assert(units_view(acc@) + Seq::<SSystemUnit>::empty() =~= units_view(acc@));
                }
                return (acc, p);
            },
        }
    }
}

fn x_system(t: &[Token], pos: usize) -> (r: Option<(TopLevel, usize)>)
    requires
        pos <= t@.len() < usize::MAX,
    ensures
        ov_top(r) == p_system(toks_view(t@), pos as int),
        r matches Some((_, q)) ==> q <= t@.len(),
{
    if !(at(t, pos, &Token::System) && at(t, pos + 1, &Token::LBrace)) {
        return None;
    }
    let (units, q) = x_units(t, pos + 2);
    if !at(t, q, &Token::RBrace) {
        return None;
    }
    Some((TopLevel::SystemDecl { units }, q + 1))
}

fn x_use(t: &[Token], pos: usize) -> (r: Option<(TopLevel, usize)>)
    requires
        pos <= t@.len() < usize::MAX,
    ensures
        ov_top(r) == p_use(toks_view(t@), pos as int),
        r matches Some((_, q)) ==> q <= t@.len(),
{
    if !at(t, pos, &Token::Use) {
        return None;
    }
    match strlit(t, pos + 1) {
        Some(path) => Some((TopLevel::UseDecl { path }, semi(t, pos + 2))),
        None => None,
    }
}

fn x_top(t: &[Token], pos: usize) -> (r: Option<(TopLevel, usize)>)
    requires
        pos <= t@.len() < usize::MAX,
    ensures
        ov_top(r) == p_top(toks_view(t@), pos as int),
        r matches Some((_, q)) ==> q <= t@.len(),
{
    let r = x_bridge(t, pos);
    if r.is_some() {
        return r;
    }
    let r = x_let(t, pos);
    if r.is_some() {
        return r;
    }
    let r = x_func(t, pos);
    if r.is_some() {
        return r;
    }
    let r = x_system(t, pos);
    if r.is_some() {
        return r;
    }
    let r = x_use(t, pos);
    if r.is_some() {
        return r;
    }
    match x_if_parts(t, pos) {
        Some((c, a, b, q)) => {
            return Some((TopLevel::Stmt(Stmt::If(Box::new(c), a, b)), semi(t, q)));
        },
        None => {},
    }
    match x_while_parts(t, pos) {
        Some((c, b, q)) => {
            return Some((TopLevel::Stmt(Stmt::While(Box::new(c), b)), semi(t, q)));
        },
        None => {},
    }
    match x_expr(t, pos) {
        Some((e, q)) => Some((TopLevel::Stmt(Stmt::Expr(e)), semi(t, q))),
        None => None,
    }
}

fn x_tops(t: &[Token]) -> (r: (Vec<TopLevel>, usize))
    requires
        t@.len() < usize::MAX,
    ensures
        (toplevels_view(r.0@), r.1 as int) == p_tops(toks_view(t@), 0),
        r.1 <= t@.len(),
{
    let ghost ts = toks_view(t@);
    let mut acc: Vec<TopLevel> = Vec::new();
    let mut p: usize = 0;
    loop
        invariant
            ts == toks_view(t@),
            p <= t@.len() < usize::MAX,
            p_tops(ts, 0) == (toplevels_view(acc@) + p_tops(ts, p as int).0, p_tops(ts, p as int).1),
        decreases t@.len() - p,
    {
        match x_top(t, p) {
            Some((x, q)) => if p < q && q <= t.len() {
                proof {
                    let rest = p_tops(ts, q as int);
                    assert(toplevels_view(acc@) + (seq![x.view()] + rest.0) =~= toplevels_view(acc@.push(x)) + rest.0);
                }
                acc.push(x);
                p = q;
            } else {
                proof {
                    assert(toplevels_view(acc@) + Seq::<STopLevel>::empty() =~= toplevels_view(acc@));
                }
                return (acc, p);
            },
            None => {
                proof {
                    assert(toplevels_view(acc@) + Seq::<STopLevel>::empty() =~= toplevels_view(acc@));
                }
                return (acc, p);
            },
        }
    }
}

/// Where a program stopped parsing: the index of the first token that no
/// top-level item takes.
#[derive(Debug, Clone, Copy, PartialEq, Eq)]
pub struct ParseError {
    pub position: usize,
}

/// The parser of whole Arcaea programs.
pub struct ArcParser;

/// The parser of whole Arcaea programs.
pub fn parser() -> ArcParser {
    ArcParser
}

impl ArcParser {
    /// Parses a program: top-level items up to the last token.
    pub fn parse(&self, tokens: &[Token]) -> (r: Result<Vec<TopLevel>, ParseError>)
        requires
            tokens@.len() < usize::MAX,
        ensures
            match (r, spec_parse_program(toks_view(tokens@))) {
                (Ok(items), Ok(spec_items)) => toplevels_view(items@) == spec_items,
                (Err(e), Err(q)) => e.position == q,
                _ => false,
            },
    {
        let (items, q) = x_tops(tokens);
        if q == tokens.len() {
            Ok(items)
        } else {
            Err(ParseError { position: q })
        }
    }
}

} // verus!
