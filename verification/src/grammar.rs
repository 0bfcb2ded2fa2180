//! The grammar of the Arcaea language, as ordered-choice parsing functions over
//! token sequences.
//!
//! Each function looks at the tokens from position `pos` and either fails
//! (`None`) or yields a value and the position just after what it consumed.
//! Alternatives are tried in order and the first that succeeds is taken;
//! repetitions take as many items as succeed. Every construct that can start a
//! repetition consumes at least one token; the `pos < q` tests below state this
//! where the recursion relies on it.
use vstd::prelude::*;
use crate::token::SToken;
use crate::ast::{SExpr, SStmt, SFuncParam, SFuncDecl, SBridgeParam, SConfigItem, SSystemUnit, STopLevel};

verus! {

pub open spec fn tk(t: Seq<SToken>, i: int) -> Option<SToken> {
    if 0 <= i < t.len() {
        Some(t[i])
    } else {
        None
    }
}

pub open spec fn is_tok(t: Seq<SToken>, i: int, k: SToken) -> bool {
    tk(t, i) == Some(k)
}

/// A position that a parser may continue from after consuming input at `pos`.
pub open spec fn advanced(t: Seq<SToken>, pos: int, q: int) -> bool {
    pos < q <= t.len()
}

pub open spec fn opt_semi(t: Seq<SToken>, q: int) -> int {
    if is_tok(t, q, SToken::Semicolon) {
        q + 1
    } else {
        q
    }
}

pub open spec fn ident_at(t: Seq<SToken>, i: int) -> Option<Seq<char>> {
    match tk(t, i) {
        Some(SToken::Identifier(s)) => Some(s),
        _ => None,
    }
}

pub open spec fn strlit_at(t: Seq<SToken>, i: int) -> Option<Seq<char>> {
    match tk(t, i) {
        Some(SToken::StringLit(s)) => Some(s),
        _ => None,
    }
}

/// `Int`, `Float` or `String`.
pub open spec fn type_at(t: Seq<SToken>, i: int) -> Option<Seq<char>> {
    match tk(t, i) {
        Some(SToken::TypeInt) => Some("Int"@),
        Some(SToken::TypeFloat) => Some("Float"@),
        Some(SToken::TypeString) => Some("String"@),
        _ => None,
    }
}

/// `Int` or `Float` (the result types a bridge accepts).
pub open spec fn num_type_at(t: Seq<SToken>, i: int) -> Option<Seq<char>> {
    match tk(t, i) {
        Some(SToken::TypeInt) => Some("Int"@),
        Some(SToken::TypeFloat) => Some("Float"@),
        _ => None,
    }
}

pub open spec fn mul_op_at(t: Seq<SToken>, i: int) -> Option<Seq<char>> {
    match tk(t, i) {
        Some(SToken::Mul) => Some("*"@),
        Some(SToken::Div) => Some("/"@),
        _ => None,
    }
}

pub open spec fn add_op_at(t: Seq<SToken>, i: int) -> Option<Seq<char>> {
    match tk(t, i) {
        Some(SToken::Add) => Some("+"@),
        Some(SToken::Sub) => Some("-"@),
        _ => None,
    }
}

pub open spec fn rel_op_at(t: Seq<SToken>, i: int) -> Option<Seq<char>> {
    match tk(t, i) {
        Some(SToken::EqEq) => Some("=="@),
        Some(SToken::NotEq) => Some("!="@),
        Some(SToken::Lt) => Some("<"@),
        Some(SToken::Gt) => Some(">"@),
        Some(SToken::Le) => Some("<="@),
        Some(SToken::Ge) => Some(">="@),
        _ => None,
    }
}

// ---------------------------------------------------------------------------
// Expressions
// ---------------------------------------------------------------------------

/// `print ( expr )`
pub open spec fn p_print(t: Seq<SToken>, pos: int) -> Option<(SExpr, int)>
    decreases t.len() - pos, 0int,
{
    if 0 <= pos && is_tok(t, pos, SToken::Print) && is_tok(t, pos + 1, SToken::LParen) {
        match p_expr(t, pos + 2) {
            Some((e, q)) => if is_tok(t, q, SToken::RParen) {
                Some((SExpr::Print(Box::new(e)), q + 1))
            } else {
                None
            },
            None => None,
        }
    } else {
        None
    }
}

/// `name ( args )`
pub open spec fn p_call(t: Seq<SToken>, pos: int) -> Option<(SExpr, int)>
    decreases t.len() - pos, 0int,
{
    if 0 <= pos && ident_at(t, pos) is Some && is_tok(t, pos + 1, SToken::LParen) {
        let (args, q) = p_args(t, pos + 2);
        if is_tok(t, q, SToken::RParen) {
            Some((SExpr::Call(ident_at(t, pos)->0, args), q + 1))
        } else {
            None
        }
    } else {
        None
    }
}

/// `( expr )`
pub open spec fn p_paren(t: Seq<SToken>, pos: int) -> Option<(SExpr, int)>
    decreases t.len() - pos, 0int,
{
    if 0 <= pos && is_tok(t, pos, SToken::LParen) {
        match p_expr(t, pos + 1) {
            Some((e, q)) => if is_tok(t, q, SToken::RParen) {
                Some((e, q + 1))
            } else {
                None
            },
            None => None,
        }
    } else {
        None
    }
}

/// A literal or a name: one token.
pub open spec fn p_simple(t: Seq<SToken>, pos: int) -> Option<(SExpr, int)> {
    match tk(t, pos) {
        Some(SToken::FloatLit(s)) => Some((SExpr::FloatLit(s), pos + 1)),
        Some(SToken::Number(n)) => Some((SExpr::Number(n), pos + 1)),
        Some(SToken::StringLit(s)) => Some((SExpr::StringLit(s), pos + 1)),
        Some(SToken::Identifier(s)) => Some((SExpr::Identifier(s), pos + 1)),
        Some(SToken::True) => Some((SExpr::Bool(true), pos + 1)),
        Some(SToken::False) => Some((SExpr::Bool(false), pos + 1)),
        _ => None,
    }
}

/// print / call / literal / name / parenthesized expression, in that order.
pub open spec fn p_atom(t: Seq<SToken>, pos: int) -> Option<(SExpr, int)>
    decreases t.len() - pos, 1int,
{
    if p_print(t, pos) is Some {
        p_print(t, pos)
    } else if p_call(t, pos) is Some {
        p_call(t, pos)
    } else if p_simple(t, pos) is Some {
        p_simple(t, pos)
    } else {
        p_paren(t, pos)
    }
}

/// `(* atom | / atom)*` folded to the left onto `acc`.
pub open spec fn p_term_tail(t: Seq<SToken>, pos: int, acc: SExpr) -> (SExpr, int)
    decreases t.len() - pos, 0int,
{
    if 0 <= pos && mul_op_at(t, pos) is Some {
        match p_atom(t, pos + 1) {
            Some((r, q)) => if advanced(t, pos, q) {
                p_term_tail(t, q, SExpr::BinOp(Box::new(acc), mul_op_at(t, pos)->0, Box::new(r)))
            } else {
                (acc, pos)
            },
            None => (acc, pos),
        }
    } else {
        (acc, pos)
    }
}

pub open spec fn p_term(t: Seq<SToken>, pos: int) -> Option<(SExpr, int)>
    decreases t.len() - pos, 2int,
{
    match p_atom(t, pos) {
        Some((e, q)) => if advanced(t, pos, q) {
            Some(p_term_tail(t, q, e))
        } else {
            None
        },
        None => None,
    }
}

/// `(+ term | - term)*` folded to the left onto `acc`.
pub open spec fn p_bin_tail(t: Seq<SToken>, pos: int, acc: SExpr) -> (SExpr, int)
    decreases t.len() - pos, 0int,
{
    if 0 <= pos && add_op_at(t, pos) is Some {
        match p_term(t, pos + 1) {
            Some((r, q)) => if advanced(t, pos, q) {
                p_bin_tail(t, q, SExpr::BinOp(Box::new(acc), add_op_at(t, pos)->0, Box::new(r)))
            } else {
                (acc, pos)
            },
            None => (acc, pos),
        }
    } else {
        (acc, pos)
    }
}

pub open spec fn p_bin(t: Seq<SToken>, pos: int) -> Option<(SExpr, int)>
    decreases t.len() - pos, 3int,
{
    match p_term(t, pos) {
        Some((e, q)) => if advanced(t, pos, q) {
            Some(p_bin_tail(t, q, e))
        } else {
            None
        },
        None => None,
    }
}

/// `(relation bin)*` folded to the left onto `acc`.
pub open spec fn p_rel_tail(t: Seq<SToken>, pos: int, acc: SExpr) -> (SExpr, int)
    decreases t.len() - pos, 0int,
{
    if 0 <= pos && rel_op_at(t, pos) is Some {
        match p_bin(t, pos + 1) {
            Some((r, q)) => if advanced(t, pos, q) {
                p_rel_tail(t, q, SExpr::Compare(Box::new(acc), rel_op_at(t, pos)->0, Box::new(r)))
            } else {
                (acc, pos)
            },
            None => (acc, pos),
        }
    } else {
        (acc, pos)
    }
}

/// An expression: comparisons of sums of products of atoms, all left-associative.
pub open spec fn p_expr(t: Seq<SToken>, pos: int) -> Option<(SExpr, int)>
    decreases t.len() - pos, 4int,
{
    match p_bin(t, pos) {
        Some((e, q)) => if advanced(t, pos, q) {
            Some(p_rel_tail(t, q, e))
        } else {
            None
        },
        None => None,
    }
}

/// Arguments separated by commas; a trailing comma is allowed after at least one.
pub open spec fn p_args(t: Seq<SToken>, pos: int) -> (Seq<SExpr>, int)
    decreases t.len() - pos, 5int,
{
    match p_expr(t, pos) {
        Some((e, q)) => if advanced(t, pos, q) {
            p_args_tail(t, q, seq![e])
        } else {
            (Seq::empty(), pos)
        },
        None => (Seq::empty(), pos),
    }
}

pub open spec fn p_args_tail(t: Seq<SToken>, pos: int, acc: Seq<SExpr>) -> (Seq<SExpr>, int)
    decreases t.len() - pos, 0int,
{
    if 0 <= pos && is_tok(t, pos, SToken::Comma) {
        match p_expr(t, pos + 1) {
            Some((e, q)) => if advanced(t, pos, q) {
                p_args_tail(t, q, acc.push(e))
            } else {
                (acc, pos + 1)
            },
            None => (acc, pos + 1),
        }
    } else {
        (acc, pos)
    }
}

// ---------------------------------------------------------------------------
// Statements
// ---------------------------------------------------------------------------

/// `{ stmt* }`
pub open spec fn p_block(t: Seq<SToken>, pos: int) -> Option<(Seq<SStmt>, int)>
    decreases t.len() - pos, 8int,
{
    if 0 <= pos && is_tok(t, pos, SToken::LBrace) {
        let (body, q) = p_stmts(t, pos + 1);
        if is_tok(t, q, SToken::RBrace) {
            Some((body, q + 1))
        } else {
            None
        }
    } else {
        None
    }
}

/// `if ( expr ) block (else block)?`: the condition, both branches and the end.
pub open spec fn p_if_parts(t: Seq<SToken>, pos: int) -> Option<(SExpr, Seq<SStmt>, Seq<SStmt>, int)>
    decreases t.len() - pos, 0int,
{
    if 0 <= pos && is_tok(t, pos, SToken::If) && is_tok(t, pos + 1, SToken::LParen) {
        match p_expr(t, pos + 2) {
            Some((c, q)) => if advanced(t, pos, q) && is_tok(t, q, SToken::RParen) {
                match p_block(t, q + 1) {
                    Some((then_b, q2)) => if advanced(t, pos, q2) && is_tok(t, q2, SToken::Else) {
                        match p_block(t, q2 + 1) {
                            Some((else_b, q3)) => Some((c, then_b, else_b, q3)),
                            None => Some((c, then_b, Seq::empty(), q2)),
                        }
                    } else {
                        Some((c, then_b, Seq::empty(), q2))
                    },
                    None => None,
                }
            } else {
                None
            },
            None => None,
        }
    } else {
        None
    }
}

/// `while ( expr ) block`: the condition, the body and the end.
pub open spec fn p_while_parts(t: Seq<SToken>, pos: int) -> Option<(SExpr, Seq<SStmt>, int)>
    decreases t.len() - pos, 0int,
{
    if 0 <= pos && is_tok(t, pos, SToken::While) && is_tok(t, pos + 1, SToken::LParen) {
        match p_expr(t, pos + 2) {
            Some((c, q)) => if advanced(t, pos, q) && is_tok(t, q, SToken::RParen) {
                match p_block(t, q + 1) {
                    Some((body, q2)) => Some((c, body, q2)),
                    None => None,
                }
            } else {
                None
            },
            None => None,
        }
    } else {
        None
    }
}

/// `return expr ;?`
pub open spec fn p_return(t: Seq<SToken>, pos: int) -> Option<(SStmt, int)>
    decreases t.len() - pos, 0int,
{
    if 0 <= pos && is_tok(t, pos, SToken::Return) {
        match p_expr(t, pos + 1) {
            Some((e, q)) => Some((SStmt::Return(e), opt_semi(t, q))),
            None => None,
        }
    } else {
        None
    }
}

/// `name = expr ;?`
pub open spec fn p_assign(t: Seq<SToken>, pos: int) -> Option<(SStmt, int)>
    decreases t.len() - pos, 0int,
{
    if 0 <= pos && ident_at(t, pos) is Some && is_tok(t, pos + 1, SToken::Assign) {
        match p_expr(t, pos + 2) {
            Some((e, q)) => Some(
                (SStmt::Expr(SExpr::Assign(ident_at(t, pos)->0, Box::new(e))), opt_semi(t, q)),
            ),
            None => None,
        }
    } else {
        None
    }
}

/// if / while / return / assignment / expression, in that order.
pub open spec fn p_stmt(t: Seq<SToken>, pos: int) -> Option<(SStmt, int)>
    decreases t.len() - pos, 6int,
{
    if p_if_parts(t, pos) is Some {
        let (c, a, b, q) = p_if_parts(t, pos)->0;
        Some((SStmt::If(c, a, b), q))
    } else if p_while_parts(t, pos) is Some {
        let (c, b, q) = p_while_parts(t, pos)->0;
        Some((SStmt::While(c, b), q))
    } else if p_return(t, pos) is Some {
        p_return(t, pos)
    } else if p_assign(t, pos) is Some {
        p_assign(t, pos)
    } else {
        match p_expr(t, pos) {
            Some((e, q)) => Some((SStmt::Expr(e), opt_semi(t, q))),
            None => None,
        }
    }
}

/// `stmt*`
pub open spec fn p_stmts(t: Seq<SToken>, pos: int) -> (Seq<SStmt>, int)
    decreases t.len() - pos, 7int,
{
    match p_stmt(t, pos) {
        Some((s, q)) => if advanced(t, pos, q) {
            let (rest, q2) = p_stmts(t, q);
            (seq![s] + rest, q2)
        } else {
            (Seq::empty(), pos)
        },
        None => (Seq::empty(), pos),
    }
}

// ---------------------------------------------------------------------------
// Declarations
// ---------------------------------------------------------------------------

/// `name = Type`
pub open spec fn p_param(t: Seq<SToken>, pos: int) -> Option<((Seq<char>, Seq<char>), int)> {
    if ident_at(t, pos) is Some && is_tok(t, pos + 1, SToken::Assign) && type_at(t, pos + 2) is Some {
        Some(((ident_at(t, pos)->0, type_at(t, pos + 2)->0), pos + 3))
    } else {
        None
    }
}

pub open spec fn p_params_tail(t: Seq<SToken>, pos: int, acc: Seq<(Seq<char>, Seq<char>)>) -> (
    Seq<(Seq<char>, Seq<char>)>,
    int,
)
    decreases t.len() - pos,
{
    if 0 <= pos && is_tok(t, pos, SToken::Comma) {
        match p_param(t, pos + 1) {
            Some((p, q)) => p_params_tail(t, q, acc.push(p)),
            None => (acc, pos + 1),
        }
    } else {
        (acc, pos)
    }
}

/// Parameters separated by commas; a trailing comma is allowed after at least one.
pub open spec fn p_params(t: Seq<SToken>, pos: int) -> (Seq<(Seq<char>, Seq<char>)>, int) {
    match p_param(t, pos) {
        Some((p, q)) => p_params_tail(t, q, seq![p]),
        None => (Seq::empty(), pos),
    }
}

pub open spec fn to_func_params(ps: Seq<(Seq<char>, Seq<char>)>) -> Seq<SFuncParam> {
    ps.map_values(|p: (Seq<char>, Seq<char>)| SFuncParam { name: p.0, ty: p.1 })
}

pub open spec fn to_bridge_params(ps: Seq<(Seq<char>, Seq<char>)>) -> Seq<SBridgeParam> {
    ps.map_values(|p: (Seq<char>, Seq<char>)| SBridgeParam { name: p.0, ty: p.1 })
}

/// `bridge lang "lib" { func name ( params ) -> Int|Float }`
pub open spec fn p_bridge(t: Seq<SToken>, pos: int) -> Option<(STopLevel, int)> {
    if 0 <= pos && is_tok(t, pos, SToken::Bridge) && ident_at(t, pos + 1) is Some && strlit_at(
        t,
        pos + 2,
    ) is Some && is_tok(t, pos + 3, SToken::LBrace) && is_tok(t, pos + 4, SToken::Func)
        && ident_at(t, pos + 5) is Some && is_tok(t, pos + 6, SToken::LParen) {
        let (ps, q) = p_params(t, pos + 7);
        if is_tok(t, q, SToken::RParen) && is_tok(t, q + 1, SToken::RArrow) && num_type_at(t, q + 2)
            is Some && is_tok(t, q + 3, SToken::RBrace) {
            Some(
                (
                    STopLevel::BridgeDecl {
                        lang: ident_at(t, pos + 1)->0,
                        lib: strlit_at(t, pos + 2)->0,
                        name: ident_at(t, pos + 5)->0,
                        params: to_bridge_params(ps),
                        ret_ty: num_type_at(t, q + 2)->0,
                    },
                    q + 4,
                ),
            )
        } else {
            None
        }
    } else {
        None
    }
}

/// `let name = expr ;?`
pub open spec fn p_let(t: Seq<SToken>, pos: int) -> Option<(STopLevel, int)> {
    if 0 <= pos && is_tok(t, pos, SToken::Let) && ident_at(t, pos + 1) is Some && is_tok(
        t,
        pos + 2,
        SToken::Assign,
    ) {
        match p_expr(t, pos + 3) {
            Some((e, q)) => Some(
                (STopLevel::LetDecl { name: ident_at(t, pos + 1)->0, value: e }, opt_semi(t, q)),
            ),
            None => None,
        }
    } else {
        None
    }
}

/// `func name ( params ) -> Type { stmt* }`
pub open spec fn p_func(t: Seq<SToken>, pos: int) -> Option<(STopLevel, int)> {
    if 0 <= pos && is_tok(t, pos, SToken::Func) && ident_at(t, pos + 1) is Some && is_tok(
        t,
        pos + 2,
        SToken::LParen,
    ) {
        let (ps, q) = p_params(t, pos + 3);
        if is_tok(t, q, SToken::RParen) && is_tok(t, q + 1, SToken::RArrow) && type_at(t, q + 2)
            is Some && is_tok(t, q + 3, SToken::LBrace) {
            let (body, q2) = p_stmts(t, q + 4);
            if is_tok(t, q2, SToken::RBrace) {
                Some(
                    (
                        STopLevel::FuncDecl(
                            SFuncDecl {
                                name: ident_at(t, pos + 1)->0,
                                params: to_func_params(ps),
                                ret_ty: type_at(t, q + 2)->0,
                                body,
                            },
                        ),
                        q2 + 1,
                    ),
                )
            } else {
                None
            }
        } else {
            None
        }
    } else {
        None
    }
}

/// `key = expr ;?`
pub open spec fn p_config_item(t: Seq<SToken>, pos: int) -> Option<(SConfigItem, int)> {
    if ident_at(t, pos) is Some && is_tok(t, pos + 1, SToken::Assign) {
        match p_expr(t, pos + 2) {
            Some((e, q)) => Some((SConfigItem { key: ident_at(t, pos)->0, value: e }, opt_semi(t, q))),
            None => None,
        }
    } else {
        None
    }
}

pub open spec fn p_config_items(t: Seq<SToken>, pos: int) -> (Seq<SConfigItem>, int)
    decreases t.len() - pos,
{
    match p_config_item(t, pos) {
        Some((c, q)) => if advanced(t, pos, q) {
            let (rest, q2) = p_config_items(t, q);
            (seq![c] + rest, q2)
        } else {
            (Seq::empty(), pos)
        },
        None => (Seq::empty(), pos),
    }
}

/// `package "name" { item* }` or `service "name" { item* }`
pub open spec fn p_unit(t: Seq<SToken>, pos: int) -> Option<(SSystemUnit, int)> {
    if 0 <= pos && (is_tok(t, pos, SToken::Package) || is_tok(t, pos, SToken::Service)) && strlit_at(
        t,
        pos + 1,
    ) is Some && is_tok(t, pos + 2, SToken::LBrace) {
        let (items, q) = p_config_items(t, pos + 3);
        if is_tok(t, q, SToken::RBrace) {
            let name = strlit_at(t, pos + 1)->0;
            Some(
                (
                    if is_tok(t, pos, SToken::Package) {
                        SSystemUnit::Package { name, config: items }
                    } else {
                        SSystemUnit::Service { name, config: items }
                    },
                    q + 1,
                ),
            )
        } else {
            None
        }
    } else {
        None
    }
}

pub open spec fn p_units(t: Seq<SToken>, pos: int) -> (Seq<SSystemUnit>, int)
    decreases t.len() - pos,
{
    match p_unit(t, pos) {
        Some((u, q)) => if advanced(t, pos, q) {
            let (rest, q2) = p_units(t, q);
            (seq![u] + rest, q2)
        } else {
            (Seq::empty(), pos)
        },
        None => (Seq::empty(), pos),
    }
}

/// `system { unit* }`
pub open spec fn p_system(t: Seq<SToken>, pos: int) -> Option<(STopLevel, int)> {
    if 0 <= pos && is_tok(t, pos, SToken::System) && is_tok(t, pos + 1, SToken::LBrace) {
        let (units, q) = p_units(t, pos + 2);
        if is_tok(t, q, SToken::RBrace) {
            Some((STopLevel::SystemDecl { units }, q + 1))
        } else {
            None
        }
    } else {
        None
    }
}

/// `use "path" ;?`
pub open spec fn p_use(t: Seq<SToken>, pos: int) -> Option<(STopLevel, int)> {
    if 0 <= pos && is_tok(t, pos, SToken::Use) && strlit_at(t, pos + 1) is Some {
        Some((STopLevel::UseDecl { path: strlit_at(t, pos + 1)->0 }, opt_semi(t, pos + 2)))
    } else {
        None
    }
}

/// One top-level item: bridge / let / func / system / use / if / while /
/// expression, in that order. A top-level `if` or `while` may be followed by `;`.
pub open spec fn p_top(t: Seq<SToken>, pos: int) -> Option<(STopLevel, int)> {
    if p_bridge(t, pos) is Some {
        p_bridge(t, pos)
    } else if p_let(t, pos) is Some {
        p_let(t, pos)
    } else if p_func(t, pos) is Some {
        p_func(t, pos)
    } else if p_system(t, pos) is Some {
        p_system(t, pos)
    } else if p_use(t, pos) is Some {
        p_use(t, pos)
    } else if p_if_parts(t, pos) is Some {
        let (c, a, b, q) = p_if_parts(t, pos)->0;
        Some((STopLevel::Stmt(SStmt::If(c, a, b)), opt_semi(t, q)))
    } else if p_while_parts(t, pos) is Some {
        let (c, b, q) = p_while_parts(t, pos)->0;
        Some((STopLevel::Stmt(SStmt::While(c, b)), opt_semi(t, q)))
    } else {
        match p_expr(t, pos) {
            Some((e, q)) => Some((STopLevel::Stmt(SStmt::Expr(e)), opt_semi(t, q))),
            None => None,
        }
    }
}

pub open spec fn p_tops(t: Seq<SToken>, pos: int) -> (Seq<STopLevel>, int)
    decreases t.len() - pos,
{
    match p_top(t, pos) {
        Some((x, q)) => if advanced(t, pos, q) {
            let (rest, q2) = p_tops(t, q);
            (seq![x] + rest, q2)
        } else {
            (Seq::empty(), pos)
        },
        None => (Seq::empty(), pos),
    }
}

/// A whole program: top-level items up to the end of the tokens. Parsing fails
/// where the items stop before the end, at the position of the first token that
/// no item takes.
pub open spec fn spec_parse_program(t: Seq<SToken>) -> Result<Seq<STopLevel>, int> {
    let (items, q) = p_tops(t, 0);
    if q == t.len() {
        Ok(items)
    } else {
        Err(q)
    }
}


proof fn lemma_rel_tail_ge(t: Seq<SToken>, pos: int, acc: SExpr)
    ensures
        p_rel_tail(t, pos, acc).1 >= pos,
        pos <= t.len() ==> p_rel_tail(t, pos, acc).1 <= t.len(),
    decreases t.len() - pos,
{
    if 0 <= pos && rel_op_at(t, pos) is Some {
        match p_bin(t, pos + 1) {
            Some((r, q)) => if advanced(t, pos, q) {
                lemma_rel_tail_ge(t, q, SExpr::Compare(Box::new(acc), rel_op_at(t, pos)->0, Box::new(r)));
            },
            None => {},
        }
    }
}

proof fn lemma_stmts_ge(t: Seq<SToken>, pos: int)
    ensures
        p_stmts(t, pos).1 >= pos,
    decreases t.len() - pos,
{
    match p_stmt(t, pos) {
        Some((s, q)) => if advanced(t, pos, q) {
            lemma_stmts_ge(t, q);
        },
        None => {},
    }
}

/// An expression and a block each take at least one token and end within the
/// tokens.
proof fn lemma_expr_block_advance(t: Seq<SToken>, pos: int)
    ensures
        p_expr(t, pos) matches Some((_, q)) ==> pos < q <= t.len(),
        p_block(t, pos) matches Some((_, q)) ==> pos < q <= t.len(),
{
    if let Some((e, q)) = p_bin(t, pos) {
        lemma_rel_tail_ge(t, q, e);
    }
    lemma_stmts_ge(t, pos + 1);
}

/// Parsing `if ( c ) { A } else { B }` keeps both branches: the statement is
/// an `if` whose condition is the parse of `c`, whose then-branch is the parse
/// of the block `{ A }` and whose else-branch is the parse of the block
/// `{ B }`, and it ends after that block. At the top level the same holds, with
/// an optional `;` after it.
pub proof fn law_if_keeps_both_branches(
    t: Seq<SToken>,
    pos: int,
    c: SExpr,
    q: int,
    a: Seq<SStmt>,
    q2: int,
    b: Seq<SStmt>,
    q3: int,
)
    requires
        0 <= pos,
        is_tok(t, pos, SToken::If),
        is_tok(t, pos + 1, SToken::LParen),
        p_expr(t, pos + 2) == Some((c, q)),
        is_tok(t, q, SToken::RParen),
        p_block(t, q + 1) == Some((a, q2)),
        is_tok(t, q2, SToken::Else),
        p_block(t, q2 + 1) == Some((b, q3)),
    ensures
        p_stmt(t, pos) == Some((SStmt::If(c, a, b), q3)),
        p_top(t, pos) == Some((STopLevel::Stmt(SStmt::If(c, a, b)), opt_semi(t, q3))),
{
    lemma_expr_block_advance(t, pos + 2);
    lemma_expr_block_advance(t, q + 1);
    assert(p_if_parts(t, pos) == Some((c, a, b, q3)));
}

/// Without `else`, the else-branch of an `if` is empty.
pub proof fn law_if_without_else(t: Seq<SToken>, pos: int, c: SExpr, q: int, a: Seq<SStmt>, q2: int)
    requires
        0 <= pos,
        is_tok(t, pos, SToken::If),
        is_tok(t, pos + 1, SToken::LParen),
        p_expr(t, pos + 2) == Some((c, q)),
        is_tok(t, q, SToken::RParen),
        p_block(t, q + 1) == Some((a, q2)),
        !is_tok(t, q2, SToken::Else),
    ensures
        p_stmt(t, pos) == Some((SStmt::If(c, a, Seq::<SStmt>::empty()), q2)),
{
    lemma_expr_block_advance(t, pos + 2);
    lemma_expr_block_advance(t, q + 1);
    assert(p_if_parts(t, pos) == Some((c, a, Seq::<SStmt>::empty(), q2)));
}

} // verus!
