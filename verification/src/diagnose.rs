//! Where and how a program fails to parse, as the language server reports it.
//!
//! The parser is an ordered-choice parser that records, besides its result,
//! the furthest failure that an alternative it gave up on reached. An error is
//! a token position and the set of tokens that would have been accepted there
//! (`exp`, one bit per keyword or symbol as numbered by `skind`, bit 0 for the
//! end of the input). Of two errors the one further on wins; at the same
//! position their expected sets are joined. A sequence that fails reports its
//! own failure or a further failure that an earlier part gave up on; a choice
//! takes the first alternative that succeeds, and when all fail, the furthest
//! of their failures; an optional part or a repetition that stops keeps its
//! failure as a given-up alternative. A program is its top-level items repeated
//! and then the end of the input.
use vstd::prelude::*;
use crate::token::{Token, SToken};
use crate::grammar::{tk, is_tok, ident_at, strlit_at};
use crate::parser::{toks_view, skind, kind, at};

verus! {

/// A failure: the token position it happened at and the tokens expected there.
pub struct PErr {
    pub at: int,
    pub exp: u64,
}

/// The outcome of a parser: success, with the position after what it took and
/// the furthest failure of the alternatives it gave up on; or failure.
pub enum PRes {
    Good(int, Option<PErr>),
    Bad(PErr),
}

/// The expected-set bit of a keyword or symbol.
pub open spec fn kbit(k: SToken) -> u64 {
    1u64 << skind(k)
}

/// The expected-set bit of the end of the input.
pub open spec fn end_bit() -> u64 {
    1u64
}

/// The further of two failures; at the same position, one failure expecting
/// what either expected.
pub open spec fn merge(a: PErr, b: PErr) -> PErr {
    if a.at > b.at {
        a
    } else if a.at < b.at {
        b
    } else {
        PErr { at: a.at, exp: a.exp | b.exp }
    }
}

pub open spec fn amax(a: Option<PErr>, b: Option<PErr>) -> Option<PErr> {
    match a {
        None => b,
        Some(x) => match b {
            None => Some(x),
            Some(y) => Some(merge(x, y)),
        },
    }
}

pub open spec fn with_alt(e: PErr, a: Option<PErr>) -> PErr {
    match a {
        None => e,
        Some(x) => merge(e, x),
    }
}

/// A later part of a sequence, after earlier parts that gave up on `a`.
pub open spec fn join(a: Option<PErr>, r: PRes) -> PRes {
    match r {
        PRes::Good(q, b) => PRes::Good(q, amax(a, b)),
        PRes::Bad(e) => PRes::Bad(with_alt(e, a)),
    }
}

/// Ordered choice between two alternatives.
pub open spec fn alt2(ra: PRes, rb: PRes) -> PRes {
    match ra {
        PRes::Good(_, _) => ra,
        PRes::Bad(ea) => match rb {
            PRes::Good(_, _) => rb,
            PRes::Bad(eb) => PRes::Bad(merge(ea, eb)),
        },
    }
}

/// An optional part at `pos`.
pub open spec fn opt(r: PRes, pos: int) -> PRes {
    match r {
        PRes::Good(_, _) => r,
        PRes::Bad(e) => PRes::Good(pos, Some(e)),
    }
}

/// One given keyword or symbol.
pub open spec fn tok(t: Seq<SToken>, pos: int, k: SToken) -> PRes {
    if is_tok(t, pos, k) {
        PRes::Good(pos + 1, None)
    } else {
        PRes::Bad(PErr { at: pos, exp: kbit(k) })
    }
}

/// Whether the token at `pos` is of class `c`: 0 a name, 1 a string literal,
/// 2 a float literal, 3 an integer literal, 4 `true` or `false`, 5 a type,
/// 6 a numeric type.
pub open spec fn sel_ok(t: Seq<SToken>, pos: int, c: u8) -> bool {
    match tk(t, pos) {
        Some(x) => if c == 0 {
            x is Identifier
        } else if c == 1 {
            x is StringLit
        } else if c == 2 {
            x is FloatLit
        } else if c == 3 {
            x is Number
        } else if c == 4 {
            x == SToken::True || x == SToken::False
        } else if c == 5 {
            x == SToken::TypeInt || x == SToken::TypeFloat || x == SToken::TypeString
        } else {
            x == SToken::TypeInt || x == SToken::TypeFloat
        },
        None => false,
    }
}

/// A token of a class; a failure here expects nothing in particular.
pub open spec fn sel(t: Seq<SToken>, pos: int, c: u8) -> PRes {
    if sel_ok(t, pos, c) {
        PRes::Good(pos + 1, None)
    } else {
        PRes::Bad(PErr { at: pos, exp: 0 })
    }
}

pub open spec fn then_tok(r: PRes, t: Seq<SToken>, k: SToken) -> PRes {
    match r {
        PRes::Bad(e) => PRes::Bad(e),
        PRes::Good(q, a) => join(a, tok(t, q, k)),
    }
}

pub open spec fn then_sel(r: PRes, t: Seq<SToken>, c: u8) -> PRes {
    match r {
        PRes::Bad(e) => PRes::Bad(e),
        PRes::Good(q, a) => join(a, sel(t, q, c)),
    }
}

/// An optional `;` after `r`.
pub open spec fn then_semi(r: PRes, t: Seq<SToken>) -> PRes {
    match r {
        PRes::Bad(e) => PRes::Bad(e),
        PRes::Good(q, a) => join(a, opt(tok(t, q, SToken::Semicolon), q)),
    }
}

/// An operator of a class: 0 `*` `/`, 1 `+` `-`, 2 a comparison.
pub open spec fn op_ok(t: Seq<SToken>, pos: int, c: u8) -> bool {
    match tk(t, pos) {
        Some(x) => if c == 0 {
            x == SToken::Mul || x == SToken::Div
        } else if c == 1 {
            x == SToken::Add || x == SToken::Sub
        } else {
            x == SToken::EqEq || x == SToken::NotEq || x == SToken::Lt || x == SToken::Gt || x == SToken::Le
                || x == SToken::Ge
        },
        None => false,
    }
}

pub open spec fn op_bits(c: u8) -> u64 {
    if c == 0 {
        kbit(SToken::Mul) | kbit(SToken::Div)
    } else if c == 1 {
        kbit(SToken::Add) | kbit(SToken::Sub)
    } else {
        kbit(SToken::EqEq) | kbit(SToken::NotEq) | kbit(SToken::Lt) | kbit(SToken::Gt) | kbit(SToken::Le)
            | kbit(SToken::Ge)
    }
}

// ---------------------------------------------------------------------------
// Expressions
// ---------------------------------------------------------------------------

/// `print ( expr )`
pub open spec fn d_print(t: Seq<SToken>, pos: int) -> PRes
    decreases t.len() - pos, 1int,
{
    if !is_tok(t, pos, SToken::Print) {
        PRes::Bad(PErr { at: pos, exp: kbit(SToken::Print) })
    } else if !is_tok(t, pos + 1, SToken::LParen) {
        PRes::Bad(PErr { at: pos + 1, exp: kbit(SToken::LParen) })
    } else {
        then_tok(d_expr(t, pos + 2), t, SToken::RParen)
    }
}

/// `name ( args )`
pub open spec fn d_call(t: Seq<SToken>, pos: int) -> PRes
    decreases t.len() - pos, 1int,
{
    if !sel_ok(t, pos, 0) {
        PRes::Bad(PErr { at: pos, exp: 0 })
    } else if !is_tok(t, pos + 1, SToken::LParen) {
        PRes::Bad(PErr { at: pos + 1, exp: kbit(SToken::LParen) })
    } else {
        then_tok(d_args(t, pos + 2), t, SToken::RParen)
    }
}

/// `( expr )`
pub open spec fn d_paren(t: Seq<SToken>, pos: int) -> PRes
    decreases t.len() - pos, 1int,
{
    if !is_tok(t, pos, SToken::LParen) {
        PRes::Bad(PErr { at: pos, exp: kbit(SToken::LParen) })
    } else {
        then_tok(d_expr(t, pos + 1), t, SToken::RParen)
    }
}

/// Arguments: expressions separated by `,`, with an optional trailing `,`.
pub open spec fn d_args(t: Seq<SToken>, pos: int) -> PRes
    decreases t.len() - pos, 6int,
{
    if pos < 0 || pos > t.len() {
        PRes::Good(pos, None)
    } else {
        match d_expr(t, pos) {
            PRes::Bad(e) => PRes::Good(pos, Some(e)),
            PRes::Good(q, a) => if pos < q <= t.len() {
                d_args_tail(t, q, a)
            } else {
                PRes::Good(q, a)
            },
        }
    }
}

/// More arguments after one that ended at `q`, with `alt` given up so far.
pub open spec fn d_args_tail(t: Seq<SToken>, q: int, alt: Option<PErr>) -> PRes
    decreases t.len() - q, 6int,
{
    if !is_tok(t, q, SToken::Comma) {
        PRes::Good(q, amax(alt, Some(PErr { at: q, exp: kbit(SToken::Comma) })))
    } else {
        match d_expr(t, q + 1) {
            PRes::Bad(e) => PRes::Good(q + 1, amax(alt, Some(e))),
            PRes::Good(q2, a2) => if q < q2 <= t.len() {
                d_args_tail(t, q2, amax(alt, a2))
            } else {
                PRes::Good(q2, amax(alt, a2))
            },
        }
    }
}

pub open spec fn d_atom(t: Seq<SToken>, pos: int) -> PRes
    decreases t.len() - pos, 2int,
{
    alt2(
        alt2(
            alt2(alt2(alt2(alt2(alt2(d_print(t, pos), d_call(t, pos)), sel(t, pos, 2)), sel(t, pos, 3)), sel(t, pos, 1)), sel(t, pos, 0)),
            sel(t, pos, 4),
        ),
        d_paren(t, pos),
    )
}

/// Repeated `op operand` after an operand, for the operator class `c`: the
/// operand is an atom for `*` `/`, a term for `+` `-`, a sum for comparisons.
pub open spec fn d_tail(t: Seq<SToken>, pos: int, c: u8) -> PRes
    decreases t.len() - pos, 0int,
{
    if !op_ok(t, pos, c) {
        PRes::Good(pos, Some(PErr { at: pos, exp: op_bits(c) }))
    } else {
        let operand = if c == 0 {
            d_atom(t, pos + 1)
        } else if c == 1 {
            d_term(t, pos + 1)
        } else {
            d_bin(t, pos + 1)
        };
        match operand {
            PRes::Bad(e) => PRes::Good(pos, Some(e)),
            PRes::Good(q, a) => if pos < q <= t.len() {
                join(a, d_tail(t, q, c))
            } else {
                PRes::Good(q, a)
            },
        }
    }
}

pub open spec fn d_term(t: Seq<SToken>, pos: int) -> PRes
    decreases t.len() - pos, 3int,
{
    match d_atom(t, pos) {
        PRes::Bad(e) => PRes::Bad(e),
        PRes::Good(q, a) => if pos <= q <= t.len() {
            join(a, d_tail(t, q, 0))
        } else {
            PRes::Good(q, a)
        },
    }
}

pub open spec fn d_bin(t: Seq<SToken>, pos: int) -> PRes
    decreases t.len() - pos, 4int,
{
    match d_term(t, pos) {
        PRes::Bad(e) => PRes::Bad(e),
        PRes::Good(q, a) => if pos <= q <= t.len() {
            join(a, d_tail(t, q, 1))
        } else {
            PRes::Good(q, a)
        },
    }
}

pub open spec fn d_expr(t: Seq<SToken>, pos: int) -> PRes
    decreases t.len() - pos, 5int,
{
    match d_bin(t, pos) {
        PRes::Bad(e) => PRes::Bad(e),
        PRes::Good(q, a) => if pos <= q <= t.len() {
            join(a, d_tail(t, q, 2))
        } else {
            PRes::Good(q, a)
        },
    }
}

// ---------------------------------------------------------------------------
// Statements
// ---------------------------------------------------------------------------

/// `{ stmt* }`
pub open spec fn d_block(t: Seq<SToken>, pos: int) -> PRes
    decreases t.len() - pos, 1int,
{
    if !is_tok(t, pos, SToken::LBrace) {
        PRes::Bad(PErr { at: pos, exp: kbit(SToken::LBrace) })
    } else {
        then_tok(d_stmts(t, pos + 1), t, SToken::RBrace)
    }
}

/// Statements, as many as parse.
pub open spec fn d_stmts(t: Seq<SToken>, pos: int) -> PRes
    decreases t.len() - pos, 4int,
{
    match d_stmt(t, pos) {
        PRes::Bad(e) => PRes::Good(pos, Some(e)),
        PRes::Good(q, a) => if pos < q <= t.len() {
            join(a, d_stmts(t, q))
        } else {
            PRes::Good(q, a)
        },
    }
}

/// An optional `else { stmt* }`.
pub open spec fn d_else(t: Seq<SToken>, pos: int) -> PRes
    decreases t.len() - pos, 0int,
{
    if !is_tok(t, pos, SToken::Else) {
        PRes::Good(pos, Some(PErr { at: pos, exp: kbit(SToken::Else) }))
    } else {
        opt(d_block(t, pos + 1), pos)
    }
}

/// `( expr ) { stmt* }` after `if` or `while` at `pos`.
pub open spec fn d_cond_block(t: Seq<SToken>, pos: int) -> PRes
    decreases t.len() - pos, 0int,
{
    if !is_tok(t, pos + 1, SToken::LParen) {
        PRes::Bad(PErr { at: pos + 1, exp: kbit(SToken::LParen) })
    } else {
        match then_tok(d_expr(t, pos + 2), t, SToken::RParen) {
            PRes::Bad(e) => PRes::Bad(e),
            PRes::Good(q, a) => if pos < q <= t.len() {
                join(a, d_block(t, q))
            } else {
                PRes::Good(q, a)
            },
        }
    }
}

/// `if ( expr ) { stmt* }` with an optional `else` block.
pub open spec fn d_if(t: Seq<SToken>, pos: int) -> PRes
    decreases t.len() - pos, 2int,
{
    if !is_tok(t, pos, SToken::If) {
        PRes::Bad(PErr { at: pos, exp: kbit(SToken::If) })
    } else {
        match d_cond_block(t, pos) {
            PRes::Bad(e) => PRes::Bad(e),
            PRes::Good(q, a) => if pos < q <= t.len() {
                join(a, d_else(t, q))
            } else {
                PRes::Good(q, a)
            },
        }
    }
}

/// `while ( expr ) { stmt* }`
pub open spec fn d_while(t: Seq<SToken>, pos: int) -> PRes
    decreases t.len() - pos, 2int,
{
    if !is_tok(t, pos, SToken::While) {
        PRes::Bad(PErr { at: pos, exp: kbit(SToken::While) })
    } else {
        d_cond_block(t, pos)
    }
}

/// `return expr ;?`
pub open spec fn d_return(t: Seq<SToken>, pos: int) -> PRes {
    if !is_tok(t, pos, SToken::Return) {
        PRes::Bad(PErr { at: pos, exp: kbit(SToken::Return) })
    } else {
        then_semi(d_expr(t, pos + 1), t)
    }
}

/// `name = expr ;?` (also a configuration item)
pub open spec fn d_assign(t: Seq<SToken>, pos: int) -> PRes {
    if !sel_ok(t, pos, 0) {
        PRes::Bad(PErr { at: pos, exp: 0 })
    } else if !is_tok(t, pos + 1, SToken::Assign) {
        PRes::Bad(PErr { at: pos + 1, exp: kbit(SToken::Assign) })
    } else {
        then_semi(d_expr(t, pos + 2), t)
    }
}

/// `expr ;?`
pub open spec fn d_expr_stmt(t: Seq<SToken>, pos: int) -> PRes {
    then_semi(d_expr(t, pos), t)
}

pub open spec fn d_stmt(t: Seq<SToken>, pos: int) -> PRes
    decreases t.len() - pos, 3int,
{
    alt2(alt2(alt2(alt2(d_if(t, pos), d_while(t, pos)), d_return(t, pos)), d_assign(t, pos)), d_expr_stmt(t, pos))
}

// ---------------------------------------------------------------------------
// Top-level items
// ---------------------------------------------------------------------------

/// `name = Type` (a parameter of a function or of a bridge)
pub open spec fn d_param(t: Seq<SToken>, pos: int) -> PRes {
    if !sel_ok(t, pos, 0) {
        PRes::Bad(PErr { at: pos, exp: 0 })
    } else if !is_tok(t, pos + 1, SToken::Assign) {
        PRes::Bad(PErr { at: pos + 1, exp: kbit(SToken::Assign) })
    } else {
        sel(t, pos + 2, 5)
    }
}

/// Parameters separated by `,`, with an optional trailing `,`.
pub open spec fn d_params(t: Seq<SToken>, pos: int) -> PRes {
    match d_param(t, pos) {
        PRes::Bad(e) => PRes::Good(pos, Some(e)),
        PRes::Good(q, a) => d_params_tail(t, q, a),
    }
}

pub open spec fn d_params_tail(t: Seq<SToken>, q: int, alt: Option<PErr>) -> PRes
    decreases t.len() - q,
{
    if !is_tok(t, q, SToken::Comma) {
        PRes::Good(q, amax(alt, Some(PErr { at: q, exp: kbit(SToken::Comma) })))
    } else {
        match d_param(t, q + 1) {
            PRes::Bad(e) => PRes::Good(q + 1, amax(alt, Some(e))),
            PRes::Good(q2, a2) => if q < q2 <= t.len() {
                d_params_tail(t, q2, amax(alt, a2))
            } else {
                PRes::Good(q2, amax(alt, a2))
            },
        }
    }
}

/// `bridge lang "lib" { func name ( params ) -> Type }`
pub open spec fn d_bridge(t: Seq<SToken>, pos: int) -> PRes {
    if !is_tok(t, pos, SToken::Bridge) {
        PRes::Bad(PErr { at: pos, exp: kbit(SToken::Bridge) })
    } else if !sel_ok(t, pos + 1, 0) {
        PRes::Bad(PErr { at: pos + 1, exp: 0 })
    } else if !sel_ok(t, pos + 2, 1) {
        PRes::Bad(PErr { at: pos + 2, exp: 0 })
    } else if !is_tok(t, pos + 3, SToken::LBrace) {
        PRes::Bad(PErr { at: pos + 3, exp: kbit(SToken::LBrace) })
    } else if !is_tok(t, pos + 4, SToken::Func) {
        PRes::Bad(PErr { at: pos + 4, exp: kbit(SToken::Func) })
    } else if !sel_ok(t, pos + 5, 0) {
        PRes::Bad(PErr { at: pos + 5, exp: 0 })
    } else if !is_tok(t, pos + 6, SToken::LParen) {
        PRes::Bad(PErr { at: pos + 6, exp: kbit(SToken::LParen) })
    } else {
        then_tok(
            then_sel(then_tok(then_tok(d_params(t, pos + 7), t, SToken::RParen), t, SToken::RArrow), t, 6),
            t,
            SToken::RBrace,
        )
    }
}

/// `let name = expr ;?`
pub open spec fn d_let(t: Seq<SToken>, pos: int) -> PRes {
    if !is_tok(t, pos, SToken::Let) {
        PRes::Bad(PErr { at: pos, exp: kbit(SToken::Let) })
    } else if !sel_ok(t, pos + 1, 0) {
        PRes::Bad(PErr { at: pos + 1, exp: 0 })
    } else if !is_tok(t, pos + 2, SToken::Assign) {
        PRes::Bad(PErr { at: pos + 2, exp: kbit(SToken::Assign) })
    } else {
        then_semi(d_expr(t, pos + 3), t)
    }
}

/// `func name ( params ) -> Type { stmt* }`
pub open spec fn d_func(t: Seq<SToken>, pos: int) -> PRes {
    if !is_tok(t, pos, SToken::Func) {
        PRes::Bad(PErr { at: pos, exp: kbit(SToken::Func) })
    } else if !sel_ok(t, pos + 1, 0) {
        PRes::Bad(PErr { at: pos + 1, exp: 0 })
    } else if !is_tok(t, pos + 2, SToken::LParen) {
        PRes::Bad(PErr { at: pos + 2, exp: kbit(SToken::LParen) })
    } else {
        let head = then_tok(
            then_sel(then_tok(then_tok(d_params(t, pos + 3), t, SToken::RParen), t, SToken::RArrow), t, 5),
            t,
            SToken::LBrace,
        );
        match head {
            PRes::Bad(e) => PRes::Bad(e),
            PRes::Good(q, a) => then_tok(join(a, d_stmts(t, q)), t, SToken::RBrace),
        }
    }
}

/// Configuration items, as many as parse.
pub open spec fn d_items(t: Seq<SToken>, pos: int) -> PRes
    decreases t.len() - pos,
{
    match d_assign(t, pos) {
        PRes::Bad(e) => PRes::Good(pos, Some(e)),
        PRes::Good(q, a) => if pos < q <= t.len() {
            join(a, d_items(t, q))
        } else {
            PRes::Good(q, a)
        },
    }
}

/// `package "name" { item* }` or `service "name" { item* }`
pub open spec fn d_unit_of(t: Seq<SToken>, pos: int, k: SToken) -> PRes {
    if !is_tok(t, pos, k) {
        PRes::Bad(PErr { at: pos, exp: kbit(k) })
    } else if !sel_ok(t, pos + 1, 1) {
        PRes::Bad(PErr { at: pos + 1, exp: 0 })
    } else if !is_tok(t, pos + 2, SToken::LBrace) {
        PRes::Bad(PErr { at: pos + 2, exp: kbit(SToken::LBrace) })
    } else {
        then_tok(d_items(t, pos + 3), t, SToken::RBrace)
    }
}

pub open spec fn d_unit(t: Seq<SToken>, pos: int) -> PRes {
    alt2(d_unit_of(t, pos, SToken::Package), d_unit_of(t, pos, SToken::Service))
}

/// Units, as many as parse.
pub open spec fn d_units(t: Seq<SToken>, pos: int) -> PRes
    decreases t.len() - pos,
{
    match d_unit(t, pos) {
        PRes::Bad(e) => PRes::Good(pos, Some(e)),
        PRes::Good(q, a) => if pos < q <= t.len() {
            join(a, d_units(t, q))
        } else {
            PRes::Good(q, a)
        },
    }
}

/// `system { unit* }`
pub open spec fn d_system(t: Seq<SToken>, pos: int) -> PRes {
    if !is_tok(t, pos, SToken::System) {
        PRes::Bad(PErr { at: pos, exp: kbit(SToken::System) })
    } else if !is_tok(t, pos + 1, SToken::LBrace) {
        PRes::Bad(PErr { at: pos + 1, exp: kbit(SToken::LBrace) })
    } else {
        then_tok(d_units(t, pos + 2), t, SToken::RBrace)
    }
}

/// `use "path" ;?`
pub open spec fn d_use(t: Seq<SToken>, pos: int) -> PRes {
    if !is_tok(t, pos, SToken::Use) {
        PRes::Bad(PErr { at: pos, exp: kbit(SToken::Use) })
    } else if !sel_ok(t, pos + 1, 1) {
        PRes::Bad(PErr { at: pos + 1, exp: 0 })
    } else {
        then_semi(PRes::Good(pos + 2, None), t)
    }
}

pub open spec fn d_top(t: Seq<SToken>, pos: int) -> PRes {
    alt2(
        alt2(
            alt2(
                alt2(alt2(alt2(alt2(d_bridge(t, pos), d_let(t, pos)), d_func(t, pos)), d_system(t, pos)), d_use(t, pos)),
                then_semi(d_if(t, pos), t),
            ),
            then_semi(d_while(t, pos), t),
        ),
        d_expr_stmt(t, pos),
    )
}

/// Top-level items, as many as parse.
pub open spec fn d_tops(t: Seq<SToken>, pos: int) -> PRes
    decreases t.len() - pos,
{
    match d_top(t, pos) {
        PRes::Bad(e) => PRes::Good(pos, Some(e)),
        PRes::Good(q, a) => if pos < q <= t.len() {
            join(a, d_tops(t, q))
        } else {
            PRes::Good(q, a)
        },
    }
}

/// The end of the input.
pub open spec fn d_end(t: Seq<SToken>, pos: int) -> PRes {
    if pos == t.len() {
        PRes::Good(pos, None)
    } else {
        PRes::Bad(PErr { at: pos, exp: end_bit() })
    }
}

/// A whole program: its items, then the end of the input. `None` when it
/// parses; otherwise the failure that is reported.
pub open spec fn program_error(t: Seq<SToken>) -> Option<PErr> {
    match d_tops(t, 0) {
        PRes::Good(q, a) => match join(a, d_end(t, q)) {
            PRes::Good(_, _) => None,
            PRes::Bad(e) => Some(e),
        },
        PRes::Bad(e) => Some(e),
    }
}

// ---------------------------------------------------------------------------
// The executable parser of failures
// ---------------------------------------------------------------------------

/// A failure at a token position.
#[derive(Debug, Clone, Copy, PartialEq, Eq)]
pub struct ParseFailure {
    pub at: usize,
    pub exp: u64,
}

impl ParseFailure {
    pub open spec fn view(&self) -> PErr {
        PErr { at: self.at as int, exp: self.exp }
    }
}

pub open spec fn oview(o: Option<ParseFailure>) -> Option<PErr> {
    match o {
        Some(x) => Some(x.view()),
        None => None,
    }
}

pub enum XRes {
    Good(usize, Option<ParseFailure>),
    Bad(ParseFailure),
}

impl XRes {
    pub open spec fn view(&self) -> PRes {
        match self {
            XRes::Good(q, a) => PRes::Good(*q as int, oview(*a)),
            XRes::Bad(e) => PRes::Bad(e.view()),
        }
    }

    pub open spec fn within(&self, n: int) -> bool {
        match self {
            XRes::Good(q, _) => *q <= n,
            XRes::Bad(_) => true,
        }
    }
}

fn x_merge(a: ParseFailure, b: ParseFailure) -> (r: ParseFailure)
    ensures
        r.view() == merge(a.view(), b.view()),
{
    if a.at > b.at {
        a
    } else if a.at < b.at {
        b
    } else {
        ParseFailure { at: a.at, exp: a.exp | b.exp }
    }
}

fn x_amax(a: Option<ParseFailure>, b: Option<ParseFailure>) -> (r: Option<ParseFailure>)
    ensures
        oview(r) == amax(oview(a), oview(b)),
{
    match a {
        None => b,
        Some(x) => match b {
            None => Some(x),
            Some(y) => Some(x_merge(x, y)),
        },
    }
}

fn x_with_alt(e: ParseFailure, a: Option<ParseFailure>) -> (r: ParseFailure)
    ensures
        r.view() == with_alt(e.view(), oview(a)),
{
    match a {
        None => e,
        Some(x) => x_merge(e, x),
    }
}

fn x_join(a: Option<ParseFailure>, r: XRes) -> (s: XRes)
    ensures
        s@ == join(oview(a), r@),
        r.within(usize::MAX as int) ==> s.within(usize::MAX as int),
        forall|n: int| r.within(n) ==> s.within(n),
{
    match r {
        XRes::Good(q, b) => XRes::Good(q, x_amax(a, b)),
        XRes::Bad(e) => XRes::Bad(x_with_alt(e, a)),
    }
}

/// `ra`, or when it failed, the choice with `rb`.
fn x_alt(ra: XRes, rb: XRes) -> (r: XRes)
    ensures
        r@ == alt2(ra@, rb@),
        forall|n: int| ra.within(n) && rb.within(n) ==> r.within(n),
{
    match ra {
        XRes::Good(_, _) => ra,
        XRes::Bad(ea) => match rb {
            XRes::Good(_, _) => rb,
            XRes::Bad(eb) => XRes::Bad(x_merge(ea, eb)),
        },
    }
}

fn x_opt(r: XRes, pos: usize) -> (s: XRes)
    ensures
        s@ == opt(r@, pos as int),
        forall|n: int| r.within(n) && pos <= n ==> s.within(n),
{
    match r {
        XRes::Good(_, _) => r,
        XRes::Bad(e) => XRes::Good(pos, Some(e)),
    }
}

fn x_kbit(k: &Token) -> (r: u64)
    ensures
        r == kbit(k@),
{
    let s = kind(k);
    assert(s <= 35) by {
        assert(skind(k@) <= 35);
    }
    1u64 << s
}

fn x_tok(t: &[Token], pos: usize, k: &Token) -> (r: XRes)
    requires
        pos <= t@.len() < usize::MAX,
    ensures
        r@ == tok(toks_view(t@), pos as int, k@),
        r.within(t@.len() as int),
{
    if at(t, pos, k) {
        XRes::Good(pos + 1, None)
    } else {
        XRes::Bad(ParseFailure { at: pos, exp: x_kbit(k) })
    }
}

fn x_sel_ok(t: &[Token], pos: usize, c: u8) -> (r: bool)
    ensures
        r == sel_ok(toks_view(t@), pos as int, c),
        r ==> pos < t@.len(),
{
    if pos >= t.len() {
        return false;
    }
    let x = &t[pos];
    assert(tk(toks_view(t@), pos as int) == Some(x@));
    if c == 0 {
        matches!(x, Token::Identifier(_))
    } else if c == 1 {
        matches!(x, Token::StringLit(_))
    } else if c == 2 {
        matches!(x, Token::FloatLit(_))
    } else if c == 3 {
        matches!(x, Token::Number(_))
    } else if c == 4 {
        matches!(x, Token::True) || matches!(x, Token::False)
    } else if c == 5 {
        matches!(x, Token::TypeInt) || matches!(x, Token::TypeFloat) || matches!(x, Token::TypeString)
    } else {
        matches!(x, Token::TypeInt) || matches!(x, Token::TypeFloat)
    }
}

fn x_sel(t: &[Token], pos: usize, c: u8) -> (r: XRes)
    requires
        pos <= t@.len() < usize::MAX,
    ensures
        r@ == sel(toks_view(t@), pos as int, c),
        r.within(t@.len() as int),
{
    if x_sel_ok(t, pos, c) {
        XRes::Good(pos + 1, None)
    } else {
        XRes::Bad(ParseFailure { at: pos, exp: 0 })
    }
}

fn x_then_tok(r: XRes, t: &[Token], k: &Token) -> (s: XRes)
    requires
        r.within(t@.len() as int),
        t@.len() < usize::MAX,
    ensures
        s@ == then_tok(r@, toks_view(t@), k@),
        s.within(t@.len() as int),
{
    match r {
        XRes::Bad(e) => XRes::Bad(e),
        XRes::Good(q, a) => x_join(a, x_tok(t, q, k)),
    }
}

fn x_then_sel(r: XRes, t: &[Token], c: u8) -> (s: XRes)
    requires
        r.within(t@.len() as int),
        t@.len() < usize::MAX,
    ensures
        s@ == then_sel(r@, toks_view(t@), c),
        s.within(t@.len() as int),
{
    match r {
        XRes::Bad(e) => XRes::Bad(e),
        XRes::Good(q, a) => x_join(a, x_sel(t, q, c)),
    }
}

fn x_then_semi(r: XRes, t: &[Token]) -> (s: XRes)
    requires
        r.within(t@.len() as int),
        t@.len() < usize::MAX,
    ensures
        s@ == then_semi(r@, toks_view(t@)),
        s.within(t@.len() as int),
{
    match r {
        XRes::Bad(e) => XRes::Bad(e),
        XRes::Good(q, a) => x_join(a, x_opt(x_tok(t, q, &Token::Semicolon), q)),
    }
}

fn x_op_ok(t: &[Token], pos: usize, c: u8) -> (r: bool)
    ensures
        r == op_ok(toks_view(t@), pos as int, c),
        r ==> pos < t@.len(),
{
    if pos >= t.len() {
        return false;
    }
    let x = &t[pos];
    assert(tk(toks_view(t@), pos as int) == Some(x@));
    if c == 0 {
        matches!(x, Token::Mul) || matches!(x, Token::Div)
    } else if c == 1 {
        matches!(x, Token::Add) || matches!(x, Token::Sub)
    } else {
        matches!(x, Token::EqEq) || matches!(x, Token::NotEq) || matches!(x, Token::Lt) || matches!(x, Token::Gt)
            || matches!(x, Token::Le) || matches!(x, Token::Ge)
    }
}

fn x_op_bits(c: u8) -> (r: u64)
    ensures
        r == op_bits(c),
{
    if c == 0 {
        x_kbit(&Token::Mul) | x_kbit(&Token::Div)
    } else if c == 1 {
        x_kbit(&Token::Add) | x_kbit(&Token::Sub)
    } else {
        x_kbit(&Token::EqEq) | x_kbit(&Token::NotEq) | x_kbit(&Token::Lt) | x_kbit(&Token::Gt) | x_kbit(&Token::Le)
            | x_kbit(&Token::Ge)
    }
}

fn x_print(t: &[Token], pos: usize) -> (r: XRes)
    requires
        pos <= t@.len() < usize::MAX,
    ensures
        r@ == d_print(toks_view(t@), pos as int),
        r.within(t@.len() as int),
    decreases t@.len() - pos, 1int,
{
    if !at(t, pos, &Token::Print) {
        XRes::Bad(ParseFailure { at: pos, exp: x_kbit(&Token::Print) })
    } else if !at(t, pos + 1, &Token::LParen) {
        XRes::Bad(ParseFailure { at: pos + 1, exp: x_kbit(&Token::LParen) })
    } else {
        x_then_tok(x_expr(t, pos + 2), t, &Token::RParen)
    }
}

fn x_call(t: &[Token], pos: usize) -> (r: XRes)
    requires
        pos <= t@.len() < usize::MAX,
    ensures
        r@ == d_call(toks_view(t@), pos as int),
        r.within(t@.len() as int),
    decreases t@.len() - pos, 1int,
{
    if !x_sel_ok(t, pos, 0) {
        XRes::Bad(ParseFailure { at: pos, exp: 0 })
    } else if !at(t, pos + 1, &Token::LParen) {
        XRes::Bad(ParseFailure { at: pos + 1, exp: x_kbit(&Token::LParen) })
    } else {
        x_then_tok(x_args(t, pos + 2), t, &Token::RParen)
    }
}

fn x_paren(t: &[Token], pos: usize) -> (r: XRes)
    requires
        pos <= t@.len() < usize::MAX,
    ensures
        r@ == d_paren(toks_view(t@), pos as int),
        r.within(t@.len() as int),
    decreases t@.len() - pos, 1int,
{
    if !at(t, pos, &Token::LParen) {
        XRes::Bad(ParseFailure { at: pos, exp: x_kbit(&Token::LParen) })
    } else {
        x_then_tok(x_expr(t, pos + 1), t, &Token::RParen)
    }
}

fn x_args(t: &[Token], pos: usize) -> (r: XRes)
    requires
        pos <= t@.len() < usize::MAX,
    ensures
        r@ == d_args(toks_view(t@), pos as int),
        r.within(t@.len() as int),
    decreases t@.len() - pos, 6int,
{
    match x_expr(t, pos) {
        XRes::Bad(e) => XRes::Good(pos, Some(e)),
        XRes::Good(q, a) => if pos < q && q <= t.len() {
            x_args_tail(t, q, a)
        } else {
            XRes::Good(q, a)
        },
    }
}

fn x_args_tail(t: &[Token], q: usize, alt: Option<ParseFailure>) -> (r: XRes)
    requires
        q <= t@.len() < usize::MAX,
    ensures
        r@ == d_args_tail(toks_view(t@), q as int, oview(alt)),
        r.within(t@.len() as int),
    decreases t@.len() - q, 6int,
{
    if !at(t, q, &Token::Comma) {
        XRes::Good(q, x_amax(alt, Some(ParseFailure { at: q, exp: x_kbit(&Token::Comma) })))
    } else {
        match x_expr(t, q + 1) {
            XRes::Bad(e) => XRes::Good(q + 1, x_amax(alt, Some(e))),
            XRes::Good(q2, a2) => if q < q2 && q2 <= t.len() {
                x_args_tail(t, q2, x_amax(alt, a2))
            } else {
                XRes::Good(q2, x_amax(alt, a2))
            },
        }
    }
}

fn x_atom(t: &[Token], pos: usize) -> (r: XRes)
    requires
        pos <= t@.len() < usize::MAX,
    ensures
        r@ == d_atom(toks_view(t@), pos as int),
        r.within(t@.len() as int),
    decreases t@.len() - pos, 2int,
{
    let r = x_print(t, pos);
    let r = match r {
        XRes::Good(_, _) => r,
        XRes::Bad(_) => x_alt(r, x_call(t, pos)),
    };
    let r = match r {
        XRes::Good(_, _) => r,
        XRes::Bad(_) => x_alt(r, x_sel(t, pos, 2)),
    };
    let r = match r {
        XRes::Good(_, _) => r,
        XRes::Bad(_) => x_alt(r, x_sel(t, pos, 3)),
    };
    let r = match r {
        XRes::Good(_, _) => r,
        XRes::Bad(_) => x_alt(r, x_sel(t, pos, 1)),
    };
    let r = match r {
        XRes::Good(_, _) => r,
        XRes::Bad(_) => x_alt(r, x_sel(t, pos, 0)),
    };
    let r = match r {
        XRes::Good(_, _) => r,
        XRes::Bad(_) => x_alt(r, x_sel(t, pos, 4)),
    };
    match r {
        XRes::Good(_, _) => r,
        XRes::Bad(_) => x_alt(r, x_paren(t, pos)),
    }
}

fn x_tail(t: &[Token], pos: usize, c: u8) -> (r: XRes)
    requires
        pos <= t@.len() < usize::MAX,
    ensures
        r@ == d_tail(toks_view(t@), pos as int, c),
        r.within(t@.len() as int),
    decreases t@.len() - pos, 0int,
{
    if !x_op_ok(t, pos, c) {
        XRes::Good(pos, Some(ParseFailure { at: pos, exp: x_op_bits(c) }))
    } else {
        let operand = if c == 0 {
            x_atom(t, pos + 1)
        } else if c == 1 {
            x_term(t, pos + 1)
        } else {
            x_bin(t, pos + 1)
        };
        match operand {
            XRes::Bad(e) => XRes::Good(pos, Some(e)),
            XRes::Good(q, a) => if pos < q && q <= t.len() {
                x_join(a, x_tail(t, q, c))
            } else {
                XRes::Good(q, a)
            },
        }
    }
}

fn x_term(t: &[Token], pos: usize) -> (r: XRes)
    requires
        pos <= t@.len() < usize::MAX,
    ensures
        r@ == d_term(toks_view(t@), pos as int),
        r.within(t@.len() as int),
    decreases t@.len() - pos, 3int,
{
    match x_atom(t, pos) {
        XRes::Bad(e) => XRes::Bad(e),
        XRes::Good(q, a) => if pos <= q && q <= t.len() {
            x_join(a, x_tail(t, q, 0))
        } else {
            XRes::Good(q, a)
        },
    }
}

fn x_bin(t: &[Token], pos: usize) -> (r: XRes)
    requires
        pos <= t@.len() < usize::MAX,
    ensures
        r@ == d_bin(toks_view(t@), pos as int),
        r.within(t@.len() as int),
    decreases t@.len() - pos, 4int,
{
    match x_term(t, pos) {
        XRes::Bad(e) => XRes::Bad(e),
        XRes::Good(q, a) => if pos <= q && q <= t.len() {
            x_join(a, x_tail(t, q, 1))
        } else {
            XRes::Good(q, a)
        },
    }
}

fn x_expr(t: &[Token], pos: usize) -> (r: XRes)
    requires
        pos <= t@.len() < usize::MAX,
    ensures
        r@ == d_expr(toks_view(t@), pos as int),
        r.within(t@.len() as int),
    decreases t@.len() - pos, 5int,
{
    match x_bin(t, pos) {
        XRes::Bad(e) => XRes::Bad(e),
        XRes::Good(q, a) => if pos <= q && q <= t.len() {
            x_join(a, x_tail(t, q, 2))
        } else {
            XRes::Good(q, a)
        },
    }
}


fn x_block(t: &[Token], pos: usize) -> (r: XRes)
    requires
        pos <= t@.len() < usize::MAX,
    ensures
        r@ == d_block(toks_view(t@), pos as int),
        r.within(t@.len() as int),
    decreases t@.len() - pos, 1int,
{
    if !at(t, pos, &Token::LBrace) {
        XRes::Bad(ParseFailure { at: pos, exp: x_kbit(&Token::LBrace) })
    } else {
        x_then_tok(x_stmts(t, pos + 1), t, &Token::RBrace)
    }
}

fn x_stmts(t: &[Token], pos: usize) -> (r: XRes)
    requires
        pos <= t@.len() < usize::MAX,
    ensures
        r@ == d_stmts(toks_view(t@), pos as int),
        r.within(t@.len() as int),
    decreases t@.len() - pos, 4int,
{
    match x_stmt(t, pos) {
        XRes::Bad(e) => XRes::Good(pos, Some(e)),
        XRes::Good(q, a) => if pos < q && q <= t.len() {
            x_join(a, x_stmts(t, q))
        } else {
            XRes::Good(q, a)
        },
    }
}

fn x_else(t: &[Token], pos: usize) -> (r: XRes)
    requires
        pos <= t@.len() < usize::MAX,
    ensures
        r@ == d_else(toks_view(t@), pos as int),
        r.within(t@.len() as int),
    decreases t@.len() - pos, 0int,
{
    if !at(t, pos, &Token::Else) {
        XRes::Good(pos, Some(ParseFailure { at: pos, exp: x_kbit(&Token::Else) }))
    } else {
        x_opt(x_block(t, pos + 1), pos)
    }
}

fn x_cond_block(t: &[Token], pos: usize) -> (r: XRes)
    requires
        pos < t@.len() < usize::MAX,
    ensures
        r@ == d_cond_block(toks_view(t@), pos as int),
        r.within(t@.len() as int),
    decreases t@.len() - pos, 0int,
{
    if !at(t, pos + 1, &Token::LParen) {
        XRes::Bad(ParseFailure { at: pos + 1, exp: x_kbit(&Token::LParen) })
    } else {
        match x_then_tok(x_expr(t, pos + 2), t, &Token::RParen) {
            XRes::Bad(e) => XRes::Bad(e),
            XRes::Good(q, a) => if pos < q && q <= t.len() {
                x_join(a, x_block(t, q))
            } else {
                XRes::Good(q, a)
            },
        }
    }
}

fn x_if(t: &[Token], pos: usize) -> (r: XRes)
    requires
        pos <= t@.len() < usize::MAX,
    ensures
        r@ == d_if(toks_view(t@), pos as int),
        r.within(t@.len() as int),
    decreases t@.len() - pos, 2int,
{
    if !at(t, pos, &Token::If) {
        XRes::Bad(ParseFailure { at: pos, exp: x_kbit(&Token::If) })
    } else {
        match x_cond_block(t, pos) {
            XRes::Bad(e) => XRes::Bad(e),
            XRes::Good(q, a) => if pos < q && q <= t.len() {
                x_join(a, x_else(t, q))
            } else {
                XRes::Good(q, a)
            },
        }
    }
}

fn x_while(t: &[Token], pos: usize) -> (r: XRes)
    requires
        pos <= t@.len() < usize::MAX,
    ensures
        r@ == d_while(toks_view(t@), pos as int),
        r.within(t@.len() as int),
    decreases t@.len() - pos, 2int,
{
    if !at(t, pos, &Token::While) {
        XRes::Bad(ParseFailure { at: pos, exp: x_kbit(&Token::While) })
    } else {
        x_cond_block(t, pos)
    }
}

fn x_return(t: &[Token], pos: usize) -> (r: XRes)
    requires
        pos <= t@.len() < usize::MAX,
    ensures
        r@ == d_return(toks_view(t@), pos as int),
        r.within(t@.len() as int),
{
    if !at(t, pos, &Token::Return) {
        XRes::Bad(ParseFailure { at: pos, exp: x_kbit(&Token::Return) })
    } else {
        x_then_semi(x_expr(t, pos + 1), t)
    }
}

fn x_assign(t: &[Token], pos: usize) -> (r: XRes)
    requires
        pos <= t@.len() < usize::MAX,
    ensures
        r@ == d_assign(toks_view(t@), pos as int),
        r.within(t@.len() as int),
{
    if !x_sel_ok(t, pos, 0) {
        XRes::Bad(ParseFailure { at: pos, exp: 0 })
    } else if !at(t, pos + 1, &Token::Assign) {
        XRes::Bad(ParseFailure { at: pos + 1, exp: x_kbit(&Token::Assign) })
    } else {
        x_then_semi(x_expr(t, pos + 2), t)
    }
}

fn x_expr_stmt(t: &[Token], pos: usize) -> (r: XRes)
    requires
        pos <= t@.len() < usize::MAX,
    ensures
        r@ == d_expr_stmt(toks_view(t@), pos as int),
        r.within(t@.len() as int),
{
    x_then_semi(x_expr(t, pos), t)
}

fn x_stmt(t: &[Token], pos: usize) -> (r: XRes)
    requires
        pos <= t@.len() < usize::MAX,
    ensures
        r@ == d_stmt(toks_view(t@), pos as int),
        r.within(t@.len() as int),
    decreases t@.len() - pos, 3int,
{
    let r = x_if(t, pos);
    let r = match r {
        XRes::Good(_, _) => r,
        XRes::Bad(_) => x_alt(r, x_while(t, pos)),
    };
    let r = match r {
        XRes::Good(_, _) => r,
        XRes::Bad(_) => x_alt(r, x_return(t, pos)),
    };
    let r = match r {
        XRes::Good(_, _) => r,
        XRes::Bad(_) => x_alt(r, x_assign(t, pos)),
    };
    match r {
        XRes::Good(_, _) => r,
        XRes::Bad(_) => x_alt(r, x_expr_stmt(t, pos)),
    }
}

fn x_param(t: &[Token], pos: usize) -> (r: XRes)
    requires
        pos <= t@.len() < usize::MAX,
    ensures
        r@ == d_param(toks_view(t@), pos as int),
        r.within(t@.len() as int),
{
    if !x_sel_ok(t, pos, 0) {
        XRes::Bad(ParseFailure { at: pos, exp: 0 })
    } else if !at(t, pos + 1, &Token::Assign) {
        XRes::Bad(ParseFailure { at: pos + 1, exp: x_kbit(&Token::Assign) })
    } else {
        x_sel(t, pos + 2, 5)
    }
}

fn x_params_tail(t: &[Token], q: usize, alt: Option<ParseFailure>) -> (r: XRes)
    requires
        q <= t@.len() < usize::MAX,
    ensures
        r@ == d_params_tail(toks_view(t@), q as int, oview(alt)),
        r.within(t@.len() as int),
    decreases t@.len() - q,
{
    if !at(t, q, &Token::Comma) {
        XRes::Good(q, x_amax(alt, Some(ParseFailure { at: q, exp: x_kbit(&Token::Comma) })))
    } else {
        match x_param(t, q + 1) {
            XRes::Bad(e) => XRes::Good(q + 1, x_amax(alt, Some(e))),
            XRes::Good(q2, a2) => if q < q2 && q2 <= t.len() {
                x_params_tail(t, q2, x_amax(alt, a2))
            } else {
                XRes::Good(q2, x_amax(alt, a2))
            },
        }
    }
}

fn x_params(t: &[Token], pos: usize) -> (r: XRes)
    requires
        pos <= t@.len() < usize::MAX,
    ensures
        r@ == d_params(toks_view(t@), pos as int),
        r.within(t@.len() as int),
{
    match x_param(t, pos) {
        XRes::Bad(e) => XRes::Good(pos, Some(e)),
        XRes::Good(q, a) => x_params_tail(t, q, a),
    }
}

fn x_bridge(t: &[Token], pos: usize) -> (r: XRes)
    requires
        pos <= t@.len() < usize::MAX,
    ensures
        r@ == d_bridge(toks_view(t@), pos as int),
        r.within(t@.len() as int),
{
    if !at(t, pos, &Token::Bridge) {
        XRes::Bad(ParseFailure { at: pos, exp: x_kbit(&Token::Bridge) })
    } else if !x_sel_ok(t, pos + 1, 0) {
        XRes::Bad(ParseFailure { at: pos + 1, exp: 0 })
    } else if !x_sel_ok(t, pos + 2, 1) {
        XRes::Bad(ParseFailure { at: pos + 2, exp: 0 })
    } else if !at(t, pos + 3, &Token::LBrace) {
        XRes::Bad(ParseFailure { at: pos + 3, exp: x_kbit(&Token::LBrace) })
    } else if !at(t, pos + 4, &Token::Func) {
        XRes::Bad(ParseFailure { at: pos + 4, exp: x_kbit(&Token::Func) })
    } else if !x_sel_ok(t, pos + 5, 0) {
        XRes::Bad(ParseFailure { at: pos + 5, exp: 0 })
    } else if !at(t, pos + 6, &Token::LParen) {
        XRes::Bad(ParseFailure { at: pos + 6, exp: x_kbit(&Token::LParen) })
    } else {
        let r = x_then_tok(x_params(t, pos + 7), t, &Token::RParen);
        let r = x_then_tok(r, t, &Token::RArrow);
        let r = x_then_sel(r, t, 6);
        x_then_tok(r, t, &Token::RBrace)
    }
}

fn x_let(t: &[Token], pos: usize) -> (r: XRes)
    requires
        pos <= t@.len() < usize::MAX,
    ensures
        r@ == d_let(toks_view(t@), pos as int),
        r.within(t@.len() as int),
{
    if !at(t, pos, &Token::Let) {
        XRes::Bad(ParseFailure { at: pos, exp: x_kbit(&Token::Let) })
    } else if !x_sel_ok(t, pos + 1, 0) {
        XRes::Bad(ParseFailure { at: pos + 1, exp: 0 })
    } else if !at(t, pos + 2, &Token::Assign) {
        XRes::Bad(ParseFailure { at: pos + 2, exp: x_kbit(&Token::Assign) })
    } else {
        x_then_semi(x_expr(t, pos + 3), t)
    }
}

fn x_func(t: &[Token], pos: usize) -> (r: XRes)
    requires
        pos <= t@.len() < usize::MAX,
    ensures
        r@ == d_func(toks_view(t@), pos as int),
        r.within(t@.len() as int),
{
    if !at(t, pos, &Token::Func) {
        XRes::Bad(ParseFailure { at: pos, exp: x_kbit(&Token::Func) })
    } else if !x_sel_ok(t, pos + 1, 0) {
        XRes::Bad(ParseFailure { at: pos + 1, exp: 0 })
    } else if !at(t, pos + 2, &Token::LParen) {
        XRes::Bad(ParseFailure { at: pos + 2, exp: x_kbit(&Token::LParen) })
    } else {
        let r = x_then_tok(x_params(t, pos + 3), t, &Token::RParen);
        let r = x_then_tok(r, t, &Token::RArrow);
        let r = x_then_sel(r, t, 5);
        let head = x_then_tok(r, t, &Token::LBrace);
        match head {
            XRes::Bad(e) => XRes::Bad(e),
            XRes::Good(q, a) => x_then_tok(x_join(a, x_stmts(t, q)), t, &Token::RBrace),
        }
    }
}

fn x_items(t: &[Token], pos: usize) -> (r: XRes)
    requires
        pos <= t@.len() < usize::MAX,
    ensures
        r@ == d_items(toks_view(t@), pos as int),
        r.within(t@.len() as int),
    decreases t@.len() - pos,
{
    match x_assign(t, pos) {
        XRes::Bad(e) => XRes::Good(pos, Some(e)),
        XRes::Good(q, a) => if pos < q && q <= t.len() {
            x_join(a, x_items(t, q))
        } else {
            XRes::Good(q, a)
        },
    }
}

fn x_unit_of(t: &[Token], pos: usize, k: &Token) -> (r: XRes)
    requires
        pos <= t@.len() < usize::MAX,
    ensures
        r@ == d_unit_of(toks_view(t@), pos as int, k@),
        r.within(t@.len() as int),
{
    if !at(t, pos, k) {
        XRes::Bad(ParseFailure { at: pos, exp: x_kbit(k) })
    } else if !x_sel_ok(t, pos + 1, 1) {
        XRes::Bad(ParseFailure { at: pos + 1, exp: 0 })
    } else if !at(t, pos + 2, &Token::LBrace) {
        XRes::Bad(ParseFailure { at: pos + 2, exp: x_kbit(&Token::LBrace) })
    } else {
        x_then_tok(x_items(t, pos + 3), t, &Token::RBrace)
    }
}

fn x_unit(t: &[Token], pos: usize) -> (r: XRes)
    requires
        pos <= t@.len() < usize::MAX,
    ensures
        r@ == d_unit(toks_view(t@), pos as int),
        r.within(t@.len() as int),
{
    let r = x_unit_of(t, pos, &Token::Package);
    match r {
        XRes::Good(_, _) => r,
        XRes::Bad(_) => x_alt(r, x_unit_of(t, pos, &Token::Service)),
    }
}

fn x_units(t: &[Token], pos: usize) -> (r: XRes)
    requires
        pos <= t@.len() < usize::MAX,
    ensures
        r@ == d_units(toks_view(t@), pos as int),
        r.within(t@.len() as int),
    decreases t@.len() - pos,
{
    match x_unit(t, pos) {
        XRes::Bad(e) => XRes::Good(pos, Some(e)),
        XRes::Good(q, a) => if pos < q && q <= t.len() {
            x_join(a, x_units(t, q))
        } else {
            XRes::Good(q, a)
        },
    }
}

fn x_system(t: &[Token], pos: usize) -> (r: XRes)
    requires
        pos <= t@.len() < usize::MAX,
    ensures
        r@ == d_system(toks_view(t@), pos as int),
        r.within(t@.len() as int),
{
    if !at(t, pos, &Token::System) {
        XRes::Bad(ParseFailure { at: pos, exp: x_kbit(&Token::System) })
    } else if !at(t, pos + 1, &Token::LBrace) {
        XRes::Bad(ParseFailure { at: pos + 1, exp: x_kbit(&Token::LBrace) })
    } else {
        x_then_tok(x_units(t, pos + 2), t, &Token::RBrace)
    }
}

fn x_use(t: &[Token], pos: usize) -> (r: XRes)
    requires
        pos <= t@.len() < usize::MAX,
    ensures
        r@ == d_use(toks_view(t@), pos as int),
        r.within(t@.len() as int),
{
    if !at(t, pos, &Token::Use) {
        XRes::Bad(ParseFailure { at: pos, exp: x_kbit(&Token::Use) })
    } else if !x_sel_ok(t, pos + 1, 1) {
        XRes::Bad(ParseFailure { at: pos + 1, exp: 0 })
    } else {
        x_then_semi(XRes::Good(pos + 2, None), t)
    }
}

fn x_top(t: &[Token], pos: usize) -> (r: XRes)
    requires
        pos <= t@.len() < usize::MAX,
    ensures
        r@ == d_top(toks_view(t@), pos as int),
        r.within(t@.len() as int),
{
    let r = x_bridge(t, pos);
    let r = match r {
        XRes::Good(_, _) => r,
        XRes::Bad(_) => x_alt(r, x_let(t, pos)),
    };
    let r = match r {
        XRes::Good(_, _) => r,
        XRes::Bad(_) => x_alt(r, x_func(t, pos)),
    };
    let r = match r {
        XRes::Good(_, _) => r,
        XRes::Bad(_) => x_alt(r, x_system(t, pos)),
    };
    let r = match r {
        XRes::Good(_, _) => r,
        XRes::Bad(_) => x_alt(r, x_use(t, pos)),
    };
    let r = match r {
        XRes::Good(_, _) => r,
        XRes::Bad(_) => x_alt(r, x_then_semi(x_if(t, pos), t)),
    };
    let r = match r {
        XRes::Good(_, _) => r,
        XRes::Bad(_) => x_alt(r, x_then_semi(x_while(t, pos), t)),
    };
    match r {
        XRes::Good(_, _) => r,
        XRes::Bad(_) => x_alt(r, x_expr_stmt(t, pos)),
    }
}

fn x_tops(t: &[Token], pos: usize) -> (r: XRes)
    requires
        pos <= t@.len() < usize::MAX,
    ensures
        r@ == d_tops(toks_view(t@), pos as int),
        r.within(t@.len() as int),
    decreases t@.len() - pos,
{
    match x_top(t, pos) {
        XRes::Bad(e) => XRes::Good(pos, Some(e)),
        XRes::Good(q, a) => if pos < q && q <= t.len() {
            x_join(a, x_tops(t, q))
        } else {
            XRes::Good(q, a)
        },
    }
}

/// The failure that a program reports, if it does not parse: its items, then
/// the end of the input.
pub fn program_failure(t: &[Token]) -> (r: Option<ParseFailure>)
    requires
        t@.len() < usize::MAX,
    ensures
        oview(r) == program_error(toks_view(t@)),
{
    match x_tops(t, 0) {
        XRes::Bad(e) => Some(e),
        XRes::Good(q, a) => {
            let end = if q == t.len() {
                XRes::Good(q, None)
            } else {
                XRes::Bad(ParseFailure { at: q, exp: 1 })
            };
            assert(end@ == d_end(toks_view(t@), q as int));
            match x_join(a, end) {
                XRes::Good(_, _) => None,
                XRes::Bad(e) => Some(e),
            }
        },
    }
}

} // verus!
