//! The text that `{:?}` writes for a whole program (its list of top-level
//! items), as pieces: the build protocol hashes it to name a system generation.
//! Float literals are pieces of their own, written by the host.
use vstd::prelude::*;
use crate::ast::{
    Expr, SExpr, Stmt, SStmt, FuncParam, SFuncParam, BridgeParam, SBridgeParam, ConfigItem, SConfigItem,
    SystemUnit, SSystemUnit, TopLevel, STopLevel, stmts_view, lemma_stmts_view,
};
use crate::semantics::{stmt_size, stmts_size};
use crate::lsp::{str_debug, debug_quote};
use crate::text::{lit, concat};
use crate::report::{ReportPiece, SPiece, pieces_view, text, expr_debug, x_debug, push_text};

verus! {

/// How `{:?}` writes a statement.
pub open spec fn stmt_debug(s: SStmt) -> Seq<SPiece>
    decreases stmt_size(s), 1nat,
{
    match s {
        SStmt::Expr(e) => text("Expr("@) + expr_debug(e) + text(")"@),
        SStmt::If(c, t, e) => text("If("@) + expr_debug(c) + text(", ["@) + stmts_debug(t) + text("], ["@)
            + stmts_debug(e) + text("])"@),
        SStmt::While(c, b) => text("While("@) + expr_debug(c) + text(", ["@) + stmts_debug(b) + text("])"@),
        SStmt::Return(e) => text("Return("@) + expr_debug(e) + text(")"@),
    }
}

/// The statements of a list, separated by `, `.
pub open spec fn stmts_debug(s: Seq<SStmt>) -> Seq<SPiece>
    decreases stmts_size(s), 0nat,
{
    if s.len() == 0 {
        Seq::empty()
    } else if s.len() == 1 {
        stmt_debug(s[0])
    } else {
        stmt_debug(s[0]) + text(", "@) + stmts_debug(s.subrange(1, s.len() as int))
    }
}

pub open spec fn fparam_text(p: SFuncParam) -> Seq<char> {
    "FuncParam { name: "@ + str_debug(p.name) + ", ty: "@ + str_debug(p.ty) + " }"@
}

pub open spec fn bparam_text(p: SBridgeParam) -> Seq<char> {
    "Param { name: "@ + str_debug(p.name) + ", ty: "@ + str_debug(p.ty) + " }"@
}

/// Texts separated by `, `.
pub open spec fn joined(s: Seq<Seq<char>>) -> Seq<char>
    decreases s.len(),
{
    if s.len() == 0 {
        Seq::empty()
    } else if s.len() == 1 {
        s[0]
    } else {
        joined(s.drop_last()) + ", "@ + s.last()
    }
}

/// Piece lists separated by `, `.
pub open spec fn joined_pieces(s: Seq<Seq<SPiece>>) -> Seq<SPiece>
    decreases s.len(),
{
    if s.len() == 0 {
        Seq::empty()
    } else if s.len() == 1 {
        s[0]
    } else {
        joined_pieces(s.drop_last()) + text(", "@) + s.last()
    }
}

pub open spec fn item_debug(c: SConfigItem) -> Seq<SPiece> {
    text("ConfigItem { key: "@ + str_debug(c.key) + ", value: "@) + expr_debug(c.value) + text(" }"@)
}

pub open spec fn unit_debug(u: SSystemUnit) -> Seq<SPiece> {
    match u {
        SSystemUnit::Package { name, config } => text("Package { name: "@ + str_debug(name) + ", config: ["@)
            + joined_pieces(config.map_values(|c: SConfigItem| item_debug(c))) + text("] }"@),
        SSystemUnit::Service { name, config } => text("Service { name: "@ + str_debug(name) + ", config: ["@)
            + joined_pieces(config.map_values(|c: SConfigItem| item_debug(c))) + text("] }"@),
    }
}

/// How `{:?}` writes a top-level item.
pub open spec fn top_debug(t: STopLevel) -> Seq<SPiece> {
    match t {
        STopLevel::BridgeDecl { lang, lib, name, params, ret_ty } => text(
            "BridgeDecl { lang: "@ + str_debug(lang) + ", lib: "@ + str_debug(lib) + ", name: "@ + str_debug(name)
                + ", params: ["@ + joined(params.map_values(|p: SBridgeParam| bparam_text(p))) + "], ret_ty: "@
                + str_debug(ret_ty) + " }"@,
        ),
        STopLevel::LetDecl { name, value } => text("LetDecl { name: "@ + str_debug(name) + ", value: "@)
            + expr_debug(value) + text(" }"@),
        STopLevel::FuncDecl(f) => text(
            "FuncDecl(FuncDecl { name: "@ + str_debug(f.name) + ", params: ["@ + joined(
                f.params.map_values(|p: SFuncParam| fparam_text(p)),
            ) + "], ret_ty: "@ + str_debug(f.ret_ty) + ", body: ["@,
        ) + stmts_debug(f.body) + text("] })"@),
        STopLevel::SystemDecl { units } => text("SystemDecl { units: ["@) + joined_pieces(
            units.map_values(|u: SSystemUnit| unit_debug(u)),
        ) + text("] }"@),
        STopLevel::UseDecl { path } => text("UseDecl { path: "@ + str_debug(path) + " }"@),
        STopLevel::Stmt(s) => text("Stmt("@) + stmt_debug(s) + text(")"@),
    }
}

/// How `{:?}` writes a program: its items in brackets, separated by `, `.
pub open spec fn program_debug(items: Seq<STopLevel>) -> Seq<SPiece> {
    text("["@) + joined_pieces(items.map_values(|t: STopLevel| top_debug(t))) + text("]"@)
}

/// Appends the pieces of a statement.
fn x_stmt_debug(s: &Stmt, out: &mut Vec<ReportPiece>)
    ensures
        pieces_view(final(out)@) == pieces_view(old(out)@) + stmt_debug(s.view()),
    decreases stmt_size(s.view()), 1nat,
{
    let ghost o = pieces_view(out@);
    match s {
        Stmt::Expr(e) => {
            push_text(out, lit("Expr("));
            x_debug(e, out);
            push_text(out, lit(")"));
        },
        Stmt::If(c, t, e) => {
            proof {
                lemma_stmts_view(t@);
                lemma_stmts_view(e@);
                assert(stmts_view(t@).subrange(0, t@.len() as int) =~= stmts_view(t@));
                assert(stmts_view(e@).subrange(0, e@.len() as int) =~= stmts_view(e@));
            }
            push_text(out, lit("If("));
            x_debug(c, out);
            push_text(out, lit(", ["));
            x_stmts_debug(t, 0, out);
            push_text(out, lit("], ["));
            x_stmts_debug(e, 0, out);
            push_text(out, lit("])"));
        },
        Stmt::While(c, b) => {
            proof {
                lemma_stmts_view(b@);
                assert(stmts_view(b@).subrange(0, b@.len() as int) =~= stmts_view(b@));
            }
            push_text(out, lit("While("));
            x_debug(c, out);
            push_text(out, lit(", ["));
            x_stmts_debug(b, 0, out);
            push_text(out, lit("])"));
        },
        Stmt::Return(e) => {
            push_text(out, lit("Return("));
            x_debug(e, out);
            push_text(out, lit(")"));
        },
    }
    assert(pieces_view(out@) =~= o + stmt_debug(s.view()));
}

/// Appends `v[k..]`, separated by `, `.
fn x_stmts_debug(v: &Vec<Stmt>, k: usize, out: &mut Vec<ReportPiece>)
    requires
        k <= v@.len(),
    ensures
        pieces_view(final(out)@) == pieces_view(old(out)@) + stmts_debug(stmts_view(v@).subrange(k as int, v@.len() as int)),
    decreases stmts_size(stmts_view(v@).subrange(k as int, v@.len() as int)), 0nat,
{
    let ghost a = stmts_view(v@).subrange(k as int, v@.len() as int);
    let ghost o = pieces_view(out@);
    proof {
        lemma_stmts_view(v@);
    }
    if k == v.len() {
        assert(o + stmts_debug(a) =~= o);
        return;
    }
    proof {
        assert(a[0] == v@[k as int].view());
        assert(a.subrange(1, a.len() as int) =~= stmts_view(v@).subrange(k + 1, v@.len() as int));
    }
    x_stmt_debug(&v[k], out);
    if k + 1 == v.len() {
        return;
    }
    push_text(out, lit(", "));
    x_stmts_debug(v, k + 1, out);
    assert(pieces_view(out@) =~= o + stmts_debug(a));
}

fn x_fparams(ps: &Vec<FuncParam>) -> (r: String)
    ensures
        r@ == joined(ps@.map_values(|p: FuncParam| p.view()).map_values(|p: SFuncParam| fparam_text(p))),
{
    let ghost tv = ps@.map_values(|p: FuncParam| p.view()).map_values(|p: SFuncParam| fparam_text(p));
    let mut r = String::new();
    let mut k: usize = 0;
    proof {
        assert(tv.take(0) =~= Seq::<Seq<char>>::empty());
    }
    while k < ps.len()
        invariant
            k <= ps@.len(),
            tv == ps@.map_values(|p: FuncParam| p.view()).map_values(|p: SFuncParam| fparam_text(p)),
            r@ == joined(tv.take(k as int)),
        decreases ps@.len() - k,
    {
        proof {
            assert(tv.take(k + 1).drop_last() =~= tv.take(k as int));
        }
        let p = &ps[k];
        let t = concat(concat(concat(concat(lit("FuncParam { name: "), debug_quote(&p.name).as_str()), ", ty: "), debug_quote(&p.ty).as_str()), " }");
        assert(t@ == tv[k as int]);
        if k == 0 {
            r = t;
        } else {
            r = concat(concat(r, ", "), t.as_str());
        }
        k = k + 1;
    }
    proof {
        assert(tv.take(ps@.len() as int) =~= tv);
    }
    r
}

fn x_bparams(ps: &Vec<BridgeParam>) -> (r: String)
    ensures
        r@ == joined(ps@.map_values(|p: BridgeParam| p.view()).map_values(|p: SBridgeParam| bparam_text(p))),
{
    let ghost tv = ps@.map_values(|p: BridgeParam| p.view()).map_values(|p: SBridgeParam| bparam_text(p));
    let mut r = String::new();
    let mut k: usize = 0;
    proof {
        assert(tv.take(0) =~= Seq::<Seq<char>>::empty());
    }
    while k < ps.len()
        invariant
            k <= ps@.len(),
            tv == ps@.map_values(|p: BridgeParam| p.view()).map_values(|p: SBridgeParam| bparam_text(p)),
            r@ == joined(tv.take(k as int)),
        decreases ps@.len() - k,
    {
        proof {
            assert(tv.take(k + 1).drop_last() =~= tv.take(k as int));
        }
        let t = match &ps[k] {
            BridgeParam::Param { name, ty } => concat(concat(concat(concat(lit("Param { name: "), debug_quote(name).as_str()), ", ty: "), debug_quote(ty).as_str()), " }"),
        };
        assert(t@ == tv[k as int]);
        if k == 0 {
            r = t;
        } else {
            r = concat(concat(r, ", "), t.as_str());
        }
        k = k + 1;
    }
    proof {
        assert(tv.take(ps@.len() as int) =~= tv);
    }
    r
}

fn x_items_debug(cs: &Vec<ConfigItem>, out: &mut Vec<ReportPiece>)
    ensures
        pieces_view(final(out)@) == pieces_view(old(out)@) + joined_pieces(
            cs@.map_values(|c: ConfigItem| c.view()).map_values(|c: SConfigItem| item_debug(c)),
        ),
{
    let ghost o = pieces_view(out@);
    let ghost tv = cs@.map_values(|c: ConfigItem| c.view()).map_values(|c: SConfigItem| item_debug(c));
    let mut k: usize = 0;
    proof {
        assert(tv.take(0) =~= Seq::<Seq<SPiece>>::empty());
        assert(pieces_view(out@) =~= o + joined_pieces(tv.take(0)));
    }
    while k < cs.len()
        invariant
            k <= cs@.len(),
            tv == cs@.map_values(|c: ConfigItem| c.view()).map_values(|c: SConfigItem| item_debug(c)),
            pieces_view(out@) == o + joined_pieces(tv.take(k as int)),
        decreases cs@.len() - k,
    {
        proof {
            assert(tv.take(k + 1).drop_last() =~= tv.take(k as int));
        }
        let ghost before = pieces_view(out@);
        if k > 0 {
            push_text(out, lit(", "));
        }
        let c = &cs[k];
        push_text(out, concat(concat(lit("ConfigItem { key: "), debug_quote(&c.key).as_str()), ", value: "));
        x_debug(&c.value, out);
        push_text(out, lit(" }"));
        proof {
            assert(tv[k as int] == item_debug(c.view()));
            if k == 0 {
                assert(tv.take(1)[0] == tv[0]);
            }
            assert(pieces_view(out@) =~= o + joined_pieces(tv.take(k + 1)));
        }
        k = k + 1;
    }
    proof {
        assert(tv.take(cs@.len() as int) =~= tv);
    }
}

fn x_unit_debug(u: &SystemUnit, out: &mut Vec<ReportPiece>)
    ensures
        pieces_view(final(out)@) == pieces_view(old(out)@) + unit_debug(u.view()),
{
    let ghost o = pieces_view(out@);
    match u {
        SystemUnit::Package { name, config } => {
            push_text(out, concat(concat(lit("Package { name: "), debug_quote(name).as_str()), ", config: ["));
            x_items_debug(config, out);
            push_text(out, lit("] }"));
        },
        SystemUnit::Service { name, config } => {
            push_text(out, concat(concat(lit("Service { name: "), debug_quote(name).as_str()), ", config: ["));
            x_items_debug(config, out);
            push_text(out, lit("] }"));
        },
    }
    assert(pieces_view(out@) =~= o + unit_debug(u.view()));
}

fn x_top_debug(t: &TopLevel, out: &mut Vec<ReportPiece>)
    ensures
        pieces_view(final(out)@) == pieces_view(old(out)@) + top_debug(t.view()),
{
    let ghost o = pieces_view(out@);
    match t {
        TopLevel::BridgeDecl { lang, lib, name, params, ret_ty } => {
            let mut s = concat(concat(lit("BridgeDecl { lang: "), debug_quote(lang).as_str()), ", lib: ");
            s = concat(concat(concat(s, debug_quote(lib).as_str()), ", name: "), debug_quote(name).as_str());
            s = concat(concat(concat(s, ", params: ["), x_bparams(params).as_str()), "], ret_ty: ");
            s = concat(concat(s, debug_quote(ret_ty).as_str()), " }");
            push_text(out, s);
        },
        TopLevel::LetDecl { name, value } => {
            push_text(out, concat(concat(lit("LetDecl { name: "), debug_quote(name).as_str()), ", value: "));
            x_debug(value, out);
            push_text(out, lit(" }"));
        },
        TopLevel::FuncDecl(f) => {
            let mut s = concat(concat(lit("FuncDecl(FuncDecl { name: "), debug_quote(&f.name).as_str()), ", params: [");
            s = concat(concat(concat(s, x_fparams(&f.params).as_str()), "], ret_ty: "), debug_quote(&f.ret_ty).as_str());
            s = concat(s, ", body: [");
            push_text(out, s);
            proof {
                lemma_stmts_view(f.body@);
                assert(stmts_view(f.body@).subrange(0, f.body@.len() as int) =~= stmts_view(f.body@));
            }
            x_stmts_debug(&f.body, 0, out);
            push_text(out, lit("] })"));
        },
        TopLevel::SystemDecl { units } => {
            push_text(out, lit("SystemDecl { units: ["));
            let ghost o2 = pieces_view(out@);
            let ghost tv = units@.map_values(|u: SystemUnit| u.view()).map_values(|u: SSystemUnit| unit_debug(u));
            let mut k: usize = 0;
            proof {
                assert(tv.take(0) =~= Seq::<Seq<SPiece>>::empty());
                assert(pieces_view(out@) =~= o2 + joined_pieces(tv.take(0)));
            }
            while k < units.len()
                invariant
                    k <= units@.len(),
                    tv == units@.map_values(|u: SystemUnit| u.view()).map_values(|u: SSystemUnit| unit_debug(u)),
                    pieces_view(out@) == o2 + joined_pieces(tv.take(k as int)),
                decreases units@.len() - k,
            {
                proof {
                    assert(tv.take(k + 1).drop_last() =~= tv.take(k as int));
                }
                if k > 0 {
                    push_text(out, lit(", "));
                }
                x_unit_debug(&units[k], out);
                proof {
                    if k == 0 {
                        assert(tv.take(1)[0] == tv[0]);
                    }
                    assert(pieces_view(out@) =~= o2 + joined_pieces(tv.take(k + 1)));
                }
                k = k + 1;
            }
            proof {
                assert(tv.take(units@.len() as int) =~= tv);
            }
            push_text(out, lit("] }"));
        },
        TopLevel::UseDecl { path } => {
            push_text(out, concat(concat(lit("UseDecl { path: "), debug_quote(path).as_str()), " }"));
        },
        TopLevel::Stmt(s) => {
            push_text(out, lit("Stmt("));
            x_stmt_debug(s, out);
            push_text(out, lit(")"));
        },
    }
    assert(pieces_view(out@) =~= o + top_debug(t.view()));
}

/// The pieces of a whole program as `{:?}` writes its list of items; the build
/// protocol names a generation after a hash of this text.
pub fn program_debug_text(items: &[TopLevel]) -> (r: Vec<ReportPiece>)
    ensures
        pieces_view(r@) == program_debug(items@.map_values(|t: TopLevel| t.view())),
{
    let ghost tv = items@.map_values(|t: TopLevel| t.view()).map_values(|t: STopLevel| top_debug(t));
    let mut out: Vec<ReportPiece> = Vec::new();
    push_text(&mut out, lit("["));
    let ghost o2 = pieces_view(out@);
    let mut k: usize = 0;
    proof {
        assert(tv.take(0) =~= Seq::<Seq<SPiece>>::empty());
        assert(pieces_view(out@) =~= o2 + joined_pieces(tv.take(0)));
    }
    while k < items.len()
        invariant
            k <= items@.len(),
            tv == items@.map_values(|t: TopLevel| t.view()).map_values(|t: STopLevel| top_debug(t)),
            pieces_view(out@) == o2 + joined_pieces(tv.take(k as int)),
        decreases items@.len() - k,
    {
        proof {
            assert(tv.take(k + 1).drop_last() =~= tv.take(k as int));
        }
        if k > 0 {
            push_text(&mut out, lit(", "));
        }
        x_top_debug(&items[k], &mut out);
        proof {
            if k == 0 {
                assert(tv.take(1)[0] == tv[0]);
            }
            assert(pieces_view(out@) =~= o2 + joined_pieces(tv.take(k + 1)));
        }
        k = k + 1;
    }
    proof {
        assert(tv.take(items@.len() as int) =~= tv);
    }
    push_text(&mut out, lit("]"));
    proof {
        assert(items@.map_values(|t: TopLevel| t.view()).map_values(|t: STopLevel| top_debug(t)) == tv);
        assert(pieces_view(out@) =~= program_debug(items@.map_values(|t: TopLevel| t.view())));
    }
    out
}

} // verus!
