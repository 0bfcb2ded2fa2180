//! The report of a `system` declaration, with configuration values written as
//! `{:?}` writes the syntax tree. A float literal is kept as its own piece of a
//! line: its text is what `{:?}` writes for the double it denotes, which the
//! host that prints the report supplies, as it does for `print`.
use vstd::prelude::*;
use crate::ast::{Expr, SExpr, SystemUnit, SSystemUnit, ConfigItem, SConfigItem, exprs_view, lemma_exprs_view};
use crate::semantics::{expr_size, exprs_size};
use crate::interpreter::Environment;
use crate::lsp::{str_debug, debug_quote};
use crate::text::{lit, concat, i64_to_string, int_decimal};

verus! {

/// A piece of a report line: text as it is printed, or a float literal, which
/// is printed as `{:?}` writes the double that it denotes.
#[derive(Debug, Clone, PartialEq)]
pub enum ReportPiece {
    Text(String),
    Float(String),
}

pub enum SPiece {
    Text(Seq<char>),
    Float(Seq<char>),
}

impl ReportPiece {
    pub open spec fn view(&self) -> SPiece {
        match self {
            ReportPiece::Text(s) => SPiece::Text(s@),
            ReportPiece::Float(s) => SPiece::Float(s@),
        }
    }
}

pub open spec fn pieces_view(v: Seq<ReportPiece>) -> Seq<SPiece> {
    v.map_values(|p: ReportPiece| p.view())
}

/// A single text piece.
pub open spec fn text(s: Seq<char>) -> Seq<SPiece> {
    seq![SPiece::Text(s)]
}

/// How `{:?}` writes an expression, piece by piece.
pub open spec fn expr_debug(e: SExpr) -> Seq<SPiece>
    decreases expr_size(e), 1nat,
{
    match e {
        SExpr::Number(n) => text("Number("@ + int_decimal(n as int) + ")"@),
        SExpr::FloatLit(t) => text("FloatLit("@) + seq![SPiece::Float(t)] + text(")"@),
        SExpr::StringLit(s) => text("StringLit("@ + str_debug(s) + ")"@),
        SExpr::Identifier(s) => text("Identifier("@ + str_debug(s) + ")"@),
        SExpr::Bool(b) => if b {
            text("Bool(true)"@)
        } else {
            text("Bool(false)"@)
        },
        SExpr::Print(x) => text("Print("@) + expr_debug(*x) + text(")"@),
        SExpr::Call(n, args) => text("Call("@ + str_debug(n) + ", ["@) + exprs_debug(args) + text("])"@),
        SExpr::BinOp(l, op, r) => text("BinOp("@) + expr_debug(*l) + text(", "@ + str_debug(op) + ", "@)
            + expr_debug(*r) + text(")"@),
        SExpr::Compare(l, op, r) => text("Compare("@) + expr_debug(*l) + text(", "@ + str_debug(op) + ", "@)
            + expr_debug(*r) + text(")"@),
        SExpr::Assign(n, x) => text("Assign("@ + str_debug(n) + ", "@) + expr_debug(*x) + text(")"@),
    }
}

/// The expressions of a list, written by `{:?}` and separated by `, `.
pub open spec fn exprs_debug(s: Seq<SExpr>) -> Seq<SPiece>
    decreases exprs_size(s), 0nat,
{
    if s.len() == 0 {
        Seq::empty()
    } else if s.len() == 1 {
        expr_debug(s[0])
    } else {
        expr_debug(s[0]) + text(", "@) + exprs_debug(s.subrange(1, s.len() as int))
    }
}

fn push_piece(out: &mut Vec<ReportPiece>, p: ReportPiece)
    ensures
        pieces_view(final(out)@) == pieces_view(old(out)@).push(p.view()),
{
    let ghost before = out@;
    out.push(p);
    assert(pieces_view(out@) =~= pieces_view(before).push(p.view()));
}

pub(crate) fn push_text(out: &mut Vec<ReportPiece>, s: String)
    ensures
        pieces_view(final(out)@) == pieces_view(old(out)@) + text(s@),
{
    push_piece(out, ReportPiece::Text(s));
    assert(pieces_view(old(out)@).push(SPiece::Text(s@)) =~= pieces_view(old(out)@) + text(s@));
}

/// Appends the pieces of an expression as `{:?}` writes it.
pub(crate) fn x_debug(e: &Expr, out: &mut Vec<ReportPiece>)
    ensures
        pieces_view(final(out)@) == pieces_view(old(out)@) + expr_debug(e.view()),
    decreases expr_size(e.view()), 1nat,
{
    let ghost o = pieces_view(out@);
    match e {
        Expr::Number(n) => push_text(out, concat(concat(lit("Number("), i64_to_string(*n).as_str()), ")")),
        Expr::FloatLit(t) => {
            push_text(out, lit("FloatLit("));
            push_piece(out, ReportPiece::Float(t.clone()));
            push_text(out, lit(")"));
            assert(pieces_view(out@) =~= o + expr_debug(e.view()));
        },
        Expr::StringLit(s) => push_text(out, concat(concat(lit("StringLit("), debug_quote(s).as_str()), ")")),
        Expr::Identifier(s) => push_text(out, concat(concat(lit("Identifier("), debug_quote(s).as_str()), ")")),
        Expr::Bool(b) => if *b {
            push_text(out, lit("Bool(true)"))
        } else {
            push_text(out, lit("Bool(false)"))
        },
        Expr::Print(x) => {
            push_text(out, lit("Print("));
            x_debug(x, out);
            push_text(out, lit(")"));
            assert(pieces_view(out@) =~= o + expr_debug(e.view()));
        },
        Expr::Call(n, args) => {
            proof {
                lemma_exprs_view(args@);
                assert(exprs_view(args@).subrange(0, args@.len() as int) =~= exprs_view(args@));
            }
            push_text(out, concat(concat(lit("Call("), debug_quote(n).as_str()), ", ["));
            x_exprs_debug(args, 0, out);
            push_text(out, lit("])"));
            assert(pieces_view(out@) =~= o + expr_debug(e.view()));
        },
        Expr::BinOp(l, op, r) => {
            push_text(out, lit("BinOp("));
            x_debug(l, out);
            push_text(out, concat(concat(lit(", "), debug_quote(op).as_str()), ", "));
            x_debug(r, out);
            push_text(out, lit(")"));
            assert(pieces_view(out@) =~= o + expr_debug(e.view()));
        },
        Expr::Compare(l, op, r) => {
            push_text(out, lit("Compare("));
            x_debug(l, out);
            push_text(out, concat(concat(lit(", "), debug_quote(op).as_str()), ", "));
            x_debug(r, out);
            push_text(out, lit(")"));
            assert(pieces_view(out@) =~= o + expr_debug(e.view()));
        },
        Expr::Assign(n, x) => {
            push_text(out, concat(concat(lit("Assign("), debug_quote(n).as_str()), ", "));
            x_debug(x, out);
            push_text(out, lit(")"));
            assert(pieces_view(out@) =~= o + expr_debug(e.view()));
        },
    }
}

/// Appends `args[k..]` as `{:?}` writes the elements of a list.
fn x_exprs_debug(args: &Vec<Expr>, k: usize, out: &mut Vec<ReportPiece>)
    requires
        k <= args@.len(),
    ensures
        pieces_view(final(out)@) == pieces_view(old(out)@) + exprs_debug(
            exprs_view(args@).subrange(k as int, args@.len() as int),
        ),
    decreases exprs_size(exprs_view(args@).subrange(k as int, args@.len() as int)), 0nat,
{
    let ghost a = exprs_view(args@).subrange(k as int, args@.len() as int);
    let ghost o = pieces_view(out@);
    proof {
        lemma_exprs_view(args@);
    }
    if k == args.len() {
        assert(o + exprs_debug(a) =~= o);
        return;
    }
    proof {
        assert(a[0] == args@[k as int].view());
        assert(a.subrange(1, a.len() as int) =~= exprs_view(args@).subrange(k + 1, args@.len() as int));
    }
    x_debug(&args[k], out);
    if k + 1 == args.len() {
        return;
    }
    push_text(out, lit(", "));
    x_exprs_debug(args, k + 1, out);
    assert(pieces_view(out@) =~= o + exprs_debug(a));
}

/// The pieces of an expression as `{:?}` writes it.
pub fn debug_text(e: &Expr) -> (r: Vec<ReportPiece>)
    ensures
        pieces_view(r@) == expr_debug(e.view()),
{
    let mut out: Vec<ReportPiece> = Vec::new();
    x_debug(e, &mut out);
    assert(pieces_view(out@) =~= expr_debug(e.view()));
    out
}

pub open spec fn item_line(c: SConfigItem) -> Seq<SPiece> {
    text("    ├─ "@ + c.key + " = "@) + expr_debug(c.value)
}

pub open spec fn items_lines(items: Seq<SConfigItem>) -> Seq<Seq<SPiece>> {
    items.map_values(|c: SConfigItem| item_line(c))
}

pub open spec fn unit_lines(u: SSystemUnit) -> Seq<Seq<SPiece>> {
    match u {
        SSystemUnit::Package { name, config } => seq![text("\n  [PACKAGE] "@ + name)] + items_lines(config),
        SSystemUnit::Service { name, config } => seq![text("\n  [SERVICE] "@ + name)] + items_lines(config),
    }
}

pub open spec fn units_lines(units: Seq<SSystemUnit>) -> Seq<Seq<SPiece>>
    decreases units.len(),
{
    if units.len() == 0 {
        Seq::empty()
    } else {
        units_lines(units.drop_last()) + unit_lines(units.last())
    }
}

/// The lines that reporting a `system` declaration prints.
pub open spec fn system_report(units: Seq<SSystemUnit>) -> Seq<Seq<SPiece>> {
    seq![text("\n[A.R.C.A.E.A. SYSTEM] 正在解析声明式配置..."@)] + units_lines(units) + seq![
        text("\n[A.R.C.A.E.A. SYSTEM] 配置解析完成。\n"@),
    ]
}

pub open spec fn lines_of(v: Seq<Vec<ReportPiece>>) -> Seq<Seq<SPiece>> {
    v.map_values(|l: Vec<ReportPiece>| pieces_view(l@))
}

fn push_line(out: &mut Vec<Vec<ReportPiece>>, line: Vec<ReportPiece>)
    ensures
        lines_of(final(out)@) == lines_of(old(out)@).push(pieces_view(line@)),
{
    let ghost before = out@;
    let ghost lv = pieces_view(line@);
    out.push(line);
    assert(lines_of(out@) =~= lines_of(before).push(lv));
}

fn text_line(s: String) -> (r: Vec<ReportPiece>)
    ensures
        pieces_view(r@) == text(s@),
{
    let mut v: Vec<ReportPiece> = Vec::new();
    push_text(&mut v, s);
    assert(pieces_view(v@) =~= text(s@));
    v
}

impl Environment {
    /// The lines that describe a `system` declaration: a header, then for each
    /// package or service its name and one `key = value` line per item, then a
    /// footer. Printing them is the caller's part.
    pub fn eval_system_decl(&self, units: &[SystemUnit]) -> (r: Vec<Vec<ReportPiece>>)
        ensures
            lines_of(r@) == system_report(units@.map_values(|u: SystemUnit| u.view())),
    {
        let ghost uv = units@.map_values(|u: SystemUnit| u.view());
        let mut out: Vec<Vec<ReportPiece>> = Vec::new();
        push_line(&mut out, text_line(lit("\n[A.R.C.A.E.A. SYSTEM] 正在解析声明式配置...")));
        let mut i: usize = 0;
        proof {
            assert(uv.take(0) =~= Seq::<SSystemUnit>::empty());
            assert(lines_of(out@) =~= seq![text("\n[A.R.C.A.E.A. SYSTEM] 正在解析声明式配置..."@)] + units_lines(uv.take(0)));
        }
        while i < units.len()
            invariant
                i <= units@.len(),
                uv == units@.map_values(|u: SystemUnit| u.view()),
                lines_of(out@) == seq![text("\n[A.R.C.A.E.A. SYSTEM] 正在解析声明式配置..."@)] + units_lines(uv.take(i as int)),
            decreases units@.len() - i,
        {
            proof {
                assert(uv.take(i + 1).drop_last() =~= uv.take(i as int));
                assert(uv.take(i + 1).last() == units@[i as int].view());
            }
            let ghost before = lines_of(out@);
            let (head, config) = match &units[i] {
                SystemUnit::Package { name, config } => (concat(lit("\n  [PACKAGE] "), name.as_str()), config),
                SystemUnit::Service { name, config } => (concat(lit("\n  [SERVICE] "), name.as_str()), config),
            };
            let ghost hv = head@;
            push_line(&mut out, text_line(head));
            let ghost cv = config@.map_values(|c: ConfigItem| c.view());
            let mut j: usize = 0;
            proof {
                assert(items_lines(cv.take(0)) =~= Seq::<Seq<SPiece>>::empty());
            }
            while j < config.len()
                invariant
                    j <= config@.len(),
                    cv == config@.map_values(|c: ConfigItem| c.view()),
                    lines_of(out@) == before.push(text(hv)) + items_lines(cv.take(j as int)),
                decreases config@.len() - j,
            {
                let item = &config[j];
                let mut line = text_line(concat(concat(lit("    ├─ "), item.key.as_str()), " = "));
                x_debug(&item.value, &mut line);
                push_line(&mut out, line);
                proof {
                    assert(cv[j as int] == item.view());
                    assert(items_lines(cv.take(j + 1)) =~= items_lines(cv.take(j as int)).push(item_line(cv[j as int])));
                    assert(lines_of(out@) =~= before.push(text(hv)) + items_lines(cv.take(j + 1)));
                }
                j = j + 1;
            }
            proof {
                assert(cv.take(config@.len() as int) =~= cv);
                assert(unit_lines(uv[i as int]) =~= seq![text(hv)] + items_lines(cv));
                assert(lines_of(out@) =~= seq![text("\n[A.R.C.A.E.A. SYSTEM] 正在解析声明式配置..."@)] + units_lines(uv.take(i + 1)));
            }
            i = i + 1;
        }
        push_line(&mut out, text_line(lit("\n[A.R.C.A.E.A. SYSTEM] 配置解析完成。\n")));
        proof {
            assert(uv.take(units@.len() as int) =~= uv);
            assert(lines_of(out@) =~= system_report(uv));
        }
        out
    }
}

} // verus!
