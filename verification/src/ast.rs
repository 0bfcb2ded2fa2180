use vstd::prelude::*;
use crate::semantics::{expr_size, exprs_size, stmt_size, stmts_size};

verus! {

/// An expression of the Arcaea language.
#[derive(Debug, PartialEq)]
pub enum Expr {
    Number(i64),
    /// A float literal, kept as the digits that were written.
    FloatLit(String),
    StringLit(String),
    Identifier(String),
    Bool(bool),
    Print(Box<Expr>),
    Call(String, Vec<Expr>),
    BinOp(Box<Expr>, String, Box<Expr>),
    Compare(Box<Expr>, String, Box<Expr>),
    Assign(String, Box<Expr>),
}

/// A statement.
#[derive(Debug, PartialEq)]
pub enum Stmt {
    Expr(Expr),
    If(Box<Expr>, Vec<Stmt>, Vec<Stmt>),
    While(Box<Expr>, Vec<Stmt>),
    Return(Box<Expr>),
}

/// A parameter of a function: its name and the name of its type.
#[derive(Debug, PartialEq)]
pub struct FuncParam {
    pub name: String,
    pub ty: String,
}

/// A function declaration.
#[derive(Debug, PartialEq)]
pub struct FuncDecl {
    pub name: String,
    pub params: Vec<FuncParam>,
    pub ret_ty: String,
    pub body: Vec<Stmt>,
}

/// A parameter of a foreign function declared by a `bridge`.
#[derive(Debug, PartialEq)]
pub enum BridgeParam {
    Param { name: String, ty: String },
}

/// One `key = value` line of a system unit.
#[derive(Debug, PartialEq)]
pub struct ConfigItem {
    pub key: String,
    pub value: Expr,
}

/// A package or a service of a `system` block.
#[derive(Debug, PartialEq)]
pub enum SystemUnit {
    Package { name: String, config: Vec<ConfigItem> },
    Service { name: String, config: Vec<ConfigItem> },
}

/// An item at the top level of a source file.
#[derive(Debug, PartialEq)]
pub enum TopLevel {
    BridgeDecl { lang: String, lib: String, name: String, params: Vec<BridgeParam>, ret_ty: String },
    LetDecl { name: String, value: Box<Expr> },
    FuncDecl(FuncDecl),
    SystemDecl { units: Vec<SystemUnit> },
    UseDecl { path: String },
    Stmt(Stmt),
}

// ---------------------------------------------------------------------------
// Mathematical values of the syntax tree.
// ---------------------------------------------------------------------------

pub enum SExpr {
    Number(i64),
    FloatLit(Seq<char>),
    StringLit(Seq<char>),
    Identifier(Seq<char>),
    Bool(bool),
    Print(Box<SExpr>),
    Call(Seq<char>, Seq<SExpr>),
    BinOp(Box<SExpr>, Seq<char>, Box<SExpr>),
    Compare(Box<SExpr>, Seq<char>, Box<SExpr>),
    Assign(Seq<char>, Box<SExpr>),
}

pub enum SStmt {
    Expr(SExpr),
    If(SExpr, Seq<SStmt>, Seq<SStmt>),
    While(SExpr, Seq<SStmt>),
    Return(SExpr),
}

pub struct SFuncParam {
    pub name: Seq<char>,
    pub ty: Seq<char>,
}

pub struct SFuncDecl {
    pub name: Seq<char>,
    pub params: Seq<SFuncParam>,
    pub ret_ty: Seq<char>,
    pub body: Seq<SStmt>,
}

pub struct SBridgeParam {
    pub name: Seq<char>,
    pub ty: Seq<char>,
}

pub struct SConfigItem {
    pub key: Seq<char>,
    pub value: SExpr,
}

pub enum SSystemUnit {
    Package { name: Seq<char>, config: Seq<SConfigItem> },
    Service { name: Seq<char>, config: Seq<SConfigItem> },
}

pub enum STopLevel {
    BridgeDecl {
        lang: Seq<char>,
        lib: Seq<char>,
        name: Seq<char>,
        params: Seq<SBridgeParam>,
        ret_ty: Seq<char>,
    },
    LetDecl { name: Seq<char>, value: SExpr },
    FuncDecl(SFuncDecl),
    SystemDecl { units: Seq<SSystemUnit> },
    UseDecl { path: Seq<char> },
    Stmt(SStmt),
}

impl Expr {
    pub open spec fn view(&self) -> SExpr
        decreases self,
    {
        match self {
            Expr::Number(n) => SExpr::Number(*n),
            Expr::FloatLit(s) => SExpr::FloatLit(s@),
            Expr::StringLit(s) => SExpr::StringLit(s@),
            Expr::Identifier(s) => SExpr::Identifier(s@),
            Expr::Bool(b) => SExpr::Bool(*b),
            Expr::Print(e) => SExpr::Print(Box::new(e.view())),
            Expr::Call(n, args) => SExpr::Call(n@, exprs_view(args@)),
            Expr::BinOp(l, op, r) => SExpr::BinOp(Box::new(l.view()), op@, Box::new(r.view())),
            Expr::Compare(l, op, r) => SExpr::Compare(Box::new(l.view()), op@, Box::new(r.view())),
            Expr::Assign(n, e) => SExpr::Assign(n@, Box::new(e.view())),
        }
    }
}

pub open spec fn exprs_view(s: Seq<Expr>) -> Seq<SExpr>
    decreases s,
{
    if s.len() == 0 {
        Seq::empty()
    } else {
        exprs_view(s.subrange(0, s.len() - 1)).push(s[s.len() - 1].view())
    }
}

impl Stmt {
    pub open spec fn view(&self) -> SStmt
        decreases self,
    {
        match self {
            Stmt::Expr(e) => SStmt::Expr(e.view()),
            Stmt::If(c, t, e) => SStmt::If(c.view(), stmts_view(t@), stmts_view(e@)),
            Stmt::While(c, b) => SStmt::While(c.view(), stmts_view(b@)),
            Stmt::Return(e) => SStmt::Return(e.view()),
        }
    }
}

pub open spec fn stmts_view(s: Seq<Stmt>) -> Seq<SStmt>
    decreases s,
{
    if s.len() == 0 {
        Seq::empty()
    } else {
        stmts_view(s.subrange(0, s.len() - 1)).push(s[s.len() - 1].view())
    }
}

impl FuncParam {
    pub open spec fn view(&self) -> SFuncParam {
        SFuncParam { name: self.name@, ty: self.ty@ }
    }
}

impl FuncDecl {
    pub open spec fn view(&self) -> SFuncDecl {
        SFuncDecl {
            name: self.name@,
            params: self.params@.map_values(|p: FuncParam| p.view()),
            ret_ty: self.ret_ty@,
            body: stmts_view(self.body@),
        }
    }
}

impl BridgeParam {
    pub open spec fn view(&self) -> SBridgeParam {
        match self {
            BridgeParam::Param { name, ty } => SBridgeParam { name: name@, ty: ty@ },
        }
    }
}

impl ConfigItem {
    pub open spec fn view(&self) -> SConfigItem {
        SConfigItem { key: self.key@, value: self.value.view() }
    }
}

impl SystemUnit {
    pub open spec fn view(&self) -> SSystemUnit {
        match self {
            SystemUnit::Package { name, config } => SSystemUnit::Package {
                name: name@,
                config: config@.map_values(|c: ConfigItem| c.view()),
            },
            SystemUnit::Service { name, config } => SSystemUnit::Service {
                name: name@,
                config: config@.map_values(|c: ConfigItem| c.view()),
            },
        }
    }
}

impl TopLevel {
    pub open spec fn view(&self) -> STopLevel {
        match self {
            TopLevel::BridgeDecl { lang, lib, name, params, ret_ty } => STopLevel::BridgeDecl {
                lang: lang@,
                lib: lib@,
                name: name@,
                params: params@.map_values(|p: BridgeParam| p.view()),
                ret_ty: ret_ty@,
            },
            TopLevel::LetDecl { name, value } => STopLevel::LetDecl { name: name@, value: value.view() },
            TopLevel::FuncDecl(f) => STopLevel::FuncDecl(f.view()),
            TopLevel::SystemDecl { units } => STopLevel::SystemDecl {
                units: units@.map_values(|u: SystemUnit| u.view()),
            },
            TopLevel::UseDecl { path } => STopLevel::UseDecl { path: path@ },
            TopLevel::Stmt(s) => STopLevel::Stmt(s.view()),
        }
    }
}

pub open spec fn toplevels_view(s: Seq<TopLevel>) -> Seq<STopLevel> {
    s.map_values(|t: TopLevel| t.view())
}

/// Every element of a vector of expressions has the view that the sequence view gives it.
pub proof fn lemma_exprs_view(s: Seq<Expr>)
    ensures
        exprs_view(s).len() == s.len(),
        forall|i: int| 0 <= i < s.len() ==> #[trigger] exprs_view(s)[i] == s[i].view(),
    decreases s.len(),
{
    if s.len() > 0 {
        lemma_exprs_view(s.subrange(0, s.len() - 1));
        assert forall|i: int| 0 <= i < s.len() implies #[trigger] exprs_view(s)[i] == s[i].view() by {
            if i < s.len() - 1 {
                assert(s.subrange(0, s.len() - 1)[i] == s[i]);
            }
        }
    }
}

/// Every element of a vector of statements has the view that the sequence view gives it.
pub proof fn lemma_stmts_view(s: Seq<Stmt>)
    ensures
        stmts_view(s).len() == s.len(),
        forall|i: int| 0 <= i < s.len() ==> #[trigger] stmts_view(s)[i] == s[i].view(),
    decreases s.len(),
{
    if s.len() > 0 {
        lemma_stmts_view(s.subrange(0, s.len() - 1));
        assert forall|i: int| 0 <= i < s.len() implies #[trigger] stmts_view(s)[i] == s[i].view() by {
            if i < s.len() - 1 {
                assert(s.subrange(0, s.len() - 1)[i] == s[i]);
            }
        }
    }
}

/// Appending one statement appends its view.
pub proof fn lemma_stmts_view_push(s: Seq<Stmt>, x: Stmt)
    ensures
        stmts_view(s.push(x)) == stmts_view(s).push(x.view()),
{
    assert(s.push(x).subrange(0, s.len() as int) =~= s);
}

/// Appending one expression appends its view.
pub proof fn lemma_exprs_view_push(s: Seq<Expr>, x: Expr)
    ensures
        exprs_view(s.push(x)) == exprs_view(s).push(x.view()),
{
    assert(s.push(x).subrange(0, s.len() as int) =~= s);
}

/// An element of a sequence of expressions is smaller than the sequence.
proof fn lemma_exprs_size_elem(s: Seq<SExpr>, i: int)
    requires
        0 <= i < s.len(),
    ensures
        expr_size(s[i]) < exprs_size(s),
    decreases s.len(),
{
    if i > 0 {
        let t = s.subrange(1, s.len() as int);
        assert(t[i - 1] == s[i]);
        lemma_exprs_size_elem(t, i - 1);
    }
}

/// An element of a sequence of statements is smaller than the sequence.
proof fn lemma_stmts_size_elem(s: Seq<SStmt>, i: int)
    requires
        0 <= i < s.len(),
    ensures
        stmt_size(s[i]) < stmts_size(s),
    decreases s.len(),
{
    if i > 0 {
        let t = s.subrange(1, s.len() as int);
        assert(t[i - 1] == s[i]);
        lemma_stmts_size_elem(t, i - 1);
    }
}

impl Expr {
    /// A deep copy of this expression.
    pub fn duplicate(&self) -> (r: Expr)
        ensures
            r.view() == self.view(),
        decreases expr_size(self.view()), 1nat,
    {
        match self {
            Expr::Number(n) => Expr::Number(*n),
            Expr::FloatLit(t) => Expr::FloatLit(t.clone()),
            Expr::StringLit(t) => Expr::StringLit(t.clone()),
            Expr::Identifier(t) => Expr::Identifier(t.clone()),
            Expr::Bool(b) => Expr::Bool(*b),
            Expr::Print(e) => Expr::Print(Box::new(e.duplicate())),
            Expr::Call(n, args) => Expr::Call(n.clone(), duplicate_exprs(args)),
            Expr::BinOp(l, op, r) => Expr::BinOp(Box::new(l.duplicate()), op.clone(), Box::new(r.duplicate())),
            Expr::Compare(l, op, r) => Expr::Compare(Box::new(l.duplicate()), op.clone(), Box::new(r.duplicate())),
            Expr::Assign(n, e) => Expr::Assign(n.clone(), Box::new(e.duplicate())),
        }
    }
}

/// A deep copy of a vector of expressions.
pub fn duplicate_exprs(v: &Vec<Expr>) -> (r: Vec<Expr>)
    ensures
        exprs_view(r@) == exprs_view(v@),
    decreases exprs_size(exprs_view(v@)), 0nat,
{
    proof {
        lemma_exprs_view(v@);
    }
    let mut r: Vec<Expr> = Vec::new();
    let mut i: usize = 0;
    while i < v.len()
        invariant
            i <= v@.len(),
            exprs_view(r@) == exprs_view(v@.subrange(0, i as int)),
            exprs_view(v@).len() == v@.len(),
            forall|j: int| 0 <= j < v@.len() ==> #[trigger] exprs_view(v@)[j] == v@[j].view(),
        decreases v@.len() - i,
    {
        proof {
            lemma_exprs_size_elem(exprs_view(v@), i as int);
        }
        let e = v[i].duplicate();
        proof {
            lemma_exprs_view_push(r@, e);
            lemma_exprs_view_push(v@.subrange(0, i as int), v@[i as int]);
            assert(v@.subrange(0, i + 1) =~= v@.subrange(0, i as int).push(v@[i as int]));
        }
        r.push(e);
        i = i + 1;
    }
    proof {
        assert(v@.subrange(0, v@.len() as int) =~= v@);
    }
    r
}

impl Stmt {
    /// A deep copy of this statement.
    pub fn duplicate(&self) -> (r: Stmt)
        ensures
            r.view() == self.view(),
        decreases stmt_size(self.view()), 1nat,
    {
        match self {
            Stmt::Expr(e) => Stmt::Expr(e.duplicate()),
            Stmt::If(c, t, e) => Stmt::If(Box::new(c.duplicate()), duplicate_stmts(t), duplicate_stmts(e)),
            Stmt::While(c, b) => Stmt::While(Box::new(c.duplicate()), duplicate_stmts(b)),
            Stmt::Return(e) => Stmt::Return(Box::new(e.duplicate())),
        }
    }
}

/// A deep copy of a vector of statements.
pub fn duplicate_stmts(v: &Vec<Stmt>) -> (r: Vec<Stmt>)
    ensures
        stmts_view(r@) == stmts_view(v@),
    decreases stmts_size(stmts_view(v@)), 0nat,
{
    proof {
        lemma_stmts_view(v@);
    }
    let mut r: Vec<Stmt> = Vec::new();
    let mut i: usize = 0;
    while i < v.len()
        invariant
            i <= v@.len(),
            stmts_view(r@) == stmts_view(v@.subrange(0, i as int)),
            stmts_view(v@).len() == v@.len(),
            forall|j: int| 0 <= j < v@.len() ==> #[trigger] stmts_view(v@)[j] == v@[j].view(),
        decreases v@.len() - i,
    {
        proof {
            lemma_stmts_size_elem(stmts_view(v@), i as int);
        }
        let s = v[i].duplicate();
        proof {
            lemma_stmts_view_push(r@, s);
            lemma_stmts_view_push(v@.subrange(0, i as int), v@[i as int]);
            assert(v@.subrange(0, i + 1) =~= v@.subrange(0, i as int).push(v@[i as int]));
        }
        r.push(s);
        i = i + 1;
    }
    proof {
        assert(v@.subrange(0, v@.len() as int) =~= v@);
    }
    r
}

impl FuncDecl {
    /// A deep copy of this declaration.
    pub fn duplicate(&self) -> (r: FuncDecl)
        ensures
            r.view() == self.view(),
    {
        let mut params: Vec<FuncParam> = Vec::new();
        let mut i: usize = 0;
        while i < self.params.len()
            invariant
                i <= self.params@.len(),
                params@.len() == i,
                forall|j: int| 0 <= j < i ==> #[trigger] params@[j].view() == self.params@[j].view(),
            decreases self.params@.len() - i,
        {
            params.push(FuncParam { name: self.params[i].name.clone(), ty: self.params[i].ty.clone() });
            i = i + 1;
        }
        proof {
            let lhs = params@.map_values(|p: FuncParam| p.view());
            let rhs = self.params@.map_values(|p: FuncParam| p.view());
            assert forall|j: int| 0 <= j < lhs.len() implies lhs[j] == rhs[j] by {
                assert(params@[j].view() == self.params@[j].view());
            }
            assert(lhs =~= rhs);
        }
        FuncDecl {
            name: self.name.clone(),
            params,
            ret_ty: self.ret_ty.clone(),
            body: duplicate_stmts(&self.body),
        }
    }
}

} // verus!
