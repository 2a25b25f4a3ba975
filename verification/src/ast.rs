//! The abstract syntax tree of the Fun language, and its mathematical model.
use vstd::prelude::*;

verus! {

/// An expression.
#[derive(Debug, PartialEq)]
pub enum Expr {
    /// An integer constant.
    Const(i32),
    /// A variable, by name.
    Var(String),
    /// A binary operation such as `+`, `*` or `<`.
    OpBin { operador: String, esq: Box<Expr>, dir: Box<Expr> },
    /// A call of a function with its arguments.
    Call { nome: String, args: Vec<Expr> },
}

/// A command.
#[derive(Debug, PartialEq)]
pub enum Cmd {
    /// `if cond { .. } else { .. }`
    If { cond: Expr, then_cmds: Vec<Cmd>, else_cmds: Vec<Cmd> },
    /// `while cond { .. }`
    While { cond: Expr, body: Vec<Cmd> },
    /// `nome = expr;`
    Atrib { nome: String, expr: Expr },
}

/// The definition of a function.
#[derive(Debug, PartialEq)]
pub struct FunDecl {
    pub nome: String,
    pub parametros: Vec<String>,
    pub variaveis: Vec<(String, Expr)>,
    pub comandos: Vec<Cmd>,
    pub retorno: Expr,
}

/// A whole program: globals, functions, the main block and its result.
#[derive(Debug, PartialEq)]
pub struct Programa {
    pub globais: Vec<(String, Expr)>,
    pub funcoes: Vec<FunDecl>,
    pub principal: Vec<Cmd>,
    pub retorno: Expr,
}

/// The mathematical value of an [`Expr`]: names are character sequences.
pub enum ExprS {
    Const(i32),
    Var(Seq<char>),
    OpBin { operador: Seq<char>, esq: Box<ExprS>, dir: Box<ExprS> },
    Call { nome: Seq<char>, args: Seq<ExprS> },
}

/// The mathematical value of a [`Cmd`].
pub enum CmdS {
    If { cond: ExprS, then_cmds: Seq<CmdS>, else_cmds: Seq<CmdS> },
    While { cond: ExprS, body: Seq<CmdS> },
    Atrib { nome: Seq<char>, expr: ExprS },
}

/// The mathematical value of a [`FunDecl`].
pub struct FunDeclS {
    pub nome: Seq<char>,
    pub parametros: Seq<Seq<char>>,
    pub variaveis: Seq<(Seq<char>, ExprS)>,
    pub comandos: Seq<CmdS>,
    pub retorno: ExprS,
}

/// The mathematical value of a [`Programa`].
pub struct ProgramaS {
    pub globais: Seq<(Seq<char>, ExprS)>,
    pub funcoes: Seq<FunDeclS>,
    pub principal: Seq<CmdS>,
    pub retorno: ExprS,
}

pub open spec fn modelo_expr(e: Expr) -> ExprS
    decreases e,
{
    match e {
        Expr::Const(v) => ExprS::Const(v),
        Expr::Var(n) => ExprS::Var(n@),
        Expr::OpBin { operador, esq, dir } => ExprS::OpBin {
            operador: operador@,
            esq: Box::new(modelo_expr(*esq)),
            dir: Box::new(modelo_expr(*dir)),
        },
        Expr::Call { nome, args } => ExprS::Call { nome: nome@, args: modelo_exprs(args@) },
    }
}

pub open spec fn modelo_exprs(s: Seq<Expr>) -> Seq<ExprS>
    decreases s,
{
    if s.len() == 0 {
        Seq::empty()
    } else {
        modelo_exprs(s.drop_last()).push(modelo_expr(s.last()))
    }
}

pub open spec fn modelo_cmd(c: Cmd) -> CmdS
    decreases c,
{
    match c {
        Cmd::If { cond, then_cmds, else_cmds } => CmdS::If {
            cond: modelo_expr(cond),
            then_cmds: modelo_cmds(then_cmds@),
            else_cmds: modelo_cmds(else_cmds@),
        },
        Cmd::While { cond, body } => CmdS::While {
            cond: modelo_expr(cond),
            body: modelo_cmds(body@),
        },
        Cmd::Atrib { nome, expr } => CmdS::Atrib { nome: nome@, expr: modelo_expr(expr) },
    }
}

pub open spec fn modelo_cmds(s: Seq<Cmd>) -> Seq<CmdS>
    decreases s,
{
    if s.len() == 0 {
        Seq::empty()
    } else {
        modelo_cmds(s.drop_last()).push(modelo_cmd(s.last()))
    }
}

pub open spec fn modelo_nomes(s: Seq<String>) -> Seq<Seq<char>> {
    Seq::new(s.len(), |i: int| s[i]@)
}

pub open spec fn modelo_defs(s: Seq<(String, Expr)>) -> Seq<(Seq<char>, ExprS)> {
    Seq::new(s.len(), |i: int| (s[i].0@, modelo_expr(s[i].1)))
}

pub open spec fn modelo_fundecl(f: FunDecl) -> FunDeclS {
    FunDeclS {
        nome: f.nome@,
        parametros: modelo_nomes(f.parametros@),
        variaveis: modelo_defs(f.variaveis@),
        comandos: modelo_cmds(f.comandos@),
        retorno: modelo_expr(f.retorno),
    }
}

pub open spec fn modelo_fundecls(s: Seq<FunDecl>) -> Seq<FunDeclS> {
    Seq::new(s.len(), |i: int| modelo_fundecl(s[i]))
}

pub proof fn lemma_modelo_exprs_push(s: Seq<Expr>, e: Expr)
    ensures
        modelo_exprs(s.push(e)) == modelo_exprs(s).push(modelo_expr(e)),
        modelo_exprs(Seq::<Expr>::empty()) == Seq::<ExprS>::empty(),
{
    assert(s.push(e).drop_last() =~= s);
}

pub proof fn lemma_modelo_cmds_push(s: Seq<Cmd>, c: Cmd)
    ensures
        modelo_cmds(s.push(c)) == modelo_cmds(s).push(modelo_cmd(c)),
        modelo_cmds(Seq::<Cmd>::empty()) == Seq::<CmdS>::empty(),
{
    assert(s.push(c).drop_last() =~= s);
}

pub proof fn lemma_modelo_defs_push(s: Seq<(String, Expr)>, d: (String, Expr))
    ensures
        modelo_defs(s.push(d)) == modelo_defs(s).push((d.0@, modelo_expr(d.1))),
        modelo_defs(Seq::<(String, Expr)>::empty()) == Seq::<(Seq<char>, ExprS)>::empty(),
{
    assert(modelo_defs(s.push(d)) =~= modelo_defs(s).push((d.0@, modelo_expr(d.1))));
    assert(modelo_defs(Seq::<(String, Expr)>::empty()) =~= Seq::<(Seq<char>, ExprS)>::empty());
}

pub proof fn lemma_modelo_nomes_push(s: Seq<String>, n: String)
    ensures
        modelo_nomes(s.push(n)) == modelo_nomes(s).push(n@),
        modelo_nomes(Seq::<String>::empty()) == Seq::<Seq<char>>::empty(),
{
    assert(modelo_nomes(s.push(n)) =~= modelo_nomes(s).push(n@));
    assert(modelo_nomes(Seq::<String>::empty()) =~= Seq::<Seq<char>>::empty());
}

pub proof fn lemma_modelo_fundecls_push(s: Seq<FunDecl>, f: FunDecl)
    ensures
        modelo_fundecls(s.push(f)) == modelo_fundecls(s).push(modelo_fundecl(f)),
        modelo_fundecls(Seq::<FunDecl>::empty()) == Seq::<FunDeclS>::empty(),
{
    assert(modelo_fundecls(s.push(f)) =~= modelo_fundecls(s).push(modelo_fundecl(f)));
    assert(modelo_fundecls(Seq::<FunDecl>::empty()) =~= Seq::<FunDeclS>::empty());
}

pub proof fn lemma_modelo_exprs_indices(s: Seq<Expr>)
    ensures
        modelo_exprs(s).len() == s.len(),
        forall|i: int| 0 <= i < s.len() ==> #[trigger] modelo_exprs(s)[i] == modelo_expr(s[i]),
    decreases s.len(),
{
    if s.len() > 0 {
        lemma_modelo_exprs_indices(s.drop_last());
    }
}

pub proof fn lemma_modelo_cmds_indices(s: Seq<Cmd>)
    ensures
        modelo_cmds(s).len() == s.len(),
        forall|i: int| 0 <= i < s.len() ==> #[trigger] modelo_cmds(s)[i] == modelo_cmd(s[i]),
    decreases s.len(),
{
    if s.len() > 0 {
        lemma_modelo_cmds_indices(s.drop_last());
    }
}

impl View for Expr {
    type V = ExprS;

    open spec fn view(&self) -> ExprS {
        modelo_expr(*self)
    }
}

impl View for Cmd {
    type V = CmdS;

    open spec fn view(&self) -> CmdS {
        modelo_cmd(*self)
    }
}

impl View for FunDecl {
    type V = FunDeclS;

    open spec fn view(&self) -> FunDeclS {
        modelo_fundecl(*self)
    }
}

impl View for Programa {
    type V = ProgramaS;

    open spec fn view(&self) -> ProgramaS {
        ProgramaS {
            globais: modelo_defs(self.globais@),
            funcoes: modelo_fundecls(self.funcoes@),
            principal: modelo_cmds(self.principal@),
            retorno: modelo_expr(self.retorno),
        }
    }
}

} // verus!
