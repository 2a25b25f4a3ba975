//! The whole compilation of a source text: reading the program, checking
//! that code generation can take it, and generating its assembly.
use vstd::prelude::*;
use crate::ast::{
    Cmd,
    CmdS,
    Expr,
    ExprS,
    FunDecl,
    FunDeclS,
    Programa,
    lemma_modelo_cmds_indices,
    lemma_modelo_exprs_indices,
    modelo_cmds,
    modelo_exprs,
};
use crate::codegen::{
    cmd_valido,
    codigo_programa,
    gerar_codigo,
    cmds_validos,
    eh_texto1,
    eh_texto2,
    lemma_cmds_validos,
    lemma_rotulos_prefixo,
    expr_valida,
    funcao_valida,
    lemma_rotulos_funcoes_prefixo,
    programa_valido,
    rotulos_funcoes,
    exprs_validas,
    rotulos_cmd,
    rotulos_cmds,
};
use crate::gramatica::{Saida, operador_valido, programa};
use crate::parser::Parser;

verus! {

/// Whether `op` is one of the operators that code generation translates.
fn operador_conhecido(op: &String) -> (r: bool)
    ensures
        r == operador_valido(op@),
{
    eh_texto1(op, '+') || eh_texto1(op, '-') || eh_texto1(op, '*') || eh_texto1(op, '/')
        || eh_texto2(op, '=', '=') || eh_texto1(op, '<') || eh_texto1(op, '>')
}

/// Whether code generation can take the expression.
#[verifier::loop_isolation(false)]
pub fn expr_compilavel(e: &Expr) -> (r: bool)
    ensures
        r == expr_valida(e@),
    decreases e,
{
    match e {
        Expr::Const(_) => true,
        Expr::Var(_) => true,
        Expr::OpBin { operador, esq, dir } => {
            operador_conhecido(operador) && expr_compilavel(esq) && expr_compilavel(dir)
        },
        Expr::Call { nome, args } => {
            let ghost s = modelo_exprs(args@);
            proof {
                lemma_modelo_exprs_indices(args@);
            }
            if args.len() > usize::MAX / 8 {
                return false;
            }
            let mut ok = true;
            let mut i: usize = 0;
            assert(s.take(0) =~= Seq::<ExprS>::empty());
            while i < args.len()
                invariant
                    i <= args.len(),
                    s == modelo_exprs(args@),
                    s.len() == args.len(),
                    forall|j: int| 0 <= j < s.len() ==> #[trigger] s[j] == args@[j]@,
                    ok == exprs_validas(s.take(i as int)),
                decreases args.len() - i,
            {
                let bom = expr_compilavel(&args[i]);
                proof {
                    assert(s.take(i + 1).drop_last() =~= s.take(i as int));
                    assert(s.take(i + 1).last() == s[i as int]);
                }
                ok = ok && bom;
                i = i + 1;
            }
            assert(s.take(i as int) =~= s);
            ok
        },
    }
}

/// The number of `if` and `while` commands in `c`, where code generation can
/// take the command and their label numbers fit in a `usize`.
#[verifier::loop_isolation(false)]
pub fn cmd_compilavel(c: &Cmd) -> (r: Option<usize>)
    ensures
        match r {
            Some(n) => cmd_valido(c@) && n == rotulos_cmd(c@) && 2 * n <= usize::MAX,
            None => !(cmd_valido(c@) && 2 * rotulos_cmd(c@) <= usize::MAX),
        },
    decreases c, 1int,
{
    match c {
        Cmd::Atrib { nome, expr } => {
            if expr_compilavel(expr) {
                Some(0)
            } else {
                None
            }
        },
        Cmd::If { cond, then_cmds, else_cmds } => {
            if !expr_compilavel(cond) {
                return None;
            }
            let n1 = match cmds_compilaveis(then_cmds) {
                Some(n) => n,
                None => {
                    return None;
                },
            };
            let n2 = match cmds_compilaveis(else_cmds) {
                Some(n) => n,
                None => {
                    return None;
                },
            };
            if n1 >= usize::MAX / 2 || n2 >= usize::MAX / 2 - n1 {
                return None;
            }
            Some(1 + n1 + n2)
        },
        Cmd::While { cond, body } => {
            if !expr_compilavel(cond) {
                return None;
            }
            let n1 = match cmds_compilaveis(body) {
                Some(n) => n,
                None => {
                    return None;
                },
            };
            if n1 >= usize::MAX / 2 {
                return None;
            }
            Some(1 + n1)
        },
    }
}

/// The number of `if` and `while` commands in `cmds`, where code generation
/// can take the commands and their label numbers fit in a `usize`.
#[verifier::loop_isolation(false)]
pub fn cmds_compilaveis(cmds: &Vec<Cmd>) -> (r: Option<usize>)
    ensures
        match r {
            Some(n) => cmds_validos(modelo_cmds(cmds@)) && n == rotulos_cmds(modelo_cmds(cmds@)) && 2
                * n <= usize::MAX,
            None => !(cmds_validos(modelo_cmds(cmds@)) && 2 * rotulos_cmds(modelo_cmds(cmds@))
                <= usize::MAX),
        },
    decreases cmds@, 0int,
{
    let ghost s = modelo_cmds(cmds@);
    proof {
        lemma_modelo_cmds_indices(cmds@);
        assert(s.take(0) =~= Seq::<CmdS>::empty());
    }
    let mut n: usize = 0;
    let mut i: usize = 0;
    while i < cmds.len()
        invariant
            i <= cmds.len(),
            cmds_validos(s.take(i as int)),
            n == rotulos_cmds(s.take(i as int)),
            2 * n <= usize::MAX,
        decreases cmds.len() - i,
    {
        proof {
            assert(s.take(i + 1).drop_last() =~= s.take(i as int));
            assert(s.take(i + 1).last() == s[i as int]);
            lemma_rotulos_prefixo(s, i + 1);
            if cmds_validos(s) {
                lemma_cmds_validos(s);
            }
        }
        let m = match cmd_compilavel(&cmds[i]) {
            Some(m) => m,
            None => {
                return None;
            },
        };
        if m > usize::MAX / 2 - n {
            return None;
        }
        n = n + m;
        i = i + 1;
    }
    assert(s.take(i as int) =~= s);
    Some(n)
}

/// The number of `if` and `while` commands in the body of `func`, where code
/// generation can take the function and their label numbers fit in a `usize`.
pub fn funcao_compilavel(func: &FunDecl) -> (r: Option<usize>)
    ensures
        match r {
            Some(n) => funcao_valida(func@) && n == rotulos_cmds(func@.comandos) && 2 * n
                <= usize::MAX,
            None => !(funcao_valida(func@) && 2 * rotulos_cmds(func@.comandos) <= usize::MAX),
        },
{
    let ghost f = func@;
    if func.parametros.len() > ((isize::MAX - 16) / 8) as usize {
        return None;
    }
    if func.variaveis.len() > ((isize::MAX - 7) / 8) as usize {
        return None;
    }
    let mut j: usize = 0;
    while j < func.variaveis.len()
        invariant
            f == func@,
            j <= func.variaveis.len(),
            forall|k: int| 0 <= k < j ==> expr_valida(#[trigger] f.variaveis[k].1),
        decreases func.variaveis.len() - j,
    {
        assert(f.variaveis[j as int].1 == func.variaveis@[j as int].1@);
        if !expr_compilavel(&func.variaveis[j].1) {
            return None;
        }
        j = j + 1;
    }
    if !expr_compilavel(&func.retorno) {
        return None;
    }
    cmds_compilaveis(&func.comandos)
}

/// Whether code generation can take the program: [`gerar_codigo`] asks this
/// of its argument.
///
/// [`gerar_codigo`]: crate::codegen::gerar_codigo
pub fn programa_compilavel(prog: &Programa) -> (r: bool)
    ensures
        r == programa_valido(prog@),
{
    let ghost p = prog@;
    let mut j: usize = 0;
    while j < prog.globais.len()
        invariant
            p == prog@,
            j <= prog.globais.len(),
            forall|k: int| 0 <= k < j ==> expr_valida(#[trigger] p.globais[k].1),
        decreases prog.globais.len() - j,
    {
        assert(p.globais[j as int].1 == prog.globais@[j as int].1@);
        if !expr_compilavel(&prog.globais[j].1) {
            return false;
        }
        j = j + 1;
    }
    let ghost fs = p.funcoes;
    assert(fs.take(0) =~= Seq::<FunDeclS>::empty());
    let mut n: usize = 0;
    let mut k: usize = 0;
    while k < prog.funcoes.len()
        invariant
            p == prog@,
            fs == p.funcoes,
            k <= prog.funcoes.len(),
            forall|i: int| 0 <= i < k ==> funcao_valida(#[trigger] fs[i]),
            n == rotulos_funcoes(fs.take(k as int)),
            2 * n <= usize::MAX,
        decreases prog.funcoes.len() - k,
    {
        proof {
            assert(fs.take(k + 1).drop_last() =~= fs.take(k as int));
            assert(fs.take(k + 1).last() == fs[k as int]);
            assert(fs[k as int] == prog.funcoes@[k as int]@);
            lemma_rotulos_funcoes_prefixo(fs, k + 1);
        }
        let m = match funcao_compilavel(&prog.funcoes[k]) {
            Some(m) => m,
            None => {
                return false;
            },
        };
        if m > usize::MAX / 2 - n {
            return false;
        }
        n = n + m;
        k = k + 1;
    }
    assert(fs.take(k as int) =~= fs);
    if !expr_compilavel(&prog.retorno) {
        return false;
    }
    match cmds_compilaveis(&prog.principal) {
        Some(m) => m <= usize::MAX / 2 - n,
        None => false,
    }
}

/// Compiles a source text: reads the program from its start and generates
/// its assembly. `Err` holds the message of a reading error; `None` stands
/// where an integer constant does not fit in an `i32`, or where the program
/// is too large for code generation on this machine.
pub fn compilar(texto: &str) -> (r: Option<Result<String, String>>)
    ensures
        match programa(texto@, 0) {
            Saida::Lido(prog, _) => if programa_valido(prog) {
                r matches Some(Ok(codigo)) && codigo@ == codigo_programa(prog)
            } else {
                r is None
            },
            Saida::Erro(m, _) => r matches Some(Err(e)) && e@ == m,
            Saida::Estouro => r is None,
        },
{
    let mut parser = Parser::new(texto);
    match parser.tenta_parse_programa() {
        Some(Ok(prog)) => {
            if programa_compilavel(&prog) {
                Some(Ok(gerar_codigo(&prog)))
            } else {
                None
            }
        },
        Some(Err(e)) => Some(Err(e)),
        None => None,
    }
}

} // verus!
