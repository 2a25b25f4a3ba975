//! What the parser reads can be compiled: every expression of a program
//! that the parser reads has only the operators of the language, so the code
//! generator accepts the program wherever its sizes fit the machine.
use vstd::prelude::*;
use crate::ast::{CmdS, ExprS, FunDeclS, ProgramaS};
use crate::caracteres::{eh_alfanum, eh_digito, eh_letra};
use crate::codegen::{
    cmd_valido,
    cmds_validos,
    expr_valida,
    exprs_validas,
    funcao_valida,
    programa_valido,
    rotulos_programa,
};
use crate::gramatica::{
    Saida,
    bloco,
    chamada,
    cmd,
    constante,
    corpo,
    definicao,
    entre,
    espera,
    espera_palavra,
    espia,
    exp_a,
    exp_m,
    expr,
    fecho,
    fundecl,
    lemma_espera,
    lemma_nome,
    lemma_palavra,
    lemma_proximo,
    lemma_pula_espacos,
    lemma_resto_digitos,
    lemma_resto_nome,
    mais_comparacao,
    nome,
    palavra,
    params,
    prim,
    programa,
    proximo,
    pula_espacos,
    resto_a,
    resto_args,
    resto_digitos,
    resto_expr,
    resto_m,
    resto_nome,
    resto_vars,
    topo,
};
use crate::leis::{identificador, imprimiveis, imprimivel};

verus! {

pub proof fn lemma_imprimiveis(s: Seq<ExprS>)
    ensures
        imprimiveis(s) <==> forall|i: int| 0 <= i < s.len() ==> imprimivel(#[trigger] s[i]),
    decreases s.len(),
{
    if s.len() > 0 {
        lemma_imprimiveis(s.drop_first());
        if forall|i: int| 0 <= i < s.len() ==> imprimivel(#[trigger] s[i]) {
            assert forall|i: int| 0 <= i < s.drop_first().len() implies imprimivel(
                #[trigger] s.drop_first()[i],
            ) by {
                assert(s.drop_first()[i] == s[i + 1]);
            }
        }
        if imprimiveis(s) {
            assert forall|i: int| 0 <= i < s.len() implies imprimivel(#[trigger] s[i]) by {
                if i > 0 {
                    assert(s[i] == s.drop_first()[i - 1]);
                }
            }
        }
    }
}

/// A name read where a letter comes is an identifier.
proof fn lemma_nome_identificador(s: Seq<char>, p: int)
    requires
        0 <= p <= s.len(),
        espia(s, p) matches Some(c) && eh_letra(c),
    ensures
        nome(s, p) matches Saida::Lido(n, _) && identificador(n),
{
    lemma_pula_espacos(s, p);
    let q = pula_espacos(s, p);
    lemma_resto_nome(s, q + 1, seq![s[q]]);
    let n = resto_nome(s, q + 1, seq![s[q]]).0;
    assert(n[0] == n.subrange(0, 1)[0]);
}

/// Every expression read from `p` has only the operators of the language,
/// non-negative constants and identifiers for names.
pub proof fn lemma_prim_lida(s: Seq<char>, p: int)
    ensures
        prim(s, p) matches Saida::Lido(e, _) ==> imprimivel(e),
    decreases s.len() - p, 1int,
{
    if 0 <= p <= s.len() {
        lemma_pula_espacos(s, p);
        match espia(s, p) {
            Some(c) => {
                if eh_digito(c) {
                    lemma_resto_digitos(s, p, 0);
                } else if eh_letra(c) {
                    lemma_nome_identificador(s, p);
                    lemma_nome(s, p);
                    match nome(s, p) {
                        Saida::Lido(n, p1) => {
                            if espia(s, p1) == Some('(') {
                                lemma_proximo(s, p1);
                                lemma_chamada_lida(s, p, proximo(s, p1).1, n);
                            }
                        },
                        _ => {},
                    }
                } else if c == '(' {
                    lemma_proximo(s, p);
                    lemma_expr_lida(s, proximo(s, p).1);
                }
            },
            None => {},
        }
    }
}

proof fn lemma_chamada_lida(s: Seq<char>, p: int, p1: int, n: Seq<char>)
    requires
        identificador(n),
    ensures
        chamada(s, p, p1, n) matches Saida::Lido(e, _) ==> imprimivel(e),
    decreases s.len() - p, 0int,
{
    if p < p1 <= s.len() {
        if espia(s, p1) != Some(')') {
            lemma_expr_lida(s, p1);
            match expr(s, p1) {
                Saida::Lido(a, q) => {
                    if entre(p1, q, s) {
                        lemma_resto_args_lida(s, q, seq![a]);
                        match resto_args(s, q, seq![a]) {
                            Saida::Lido(args, r) => {
                                lemma_imprimiveis(args);
                            },
                            _ => {},
                        }
                    }
                },
                _ => {},
            }
        } else {
            lemma_imprimiveis(Seq::<ExprS>::empty());
        }
    }
}

proof fn lemma_resto_args_lida(s: Seq<char>, p: int, acc: Seq<ExprS>)
    requires
        forall|i: int| 0 <= i < acc.len() ==> imprimivel(#[trigger] acc[i]),
    ensures
        resto_args(s, p, acc) matches Saida::Lido(args, _) ==> forall|i: int|
            0 <= i < args.len() ==> imprimivel(#[trigger] args[i]),
    decreases s.len() - p, 0int,
{
    if 0 <= p <= s.len() && espia(s, p) == Some(',') {
        let p1 = proximo(s, p).1;
        lemma_proximo(s, p);
        lemma_expr_lida(s, p1);
        match expr(s, p1) {
            Saida::Lido(a, q) => {
                if entre(p1, q, s) {
                    assert forall|i: int| 0 <= i < acc.push(a).len() implies imprimivel(
                        #[trigger] acc.push(a)[i],
                    ) by {
                        if i < acc.len() {
                            assert(acc.push(a)[i] == acc[i]);
                        }
                    }
                    lemma_resto_args_lida(s, q, acc.push(a));
                }
            },
            _ => {},
        }
    }
}

proof fn lemma_exp_m_lida(s: Seq<char>, p: int)
    ensures
        exp_m(s, p) matches Saida::Lido(e, _) ==> imprimivel(e),
    decreases s.len() - p, 3int,
{
    lemma_prim_lida(s, p);
    match prim(s, p) {
        Saida::Lido(e, q) => {
            if entre(p, q, s) {
                lemma_resto_m_lida(s, q, e);
            }
        },
        _ => {},
    }
}

proof fn lemma_resto_m_lida(s: Seq<char>, p: int, acc: ExprS)
    requires
        imprimivel(acc),
    ensures
        resto_m(s, p, acc) matches Saida::Lido(e, _) ==> imprimivel(e),
    decreases s.len() - p, 2int,
{
    if 0 <= p <= s.len() {
        match espia(s, p) {
            Some(c) => {
                if c == '*' || c == '/' {
                    let p1 = proximo(s, p).1;
                    lemma_proximo(s, p);
                    lemma_prim_lida(s, p1);
                    match prim(s, p1) {
                        Saida::Lido(d, q) => {
                            if entre(p1, q, s) {
                                lemma_resto_m_lida(
                                    s,
                                    q,
                                    ExprS::OpBin {
                                        operador: seq![c],
                                        esq: Box::new(acc),
                                        dir: Box::new(d),
                                    },
                                );
                            }
                        },
                        _ => {},
                    }
                }
            },
            None => {},
        }
    }
}

proof fn lemma_exp_a_lida(s: Seq<char>, p: int)
    ensures
        exp_a(s, p) matches Saida::Lido(e, _) ==> imprimivel(e),
    decreases s.len() - p, 5int,
{
    lemma_exp_m_lida(s, p);
    match exp_m(s, p) {
        Saida::Lido(e, q) => {
            if entre(p, q, s) {
                lemma_resto_a_lida(s, q, e);
            }
        },
        _ => {},
    }
}

proof fn lemma_resto_a_lida(s: Seq<char>, p: int, acc: ExprS)
    requires
        imprimivel(acc),
    ensures
        resto_a(s, p, acc) matches Saida::Lido(e, _) ==> imprimivel(e),
    decreases s.len() - p, 4int,
{
    if 0 <= p <= s.len() {
        match espia(s, p) {
            Some(c) => {
                if c == '+' || c == '-' {
                    let p1 = proximo(s, p).1;
                    lemma_proximo(s, p);
                    lemma_exp_m_lida(s, p1);
                    match exp_m(s, p1) {
                        Saida::Lido(d, q) => {
                            if entre(p1, q, s) {
                                lemma_resto_a_lida(
                                    s,
                                    q,
                                    ExprS::OpBin {
                                        operador: seq![c],
                                        esq: Box::new(acc),
                                        dir: Box::new(d),
                                    },
                                );
                            }
                        },
                        _ => {},
                    }
                }
            },
            None => {},
        }
    }
}

/// Every expression that the parser reads has only the operators of the
/// language, non-negative constants and identifiers for names.
pub proof fn lemma_expr_lida(s: Seq<char>, p: int)
    ensures
        expr(s, p) matches Saida::Lido(e, _) ==> imprimivel(e),
    decreases s.len() - p, 8int,
{
    lemma_exp_a_lida(s, p);
    match exp_a(s, p) {
        Saida::Lido(e, q) => {
            if entre(p, q, s) {
                lemma_resto_expr_lida(s, q, e);
            }
        },
        _ => {},
    }
}

proof fn lemma_resto_expr_lida(s: Seq<char>, p: int, acc: ExprS)
    requires
        imprimivel(acc),
    ensures
        resto_expr(s, p, acc) matches Saida::Lido(e, _) ==> imprimivel(e),
    decreases s.len() - p, 7int,
{
    if 0 <= p <= s.len() {
        match espia(s, p) {
            Some(c) => {
                if c == '=' {
                    let p1 = proximo(s, p).1;
                    let p2 = proximo(s, p1).1;
                    lemma_proximo(s, p);
                    lemma_proximo(s, p1);
                    lemma_mais_comparacao_lida(s, p, p2, seq!['=', '='], acc);
                } else if c == '<' || c == '>' {
                    lemma_proximo(s, p);
                    lemma_mais_comparacao_lida(s, p, proximo(s, p).1, seq![c], acc);
                }
            },
            None => {},
        }
    }
}

proof fn lemma_mais_comparacao_lida(s: Seq<char>, p: int, p1: int, op: Seq<char>, acc: ExprS)
    requires
        imprimivel(acc),
        op == seq!['=', '='] || op == seq!['<'] || op == seq!['>'],
    ensures
        mais_comparacao(s, p, p1, op, acc) matches Saida::Lido(e, _) ==> imprimivel(e),
    decreases s.len() - p, 6int,
{
    if p < p1 <= s.len() {
        lemma_exp_a_lida(s, p1);
        match exp_a(s, p1) {
            Saida::Lido(d, q) => {
                if entre(p1, q, s) {
                    lemma_resto_expr_lida(
                        s,
                        q,
                        ExprS::OpBin { operador: op, esq: Box::new(acc), dir: Box::new(d) },
                    );
                }
            },
            _ => {},
        }
    }
}

/// The expressions of a command have only the operators of the language,
/// non-negative constants and identifiers for names.
pub open spec fn cmd_expressoes(c: CmdS) -> bool
    decreases c,
{
    match c {
        CmdS::Atrib { nome, expr } => imprimivel(expr),
        CmdS::If { cond, then_cmds, else_cmds } => imprimivel(cond) && cmds_expressoes(then_cmds)
            && cmds_expressoes(else_cmds),
        CmdS::While { cond, body } => imprimivel(cond) && cmds_expressoes(body),
    }
}

pub open spec fn cmds_expressoes(s: Seq<CmdS>) -> bool
    decreases s,
{
    if s.len() == 0 {
        true
    } else {
        cmd_expressoes(s[0]) && cmds_expressoes(s.drop_first())
    }
}

pub proof fn lemma_cmds_expressoes(s: Seq<CmdS>)
    ensures
        cmds_expressoes(s) <==> forall|i: int| 0 <= i < s.len() ==> cmd_expressoes(#[trigger] s[i]),
    decreases s.len(),
{
    if s.len() > 0 {
        lemma_cmds_expressoes(s.drop_first());
        if forall|i: int| 0 <= i < s.len() ==> cmd_expressoes(#[trigger] s[i]) {
            assert forall|i: int| 0 <= i < s.drop_first().len() implies cmd_expressoes(
                #[trigger] s.drop_first()[i],
            ) by {
                assert(s.drop_first()[i] == s[i + 1]);
            }
        }
        if cmds_expressoes(s) {
            assert forall|i: int| 0 <= i < s.len() implies cmd_expressoes(#[trigger] s[i]) by {
                if i > 0 {
                    assert(s[i] == s.drop_first()[i - 1]);
                }
            }
        }
    }
}

proof fn lemma_push_cmd(acc: Seq<CmdS>, c: CmdS)
    requires
        forall|i: int| 0 <= i < acc.len() ==> cmd_expressoes(#[trigger] acc[i]),
        cmd_expressoes(c),
    ensures
        forall|i: int| 0 <= i < acc.push(c).len() ==> cmd_expressoes(#[trigger] acc.push(c)[i]),
{
    assert forall|i: int| 0 <= i < acc.push(c).len() implies cmd_expressoes(
        #[trigger] acc.push(c)[i],
    ) by {
        if i < acc.len() {
            assert(acc.push(c)[i] == acc[i]);
        }
    }
}

/// Every command that the parser reads has expressions as
/// [`lemma_expr_lida`] says.
pub proof fn lemma_cmd_lida(s: Seq<char>, p: int)
    ensures
        cmd(s, p) matches Saida::Lido(c, _) ==> cmd_expressoes(c),
    decreases s.len() - p, 0int,
{
    if 0 <= p <= s.len() {
        if palavra(s, p, "if"@).0 {
            let p1 = palavra(s, p, "if"@).1;
            lemma_expr_lida(s, p1);
            match expr(s, p1) {
                Saida::Lido(c, q1) => match espera(s, q1, '{') {
                    Saida::Lido(_, q2) => if p < q2 <= s.len() {
                        lemma_bloco_lido(s, q2, Seq::empty());
                        match bloco(s, q2, Seq::empty()) {
                            Saida::Lido(entao, q3) => match espera(s, q3, '}') {
                                Saida::Lido(_, q4) => match espera_palavra(s, q4, "else"@) {
                                    Saida::Lido(_, q5) => match espera(s, q5, '{') {
                                        Saida::Lido(_, q6) => if p < q6 <= s.len() {
                                            lemma_bloco_lido(s, q6, Seq::empty());
                                            match bloco(s, q6, Seq::empty()) {
                                                Saida::Lido(senao, q7) => {
                                                    lemma_cmds_expressoes(entao);
                                                    lemma_cmds_expressoes(senao);
                                                },
                                                _ => {},
                                            }
                                        },
                                        _ => {},
                                    },
                                    _ => {},
                                },
                                _ => {},
                            },
                            _ => {},
                        }
                    },
                    _ => {},
                },
                _ => {},
            }
        } else if palavra(s, p, "while"@).0 {
            let p1 = palavra(s, p, "while"@).1;
            lemma_expr_lida(s, p1);
            match expr(s, p1) {
                Saida::Lido(c, q1) => match espera(s, q1, '{') {
                    Saida::Lido(_, q2) => if p < q2 <= s.len() {
                        lemma_bloco_lido(s, q2, Seq::empty());
                        match bloco(s, q2, Seq::empty()) {
                            Saida::Lido(corpo_, q3) => {
                                lemma_cmds_expressoes(corpo_);
                            },
                            _ => {},
                        }
                    },
                    _ => {},
                },
                _ => {},
            }
        } else {
            match nome(s, p) {
                Saida::Lido(n, q1) => match espera(s, q1, '=') {
                    Saida::Lido(_, q2) => {
                        lemma_expr_lida(s, q2);
                    },
                    _ => {},
                },
                _ => {},
            }
        }
    }
}

proof fn lemma_bloco_lido(s: Seq<char>, p: int, acc: Seq<CmdS>)
    requires
        forall|i: int| 0 <= i < acc.len() ==> cmd_expressoes(#[trigger] acc[i]),
    ensures
        bloco(s, p, acc) matches Saida::Lido(cs, _) ==> forall|i: int|
            0 <= i < cs.len() ==> cmd_expressoes(#[trigger] cs[i]),
    decreases s.len() - p, 1int,
{
    if 0 <= p <= s.len() && espia(s, p) != Some('}') {
        lemma_cmd_lida(s, p);
        match cmd(s, p) {
            Saida::Lido(c, q) => {
                if p < q <= s.len() {
                    lemma_push_cmd(acc, c);
                    lemma_bloco_lido(s, q, acc.push(c));
                }
            },
            _ => {},
        }
    }
}

proof fn lemma_corpo_lido(s: Seq<char>, p: int, acc: Seq<CmdS>)
    requires
        forall|i: int| 0 <= i < acc.len() ==> cmd_expressoes(#[trigger] acc[i]),
    ensures
        corpo(s, p, acc) matches Saida::Lido(cs, _) ==> forall|i: int|
            0 <= i < cs.len() ==> cmd_expressoes(#[trigger] cs[i]),
    decreases s.len() - p,
{
    if 0 <= p <= s.len() && !palavra(s, p, "return"@).0 {
        lemma_cmd_lida(s, p);
        match cmd(s, p) {
            Saida::Lido(c, q) => {
                if p < q <= s.len() {
                    lemma_push_cmd(acc, c);
                    lemma_corpo_lido(s, q, acc.push(c));
                }
            },
            _ => {},
        }
    }
}

proof fn lemma_definicao_lida(s: Seq<char>, p: int)
    ensures
        definicao(s, p) matches Saida::Lido(d, _) ==> imprimivel(d.1),
{
    match nome(s, p) {
        Saida::Lido(n, q1) => match espera(s, q1, '=') {
            Saida::Lido(_, q2) => {
                lemma_expr_lida(s, q2);
            },
            _ => {},
        },
        _ => {},
    }
}

proof fn lemma_resto_vars_lido(s: Seq<char>, p: int, acc: Seq<(Seq<char>, ExprS)>)
    requires
        forall|i: int| 0 <= i < acc.len() ==> imprimivel(#[trigger] acc[i].1),
    ensures
        resto_vars(s, p, acc) matches Saida::Lido(vs, _) ==> forall|i: int|
            0 <= i < vs.len() ==> imprimivel(#[trigger] vs[i].1),
    decreases s.len() - p,
{
    if 0 <= p <= s.len() && palavra(s, p, "var"@).0 {
        let p1 = palavra(s, p, "var"@).1;
        lemma_definicao_lida(s, p1);
        match definicao(s, p1) {
            Saida::Lido(d, q) => {
                if p < q <= s.len() {
                    assert forall|i: int| 0 <= i < acc.push(d).len() implies imprimivel(
                        #[trigger] acc.push(d)[i].1,
                    ) by {
                        if i < acc.len() {
                            assert(acc.push(d)[i] == acc[i]);
                        }
                    }
                    lemma_resto_vars_lido(s, q, acc.push(d));
                }
            },
            _ => {},
        }
    }
}

proof fn lemma_fecho_lido(s: Seq<char>, p: int)
    ensures
        fecho(s, p) matches Saida::Lido(e, _) ==> imprimivel(e),
{
    lemma_expr_lida(s, p);
}

/// The expressions of a function are as [`lemma_expr_lida`] says.
pub open spec fn fundecl_expressoes(f: FunDeclS) -> bool {
    &&& forall|i: int| 0 <= i < f.variaveis.len() ==> imprimivel(#[trigger] f.variaveis[i].1)
    &&& forall|i: int| 0 <= i < f.comandos.len() ==> cmd_expressoes(#[trigger] f.comandos[i])
    &&& imprimivel(f.retorno)
}

proof fn lemma_fundecl_lida(s: Seq<char>, p: int)
    ensures
        fundecl(s, p) matches Saida::Lido(f, _) ==> fundecl_expressoes(f),
{
    match nome(s, p) {
        Saida::Lido(n, q1) => match espera(s, q1, '(') {
            Saida::Lido(_, q2) => match params(s, q2) {
                Saida::Lido(ps, q3) => match espera(s, q3, ')') {
                    Saida::Lido(_, q4) => match espera(s, q4, '{') {
                        Saida::Lido(_, q5) => {
                            lemma_resto_vars_lido(s, q5, Seq::empty());
                            match resto_vars(s, q5, Seq::empty()) {
                                Saida::Lido(vs, q6) => {
                                    lemma_corpo_lido(s, q6, Seq::empty());
                                    match corpo(s, q6, Seq::empty()) {
                                        Saida::Lido(cs, q7) => {
                                            lemma_fecho_lido(s, q7);
                                        },
                                        _ => {},
                                    }
                                },
                                _ => {},
                            }
                        },
                        _ => {},
                    },
                    _ => {},
                },
                _ => {},
            },
            _ => {},
        },
        _ => {},
    }
}

/// The expressions of a program are as [`lemma_expr_lida`] says.
pub open spec fn programa_expressoes(p: ProgramaS) -> bool {
    &&& forall|i: int| 0 <= i < p.globais.len() ==> imprimivel(#[trigger] p.globais[i].1)
    &&& forall|i: int| 0 <= i < p.funcoes.len() ==> fundecl_expressoes(#[trigger] p.funcoes[i])
    &&& forall|i: int| 0 <= i < p.principal.len() ==> cmd_expressoes(#[trigger] p.principal[i])
    &&& imprimivel(p.retorno)
}

proof fn lemma_topo_lido(
    s: Seq<char>,
    p: int,
    g: Seq<(Seq<char>, ExprS)>,
    f: Seq<FunDeclS>,
)
    requires
        forall|i: int| 0 <= i < g.len() ==> imprimivel(#[trigger] g[i].1),
        forall|i: int| 0 <= i < f.len() ==> fundecl_expressoes(#[trigger] f[i]),
    ensures
        topo(s, p, g, f) matches Saida::Lido(r, _) ==> {
            &&& forall|i: int| 0 <= i < r.0.len() ==> imprimivel(#[trigger] r.0[i].1)
            &&& forall|i: int| 0 <= i < r.1.len() ==> fundecl_expressoes(#[trigger] r.1[i])
        },
    decreases s.len() - p,
{
    if 0 <= p <= s.len() && !palavra(s, p, "main"@).0 {
        if palavra(s, p, "var"@).0 {
            let p1 = palavra(s, p, "var"@).1;
            lemma_definicao_lida(s, p1);
            match definicao(s, p1) {
                Saida::Lido(d, q) => {
                    if p < q <= s.len() {
                        assert forall|i: int| 0 <= i < g.push(d).len() implies imprimivel(
                            #[trigger] g.push(d)[i].1,
                        ) by {
                            if i < g.len() {
                                assert(g.push(d)[i] == g[i]);
                            }
                        }
                        lemma_topo_lido(s, q, g.push(d), f);
                    }
                },
                _ => {},
            }
        } else if palavra(s, p, "fun"@).0 {
            let p1 = palavra(s, p, "fun"@).1;
            lemma_fundecl_lida(s, p1);
            match fundecl(s, p1) {
                Saida::Lido(d, q) => {
                    if p < q <= s.len() {
                        assert forall|i: int| 0 <= i < f.push(d).len() implies fundecl_expressoes(
                            #[trigger] f.push(d)[i],
                        ) by {
                            if i < f.len() {
                                assert(f.push(d)[i] == f[i]);
                            }
                        }
                        lemma_topo_lido(s, q, g, f.push(d));
                    }
                },
                _ => {},
            }
        }
    }
}

/// Every program that the parser reads has expressions as
/// [`lemma_expr_lida`] says.
pub proof fn lemma_programa_lido(s: Seq<char>, p: int)
    ensures
        programa(s, p) matches Saida::Lido(prog, _) ==> programa_expressoes(prog),
{
    lemma_topo_lido(s, p, Seq::empty(), Seq::empty());
    match topo(s, p, Seq::empty(), Seq::empty()) {
        Saida::Lido(r, q1) => match espera(s, q1, '{') {
            Saida::Lido(_, q2) => {
                lemma_corpo_lido(s, q2, Seq::empty());
                match corpo(s, q2, Seq::empty()) {
                    Saida::Lido(cs, q3) => {
                        lemma_fecho_lido(s, q3);
                    },
                    _ => {},
                }
            },
            _ => {},
        },
        _ => {},
    }
}

/// The calls of an expression have few enough arguments that their size in
/// bytes fits in a `usize`.
pub open spec fn expr_cabe(e: ExprS) -> bool
    decreases e,
{
    match e {
        ExprS::Const(_) => true,
        ExprS::Var(_) => true,
        ExprS::OpBin { operador, esq, dir } => expr_cabe(*esq) && expr_cabe(*dir),
        ExprS::Call { nome, args } => args.len() * 8 <= usize::MAX && exprs_cabem(args),
    }
}

pub open spec fn exprs_cabem(s: Seq<ExprS>) -> bool
    decreases s,
{
    if s.len() == 0 {
        true
    } else {
        expr_cabe(s[0]) && exprs_cabem(s.drop_first())
    }
}

/// The calls of the expressions of a command fit, as [`expr_cabe`] says.
pub open spec fn cmd_cabe(c: CmdS) -> bool
    decreases c,
{
    match c {
        CmdS::Atrib { nome, expr } => expr_cabe(expr),
        CmdS::If { cond, then_cmds, else_cmds } => expr_cabe(cond) && cmds_cabem(then_cmds)
            && cmds_cabem(else_cmds),
        CmdS::While { cond, body } => expr_cabe(cond) && cmds_cabem(body),
    }
}

pub open spec fn cmds_cabem(s: Seq<CmdS>) -> bool
    decreases s,
{
    if s.len() == 0 {
        true
    } else {
        cmd_cabe(s[0]) && cmds_cabem(s.drop_first())
    }
}

/// The offsets of a function fit in an `isize`, and its calls fit.
pub open spec fn funcao_cabe(f: FunDeclS) -> bool {
    &&& 16 + 8 * f.parametros.len() <= isize::MAX
    &&& 8 + 8 * f.variaveis.len() <= isize::MAX + 1
    &&& forall|j: int| 0 <= j < f.variaveis.len() ==> expr_cabe(#[trigger] f.variaveis[j].1)
    &&& cmds_cabem(f.comandos)
    &&& expr_cabe(f.retorno)
}

/// The sizes of a program fit the machine: its calls and offsets, and the
/// numbers of its labels.
pub open spec fn programa_cabe(p: ProgramaS) -> bool {
    &&& forall|j: int| 0 <= j < p.globais.len() ==> expr_cabe(#[trigger] p.globais[j].1)
    &&& forall|j: int| 0 <= j < p.funcoes.len() ==> funcao_cabe(#[trigger] p.funcoes[j])
    &&& cmds_cabem(p.principal)
    &&& expr_cabe(p.retorno)
    &&& 2 * rotulos_programa(p) <= usize::MAX
}

proof fn lemma_exprs_cabem(s: Seq<ExprS>)
    ensures
        exprs_cabem(s) ==> forall|i: int| 0 <= i < s.len() ==> expr_cabe(#[trigger] s[i]),
    decreases s.len(),
{
    if s.len() > 0 {
        lemma_exprs_cabem(s.drop_first());
        if exprs_cabem(s) {
            assert forall|i: int| 0 <= i < s.len() implies expr_cabe(#[trigger] s[i]) by {
                if i > 0 {
                    assert(s[i] == s.drop_first()[i - 1]);
                }
            }
        }
    }
}

proof fn lemma_cmds_cabem(s: Seq<CmdS>)
    ensures
        cmds_cabem(s) ==> forall|i: int| 0 <= i < s.len() ==> cmd_cabe(#[trigger] s[i]),
    decreases s.len(),
{
    if s.len() > 0 {
        lemma_cmds_cabem(s.drop_first());
        if cmds_cabem(s) {
            assert forall|i: int| 0 <= i < s.len() implies cmd_cabe(#[trigger] s[i]) by {
                if i > 0 {
                    assert(s[i] == s.drop_first()[i - 1]);
                }
            }
        }
    }
}

proof fn lemma_exprs_validas_de(s: Seq<ExprS>)
    requires
        forall|i: int| 0 <= i < s.len() ==> expr_valida(#[trigger] s[i]),
    ensures
        exprs_validas(s),
    decreases s.len(),
{
    if s.len() > 0 {
        assert forall|i: int| 0 <= i < s.drop_last().len() implies expr_valida(
            #[trigger] s.drop_last()[i],
        ) by {
            assert(s.drop_last()[i] == s[i]);
        }
        lemma_exprs_validas_de(s.drop_last());
        assert(expr_valida(s[s.len() - 1]));
    }
}

proof fn lemma_cmds_validos_de(s: Seq<CmdS>)
    requires
        forall|i: int| 0 <= i < s.len() ==> cmd_valido(#[trigger] s[i]),
    ensures
        cmds_validos(s),
    decreases s.len(),
{
    if s.len() > 0 {
        assert forall|i: int| 0 <= i < s.drop_last().len() implies cmd_valido(
            #[trigger] s.drop_last()[i],
        ) by {
            assert(s.drop_last()[i] == s[i]);
        }
        lemma_cmds_validos_de(s.drop_last());
        assert(cmd_valido(s[s.len() - 1]));
    }
}

/// A printable expression whose calls fit is valid for the code generator.
pub proof fn lemma_expr_valida(e: ExprS)
    requires
        imprimivel(e),
        expr_cabe(e),
    ensures
        expr_valida(e),
    decreases e,
{
    match e {
        ExprS::OpBin { operador, esq, dir } => {
            lemma_expr_valida(*esq);
            lemma_expr_valida(*dir);
        },
        ExprS::Call { nome, args } => {
            lemma_imprimiveis(args);
            lemma_exprs_cabem(args);
            assert forall|i: int| 0 <= i < args.len() implies expr_valida(#[trigger] args[i]) by {
                lemma_expr_valida(args[i]);
            }
            lemma_exprs_validas_de(args);
        },
        _ => {},
    }
}

proof fn lemma_cmds_validos(s: Seq<CmdS>)
    requires
        forall|i: int| 0 <= i < s.len() ==> cmd_expressoes(#[trigger] s[i]),
        cmds_cabem(s),
    ensures
        cmds_validos(s),
    decreases s, 0int,
{
    lemma_cmds_cabem(s);
    assert forall|i: int| 0 <= i < s.len() implies cmd_valido(#[trigger] s[i]) by {
        lemma_cmd_valido(s[i]);
    }
    lemma_cmds_validos_de(s);
}

/// A command whose expressions are as the parser reads them, and whose
/// calls fit, is valid for the code generator.
pub proof fn lemma_cmd_valido(c: CmdS)
    requires
        cmd_expressoes(c),
        cmd_cabe(c),
    ensures
        cmd_valido(c),
    decreases c, 1int,
{
    match c {
        CmdS::Atrib { nome, expr } => {
            lemma_expr_valida(expr);
        },
        CmdS::If { cond, then_cmds, else_cmds } => {
            lemma_expr_valida(cond);
            lemma_cmds_expressoes(then_cmds);
            lemma_cmds_expressoes(else_cmds);
            lemma_cmds_validos(then_cmds);
            lemma_cmds_validos(else_cmds);
        },
        CmdS::While { cond, body } => {
            lemma_expr_valida(cond);
            lemma_cmds_expressoes(body);
            lemma_cmds_validos(body);
        },
    }
}

/// A program that the parser reads can be given to the code generator
/// wherever its sizes fit the machine: every operator in it is one that the
/// generator translates.
pub proof fn lei_programa_lido_compilavel(s: Seq<char>, p: int)
    ensures
        programa(s, p) matches Saida::Lido(prog, _) ==> (programa_cabe(prog) ==> programa_valido(
            prog,
        )),
{
    lemma_programa_lido(s, p);
    match programa(s, p) {
        Saida::Lido(prog, _) => {
            if programa_cabe(prog) {
                assert forall|j: int| 0 <= j < prog.globais.len() implies expr_valida(
                    #[trigger] prog.globais[j].1,
                ) by {
                    lemma_expr_valida(prog.globais[j].1);
                }
                assert forall|j: int| 0 <= j < prog.funcoes.len() implies funcao_valida(
                    #[trigger] prog.funcoes[j],
                ) by {
                    let f = prog.funcoes[j];
                    assert(fundecl_expressoes(f));
                    assert(funcao_cabe(f));
                    assert forall|k: int| 0 <= k < f.variaveis.len() implies expr_valida(
                        #[trigger] f.variaveis[k].1,
                    ) by {
                        lemma_expr_valida(f.variaveis[k].1);
                    }
                    lemma_cmds_validos(f.comandos);
                    lemma_expr_valida(f.retorno);
                }
                lemma_cmds_validos(prog.principal);
                lemma_expr_valida(prog.retorno);
            }
        },
        _ => {},
    }
}

} // verus!
