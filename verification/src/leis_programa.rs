//! The parser reads back the text of a whole program that a printer writes.
use vstd::prelude::*;
use crate::ast::{CmdS, ExprS, FunDeclS, ProgramaS};
use crate::caracteres::{eh_alfanum, eh_espaco, eh_letra};
use crate::gramatica::{
    Saida,
    corpo,
    definicao,
    espera,
    espia,
    fecho,
    fundecl,
    nome,
    palavra,
    params,
    programa,
    proximo,
    pula_espacos,
    resto_params,
    resto_vars,
    topo,
};
use crate::leis::{
    cmd_imprimivel,
    cmds_imprimiveis,
    em,
    identificador,
    imprime_cmd,
    imprime_cmds,
    imprime_expr,
    imprimivel,
    lemma_cmd_imprime,
    lemma_cmd_primeiro,
    lemma_em_concat,
    lemma_em_indice,
    lemma_em_sub,
    lemma_expr_imprime,
    lemma_expr_parenteses,
    lemma_le_nome,
    lemma_nome_nao_palavra,
    lemma_olha,
    lemma_palavra_nao,
    lemma_palavra_sim,
    lemma_palavras,
    lemma_pula_nada,
    reservada,
};

verus! {

/// The text of a declaration: `var nome=expr;`.
pub open spec fn imprime_def(d: (Seq<char>, ExprS)) -> Seq<char> {
    seq!['v', 'a', 'r', ' '] + d.0 + seq!['='] + imprime_expr(d.1) + seq![';']
}

/// The texts of declarations, one after the other.
pub open spec fn imprime_defs(ds: Seq<(Seq<char>, ExprS)>) -> Seq<char>
    decreases ds.len(),
{
    if ds.len() == 0 {
        Seq::empty()
    } else {
        imprime_def(ds[0]) + imprime_defs(ds.drop_first())
    }
}

/// Parameters after the first, each after a comma.
pub open spec fn imprime_resto_params(ps: Seq<Seq<char>>) -> Seq<char>
    decreases ps.len(),
{
    if ps.len() == 0 {
        Seq::empty()
    } else {
        seq![','] + ps[0] + imprime_resto_params(ps.drop_first())
    }
}

/// The parameters of a function, separated by commas.
pub open spec fn imprime_params(ps: Seq<Seq<char>>) -> Seq<char> {
    if ps.len() == 0 {
        Seq::empty()
    } else {
        ps[0] + imprime_resto_params(ps.drop_first())
    }
}

/// The end of a body: `return(expr);}`.
pub open spec fn imprime_retorno(e: ExprS) -> Seq<char> {
    seq!['r', 'e', 't', 'u', 'r', 'n'] + (seq!['('] + imprime_expr(e) + seq![')']) + seq![';', '}']
}

/// The text of a function: `fun nome(a,b){` declarations, commands, `return(..);}`.
pub open spec fn imprime_fundecl(f: FunDeclS) -> Seq<char> {
    seq!['f', 'u', 'n', ' '] + f.nome + seq!['('] + imprime_params(f.parametros) + seq![')', '{']
        + imprime_defs(f.variaveis) + imprime_cmds(f.comandos) + imprime_retorno(f.retorno)
}

/// The texts of functions, one after the other.
pub open spec fn imprime_funcoes(fs: Seq<FunDeclS>) -> Seq<char>
    decreases fs.len(),
{
    if fs.len() == 0 {
        Seq::empty()
    } else {
        imprime_fundecl(fs[0]) + imprime_funcoes(fs.drop_first())
    }
}

/// The text of a program: the globals, the functions, then
/// `main{` commands `return(..);}`.
pub open spec fn imprime_programa(p: ProgramaS) -> Seq<char> {
    imprime_defs(p.globais) + imprime_funcoes(p.funcoes) + seq!['m', 'a', 'i', 'n', '{']
        + imprime_cmds(p.principal) + imprime_retorno(p.retorno)
}

pub open spec fn def_imprimivel(d: (Seq<char>, ExprS)) -> bool {
    identificador(d.0) && imprimivel(d.1)
}

pub open spec fn fundecl_imprimivel(f: FunDeclS) -> bool {
    &&& identificador(f.nome)
    &&& forall|i: int| 0 <= i < f.parametros.len() ==> identificador(#[trigger] f.parametros[i])
    &&& forall|i: int| 0 <= i < f.variaveis.len() ==> def_imprimivel(#[trigger] f.variaveis[i])
    &&& cmds_imprimiveis(f.comandos)
    &&& imprimivel(f.retorno)
}

/// The programs that the printer writes as text that the grammar reads.
pub open spec fn programa_imprimivel(p: ProgramaS) -> bool {
    &&& forall|i: int| 0 <= i < p.globais.len() ==> def_imprimivel(#[trigger] p.globais[i])
    &&& forall|i: int| 0 <= i < p.funcoes.len() ==> fundecl_imprimivel(#[trigger] p.funcoes[i])
    &&& cmds_imprimiveis(p.principal)
    &&& imprimivel(p.retorno)
}

/// A keyword is not read where the text begins with another character.
proof fn lemma_palavra_outra(s: Seq<char>, q: int, kw: Seq<char>)
    requires
        0 <= q < s.len(),
        !eh_espaco(s[q]),
        kw.len() > 0,
        s[q] != kw[0],
    ensures
        palavra(s, q, kw) == (false, q),
{
    if em(s, q, kw) {
        lemma_em_indice(s, q, kw, 0);
    }
    lemma_palavra_nao(s, q, kw);
}

/// A declaration is read after its keyword `var`.
proof fn lemma_definicao(s: Seq<char>, p: int, d: (Seq<char>, ExprS))
    requires
        def_imprimivel(d),
        em(s, p, imprime_def(d)),
    ensures
        palavra(s, p, "var"@) == (true, p + 3),
        definicao(s, p + 3) == Saida::Lido(d, p + imprime_def(d).len()),
{
    lemma_palavras();
    let a = seq!['v', 'a', 'r', ' '];
    let n = d.0;
    let pe = imprime_expr(d.1);
    let q = p + imprime_def(d).len();
    lemma_em_concat(s, p, a + n + seq!['='] + pe, seq![';']);
    lemma_em_concat(s, p, a + n + seq!['='], pe);
    lemma_em_concat(s, p, a + n, seq!['=']);
    lemma_em_concat(s, p, a, n);
    assert(seq!['v', 'a', 'r'] =~= a.subrange(0, 3));
    lemma_em_sub(s, p, a, 0, 3);
    lemma_em_indice(s, p, a, 3);
    lemma_palavra_sim(s, p, "var"@);
    lemma_em_indice(s, p + 4, n, 0);
    lemma_pula_nada(s, p + 4);
    assert(pula_espacos(s, p + 3) == p + 4);
    let q1 = p + 4 + n.len();
    lemma_em_indice(s, q1, seq!['='], 0);
    lemma_em_indice(s, q - 1, seq![';'], 0);
    lemma_le_nome(s, p + 3, p + 4, n);
    lemma_olha(s, q1);
    lemma_expr_imprime(s, q1 + 1, d.1);
    lemma_olha(s, q - 1);
}

/// Declarations, followed by text where `var` is not read, are read whole.
proof fn lemma_resto_vars(
    s: Seq<char>,
    q: int,
    vs: Seq<(Seq<char>, ExprS)>,
    acc: Seq<(Seq<char>, ExprS)>,
)
    requires
        forall|i: int| 0 <= i < vs.len() ==> def_imprimivel(#[trigger] vs[i]),
        em(s, q, imprime_defs(vs)),
        palavra(s, q + imprime_defs(vs).len(), "var"@).0 == false,
    ensures
        resto_vars(s, q, acc) == Saida::Lido(acc + vs, q + imprime_defs(vs).len()),
    decreases vs.len(),
{
    if vs.len() == 0 {
        assert(acc + vs =~= acc);
    } else {
        let d = imprime_def(vs[0]);
        let rest = imprime_defs(vs.drop_first());
        lemma_em_concat(s, q, d, rest);
        assert(def_imprimivel(vs[0]));
        lemma_definicao(s, q, vs[0]);
        assert forall|i: int| 0 <= i < vs.drop_first().len() implies def_imprimivel(
            #[trigger] vs.drop_first()[i],
        ) by {
            assert(vs.drop_first()[i] == vs[i + 1]);
        }
        lemma_resto_vars(s, q + d.len(), vs.drop_first(), acc.push(vs[0]));
        assert(acc.push(vs[0]) + vs.drop_first() =~= acc + vs);
    }
}

/// The text of a command does not begin with the keyword `kw`, a reserved
/// word other than `if` and `while`.
proof fn lemma_cmd_nao_palavra(s: Seq<char>, q: int, c: CmdS, kw: Seq<char>)
    requires
        cmd_imprimivel(c),
        em(s, q, imprime_cmd(c)),
        reservada(kw),
        kw[0] != 'i',
        kw[0] != 'w',
    ensures
        palavra(s, q, kw) == (false, q),
{
    lemma_cmd_primeiro(c);
    lemma_em_indice(s, q, imprime_cmd(c), 0);
    match c {
        CmdS::Atrib { nome: n, expr: e } => {
            let pe = imprime_expr(e);
            lemma_em_concat(s, q, n + seq!['='] + pe, seq![';']);
            lemma_em_concat(s, q, n + seq!['='], pe);
            lemma_em_concat(s, q, n, seq!['=']);
            lemma_em_indice(s, q + n.len(), seq!['='], 0);
            lemma_nome_nao_palavra(s, q, n, kw);
            lemma_palavra_nao(s, q, kw);
        },
        _ => {
            lemma_palavra_outra(s, q, kw);
        },
    }
}

/// Commands, then `return` not followed by a letter or digit, are read whole.
proof fn lemma_corpo(s: Seq<char>, q: int, cs: Seq<CmdS>, acc: Seq<CmdS>)
    requires
        cmds_imprimiveis(cs),
        em(s, q, imprime_cmds(cs) + seq!['r', 'e', 't', 'u', 'r', 'n']),
        !(q + imprime_cmds(cs).len() + 6 < s.len() && eh_alfanum(
            s[q + imprime_cmds(cs).len() + 6],
        )),
    ensures
        corpo(s, q, acc) == Saida::Lido(acc + cs, q + imprime_cmds(cs).len() + 6),
    decreases cs.len(),
{
    lemma_palavras();
    let r = seq!['r', 'e', 't', 'u', 'r', 'n'];
    lemma_em_concat(s, q, imprime_cmds(cs), r);
    if cs.len() == 0 {
        lemma_palavra_sim(s, q, "return"@);
        assert(acc + cs =~= acc);
    } else {
        let c0 = imprime_cmd(cs[0]);
        let rest = imprime_cmds(cs.drop_first());
        assert(c0 + rest + r =~= c0 + (rest + r));
        lemma_em_concat(s, q, c0, rest + r);
        lemma_cmd_nao_palavra(s, q, cs[0], "return"@);
        lemma_cmd_imprime(s, q, cs[0]);
        lemma_cmd_primeiro(cs[0]);
        lemma_corpo(s, q + c0.len(), cs.drop_first(), acc.push(cs[0]));
        assert(acc.push(cs[0]) + cs.drop_first() =~= acc + cs);
    }
}

/// `(expr);}` after a `return` is read as the return expression.
proof fn lemma_fecho(s: Seq<char>, q: int, e: ExprS)
    requires
        imprimivel(e),
        em(s, q, (seq!['('] + imprime_expr(e) + seq![')']) + seq![';', '}']),
    ensures
        fecho(s, q) == Saida::Lido(e, q + imprime_expr(e).len() + 4),
{
    let x = seq!['('] + imprime_expr(e) + seq![')'];
    let y = seq![';', '}'];
    lemma_em_concat(s, q, x, y);
    let q1 = q + x.len();
    lemma_em_indice(s, q1, y, 0);
    lemma_em_indice(s, q1, y, 1);
    lemma_expr_parenteses(s, q, e);
    lemma_olha(s, q1);
    lemma_olha(s, q1 + 1);
}

/// Parameters after the first, each after a comma, then `)`, are read whole.
proof fn lemma_resto_params(s: Seq<char>, q: int, rs: Seq<Seq<char>>, acc: Seq<Seq<char>>)
    requires
        forall|i: int| 0 <= i < rs.len() ==> identificador(#[trigger] rs[i]),
        em(s, q, imprime_resto_params(rs) + seq![')']),
    ensures
        resto_params(s, q, acc) == Saida::Lido(acc + rs, q + imprime_resto_params(rs).len()),
    decreases rs.len(),
{
    let x = imprime_resto_params(rs);
    lemma_em_concat(s, q, x, seq![')']);
    lemma_em_indice(s, q + x.len(), seq![')'], 0);
    if rs.len() == 0 {
        lemma_olha(s, q);
        assert(acc + rs =~= acc);
    } else {
        let n = rs[0];
        let rest = imprime_resto_params(rs.drop_first());
        assert(seq![','] + n + rest + seq![')'] =~= (seq![','] + n) + (rest + seq![')']));
        lemma_em_concat(s, q, seq![','] + n, rest + seq![')']);
        lemma_em_concat(s, q, seq![','], n);
        lemma_em_indice(s, q, seq![','], 0);
        lemma_olha(s, q);
        let q1 = q + 1 + n.len();
        lemma_em_concat(s, q1, rest, seq![')']);
        if rs.len() > 1 {
            lemma_em_indice(s, q1, rest, 0);
        } else {
            lemma_em_indice(s, q1, seq![')'], 0);
        }
        lemma_em_indice(s, q + 1, n, 0);
        lemma_pula_nada(s, q + 1);
        lemma_le_nome(s, q + 1, q + 1, n);
        assert forall|i: int| 0 <= i < rs.drop_first().len() implies identificador(
            #[trigger] rs.drop_first()[i],
        ) by {
            assert(rs.drop_first()[i] == rs[i + 1]);
        }
        lemma_resto_params(s, q1, rs.drop_first(), acc.push(n));
        assert(acc.push(n) + rs.drop_first() =~= acc + rs);
    }
}

/// The parameters of a function, then `)`, are read whole.
proof fn lemma_params(s: Seq<char>, q: int, ps: Seq<Seq<char>>)
    requires
        forall|i: int| 0 <= i < ps.len() ==> identificador(#[trigger] ps[i]),
        em(s, q, imprime_params(ps) + seq![')']),
    ensures
        params(s, q) == Saida::Lido(ps, q + imprime_params(ps).len()),
{
    if ps.len() == 0 {
        lemma_em_indice(s, q, imprime_params(ps) + seq![')'], 0);
        lemma_olha(s, q);
        assert(ps =~= Seq::<Seq<char>>::empty());
    } else {
        let n = ps[0];
        let rest = imprime_resto_params(ps.drop_first());
        assert(n + rest + seq![')'] =~= n + (rest + seq![')']));
        lemma_em_concat(s, q, n, rest + seq![')']);
        lemma_em_concat(s, q + n.len(), rest, seq![')']);
        if ps.len() > 1 {
            lemma_em_indice(s, q + n.len(), rest, 0);
        } else {
            lemma_em_indice(s, q + n.len(), seq![')'], 0);
        }
        lemma_em_indice(s, q, n, 0);
        lemma_olha(s, q);
        lemma_le_nome(s, q, q, n);
        assert forall|i: int| 0 <= i < ps.drop_first().len() implies identificador(
            #[trigger] ps.drop_first()[i],
        ) by {
            assert(ps.drop_first()[i] == ps[i + 1]);
        }
        lemma_resto_params(s, q + n.len(), ps.drop_first(), seq![n]);
        assert(seq![n] + ps.drop_first() =~= ps);
    }
}

/// `var` is not read where a body goes on with its commands and `return`.
proof fn lemma_sem_var(s: Seq<char>, q: int, cs: Seq<CmdS>)
    requires
        cmds_imprimiveis(cs),
        em(s, q, imprime_cmds(cs) + seq!['r', 'e', 't', 'u', 'r', 'n']),
    ensures
        palavra(s, q, "var"@) == (false, q),
{
    lemma_palavras();
    let r = seq!['r', 'e', 't', 'u', 'r', 'n'];
    if cs.len() == 0 {
        assert(imprime_cmds(cs) + r =~= r);
        lemma_em_indice(s, q, r, 0);
        lemma_palavra_outra(s, q, "var"@);
    } else {
        let c0 = imprime_cmd(cs[0]);
        assert(imprime_cmds(cs) + r =~= c0 + (imprime_cmds(cs.drop_first()) + r));
        lemma_em_concat(s, q, c0, imprime_cmds(cs.drop_first()) + r);
        lemma_cmd_nao_palavra(s, q, cs[0], "var"@);
    }
}

/// The head of a function, `fun nome(a,b){`, after its keyword `fun`.
proof fn lemma_fundecl_cabeca(s: Seq<char>, p: int, f: FunDeclS)
    requires
        fundecl_imprimivel(f),
        em(s, p, seq!['f', 'u', 'n', ' '] + f.nome + seq!['('] + (imprime_params(f.parametros) + seq![')']) + seq!['{']),
    ensures
        palavra(s, p, "fun"@) == (true, p + 3),
        nome(s, p + 3) == Saida::Lido(f.nome, p + 4 + f.nome.len()),
        espera(s, p + 4 + f.nome.len(), '(') == Saida::Lido((), p + 5 + f.nome.len()),
        params(s, p + 5 + f.nome.len()) == Saida::Lido(
            f.parametros,
            p + 5 + f.nome.len() + imprime_params(f.parametros).len(),
        ),
        espera(s, p + 5 + f.nome.len() + imprime_params(f.parametros).len(), ')') == Saida::Lido(
            (),
            p + 6 + f.nome.len() + imprime_params(f.parametros).len(),
        ),
        espera(s, p + 6 + f.nome.len() + imprime_params(f.parametros).len(), '{') == Saida::Lido(
            (),
            p + 7 + f.nome.len() + imprime_params(f.parametros).len(),
        ),
{
    lemma_palavras();
    let a = seq!['f', 'u', 'n', ' '];
    let n = f.nome;
    let pp = imprime_params(f.parametros);
    let x = pp + seq![')'];
    lemma_em_concat(s, p, a + n + seq!['('] + x, seq!['{']);
    lemma_em_concat(s, p, a + n + seq!['('], x);
    lemma_em_concat(s, p, a + n, seq!['(']);
    lemma_em_concat(s, p, a, n);
    assert(seq!['f', 'u', 'n'] =~= a.subrange(0, 3));
    lemma_em_sub(s, p, a, 0, 3);
    lemma_em_indice(s, p, a, 3);
    lemma_palavra_sim(s, p, "fun"@);
    lemma_em_indice(s, p + 4, n, 0);
    lemma_pula_nada(s, p + 4);
    assert(pula_espacos(s, p + 3) == p + 4);
    let q1 = p + 4 + n.len();
    lemma_em_indice(s, q1, seq!['('], 0);
    lemma_le_nome(s, p + 3, p + 4, n);
    lemma_olha(s, q1);
    let q2 = q1 + 1;
    let q3 = q2 + pp.len();
    lemma_em_concat(s, q2, pp, seq![')']);
    lemma_em_indice(s, q3, seq![')'], 0);
    lemma_em_indice(s, q3 + 1, seq!['{'], 0);
    lemma_params(s, q2, f.parametros);
    lemma_olha(s, q3);
    lemma_olha(s, q3 + 1);
}

/// The body of a function, after its `{`: declarations, commands, `return(..);}`.
proof fn lemma_fundecl_corpo(s: Seq<char>, q5: int, f: FunDeclS)
    requires
        fundecl_imprimivel(f),
        em(s, q5, imprime_defs(f.variaveis) + (imprime_cmds(f.comandos) + seq!['r', 'e', 't', 'u', 'r', 'n']) + ((seq!['('] + imprime_expr(f.retorno) + seq![')']) + seq![';', '}'])),
    ensures
        resto_vars(s, q5, Seq::empty()) == Saida::Lido(
            f.variaveis,
            q5 + imprime_defs(f.variaveis).len(),
        ),
        corpo(s, q5 + imprime_defs(f.variaveis).len(), Seq::empty()) == Saida::Lido(
            f.comandos,
            q5 + imprime_defs(f.variaveis).len() + imprime_cmds(f.comandos).len() + 6,
        ),
        fecho(s, q5 + imprime_defs(f.variaveis).len() + imprime_cmds(f.comandos).len() + 6)
            == Saida::Lido(
            f.retorno,
            q5 + imprime_defs(f.variaveis).len() + imprime_cmds(f.comandos).len() + 6
                + imprime_expr(f.retorno).len() + 4,
        ),
{
    let pd = imprime_defs(f.variaveis);
    let y = imprime_cmds(f.comandos) + seq!['r', 'e', 't', 'u', 'r', 'n'];
    let z = (seq!['('] + imprime_expr(f.retorno) + seq![')']) + seq![';', '}'];
    lemma_em_concat(s, q5, pd + y, z);
    lemma_em_concat(s, q5, pd, y);
    let q6 = q5 + pd.len();
    let q7 = q6 + y.len();
    lemma_em_indice(s, q7, z, 0);
    lemma_sem_var(s, q6, f.comandos);
    lemma_resto_vars(s, q5, f.variaveis, Seq::empty());
    lemma_corpo(s, q6, f.comandos, Seq::empty());
    lemma_fecho(s, q7, f.retorno);
    assert(Seq::<(Seq<char>, ExprS)>::empty() + f.variaveis =~= f.variaveis);
    assert(Seq::<CmdS>::empty() + f.comandos =~= f.comandos);
}

/// A function is read after its keyword `fun`.
#[verifier::spinoff_prover]
#[verifier::rlimit(60)]
proof fn lemma_fundecl(s: Seq<char>, p: int, f: FunDeclS)
    requires
        fundecl_imprimivel(f),
        em(s, p, imprime_fundecl(f)),
    ensures
        palavra(s, p, "fun"@) == (true, p + 3),
        fundecl(s, p + 3) == Saida::Lido(f, p + imprime_fundecl(f).len()),
{
    let a = seq!['f', 'u', 'n', ' '];
    let n = f.nome;
    let pp = imprime_params(f.parametros);
    let pd = imprime_defs(f.variaveis);
    let pc = imprime_cmds(f.comandos);
    let r = seq!['r', 'e', 't', 'u', 'r', 'n'];
    let x = seq!['('] + imprime_expr(f.retorno) + seq![')'];
    let y = seq![';', '}'];
    let cabeca = a + n + seq!['('] + (pp + seq![')']) + seq!['{'];
    let corpo_ = pd + (pc + r) + (x + y);
    assert(imprime_fundecl(f) =~= cabeca + corpo_);
    lemma_em_concat(s, p, cabeca, corpo_);
    lemma_fundecl_cabeca(s, p, f);
    lemma_fundecl_corpo(s, p + cabeca.len(), f);
}

/// Functions, then `main{`, are read whole by the top level of a program.
#[verifier::spinoff_prover]
#[verifier::rlimit(60)]
proof fn lemma_topo_funcoes(
    s: Seq<char>,
    q: int,
    fs: Seq<FunDeclS>,
    g: Seq<(Seq<char>, ExprS)>,
    f: Seq<FunDeclS>,
)
    requires
        forall|i: int| 0 <= i < fs.len() ==> fundecl_imprimivel(#[trigger] fs[i]),
        em(s, q, imprime_funcoes(fs) + seq!['m', 'a', 'i', 'n', '{']),
    ensures
        topo(s, q, g, f) == Saida::Lido((g, f + fs), q + imprime_funcoes(fs).len() + 4),
    decreases fs.len(),
{
    lemma_palavras();
    let m = seq!['m', 'a', 'i', 'n', '{'];
    let pf = imprime_funcoes(fs);
    lemma_em_concat(s, q, pf, m);
    if fs.len() == 0 {
        assert(seq!['m', 'a', 'i', 'n'] =~= m.subrange(0, 4));
        lemma_em_sub(s, q, m, 0, 4);
        lemma_em_indice(s, q, m, 4);
        lemma_palavra_sim(s, q, "main"@);
        assert(f + fs =~= f);
    } else {
        let d = imprime_fundecl(fs[0]);
        let rest = imprime_funcoes(fs.drop_first());
        assert(pf + m =~= d + (rest + m));
        lemma_em_concat(s, q, d, rest + m);
        assert(fundecl_imprimivel(fs[0]));
        lemma_em_indice(s, q, d, 0);
        lemma_palavra_outra(s, q, "main"@);
        lemma_palavra_outra(s, q, "var"@);
        lemma_fundecl(s, q, fs[0]);
        assert forall|i: int| 0 <= i < fs.drop_first().len() implies fundecl_imprimivel(
            #[trigger] fs.drop_first()[i],
        ) by {
            assert(fs.drop_first()[i] == fs[i + 1]);
        }
        lemma_topo_funcoes(s, q + d.len(), fs.drop_first(), g, f.push(fs[0]));
        assert(f.push(fs[0]) + fs.drop_first() =~= f + fs);
    }
}

/// Global declarations are read by the top level of a program, which then
/// goes on after them.
proof fn lemma_topo_globais(
    s: Seq<char>,
    q: int,
    gs: Seq<(Seq<char>, ExprS)>,
    g: Seq<(Seq<char>, ExprS)>,
    f: Seq<FunDeclS>,
)
    requires
        forall|i: int| 0 <= i < gs.len() ==> def_imprimivel(#[trigger] gs[i]),
        em(s, q, imprime_defs(gs)),
        q + imprime_defs(gs).len() <= s.len(),
    ensures
        topo(s, q, g, f) == topo(s, q + imprime_defs(gs).len(), g + gs, f),
    decreases gs.len(),
{
    lemma_palavras();
    if gs.len() == 0 {
        assert(g + gs =~= g);
    } else {
        let d = imprime_def(gs[0]);
        let rest = imprime_defs(gs.drop_first());
        lemma_em_concat(s, q, d, rest);
        assert(def_imprimivel(gs[0]));
        lemma_em_indice(s, q, d, 0);
        lemma_palavra_outra(s, q, "main"@);
        lemma_definicao(s, q, gs[0]);
        assert forall|i: int| 0 <= i < gs.drop_first().len() implies def_imprimivel(
            #[trigger] gs.drop_first()[i],
        ) by {
            assert(gs.drop_first()[i] == gs[i + 1]);
        }
        lemma_topo_globais(s, q + d.len(), gs.drop_first(), g.push(gs[0]), f);
        assert(g.push(gs[0]) + gs.drop_first() =~= g + gs);
    }
}

/// Where the parts of the text of a program stand.
proof fn lemma_partes_programa(p: ProgramaS)
    ensures
        ({
            let s = imprime_programa(p);
            let pg = imprime_defs(p.globais);
            let pf = imprime_funcoes(p.funcoes);
            let pc = imprime_cmds(p.principal);
            &&& em(s, 0, pg)
            &&& em(s, pg.len() as int, pf + seq!['m', 'a', 'i', 'n', '{'])
            &&& em(
                s,
                (pg.len() + pf.len() + 5) as int,
                pc + seq!['r', 'e', 't', 'u', 'r', 'n'],
            )
            &&& em(
                s,
                (pg.len() + pf.len() + 5 + pc.len() + 6) as int,
                (seq!['('] + imprime_expr(p.retorno) + seq![')']) + seq![';', '}'],
            )
            &&& s.len() == pg.len() + pf.len() + 5 + pc.len() + 6 + imprime_expr(p.retorno).len()
                + 4
        }),
{
    let s = imprime_programa(p);
    let pg = imprime_defs(p.globais);
    let pf = imprime_funcoes(p.funcoes);
    let m = seq!['m', 'a', 'i', 'n', '{'];
    let pc = imprime_cmds(p.principal);
    let r = seq!['r', 'e', 't', 'u', 'r', 'n'];
    let x = seq!['('] + imprime_expr(p.retorno) + seq![')'];
    let y = seq![';', '}'];
    assert(s =~= pg + (pf + m) + (pc + r) + (x + y));
    assert(s.subrange(0, s.len() as int) =~= s);
    lemma_em_concat(s, 0, pg + (pf + m) + (pc + r), x + y);
    lemma_em_concat(s, 0, pg + (pf + m), pc + r);
    lemma_em_concat(s, 0, pg, pf + m);
}

/// The parser reads back the text that `imprime_programa` writes of a
/// program: the program, and the position at the end of the text.
#[verifier::spinoff_prover]
#[verifier::rlimit(60)]
pub proof fn lei_programa_impresso(p: ProgramaS)
    requires
        programa_imprimivel(p),
    ensures
        programa(imprime_programa(p), 0) == Saida::Lido(p, imprime_programa(p).len() as int),
{
    let s = imprime_programa(p);
    let pg = imprime_defs(p.globais);
    let pf = imprime_funcoes(p.funcoes);
    let m = seq!['m', 'a', 'i', 'n', '{'];
    let pc = imprime_cmds(p.principal);
    lemma_partes_programa(p);
    lemma_topo_globais(s, 0, p.globais, Seq::empty(), Seq::empty());
    lemma_topo_funcoes(s, pg.len() as int, p.funcoes, p.globais, Seq::empty());
    assert(Seq::<(Seq<char>, ExprS)>::empty() + p.globais =~= p.globais);
    assert(Seq::<FunDeclS>::empty() + p.funcoes =~= p.funcoes);
    let q1: int = (pg.len() + pf.len() + 4) as int;
    lemma_em_concat(s, pg.len() as int, pf, m);
    lemma_em_indice(s, (pg.len() + pf.len()) as int, m, 4);
    lemma_olha(s, q1);
    let q2: int = q1 + 1;
    lemma_corpo(s, q2, p.principal, Seq::empty());
    assert(Seq::<CmdS>::empty() + p.principal =~= p.principal);
    lemma_fecho(s, q2 + pc.len() + 6, p.retorno);
}

} // verus!
