//! What the code of `if` and `while` does, on the model of the machine in
//! [`crate::maquina`], for branches and bodies made of assignments: `if`
//! runs exactly one of its branches, chosen by its condition, and `while`
//! either ends, where its condition is zero, or runs its body once and comes
//! back to its test.
use vstd::prelude::*;
use crate::ast::{CmdS, ExprS};
use crate::codegen::{codigo_cmd, codigo_cmds, codigo_expr};
use crate::leis_semantica::{
    atribuicoes_calculaveis,
    calculavel,
    efeito_atribuicoes,
    lei_codigo_atribuicoes,
    lei_codigo_expressao,
    lemma_codigo_expr_simples,
    valor,
};
use crate::maquina::{
    Maquina,
    comeca,
    configuracao,
    eh_rotulo,
    executa,
    lemma_bloco,
    lemma_linhas_concat,
    lemma_literais,
    lemma_literais_simples,
    lemma_passo_teste,
    lemma_roda_mais_linha,
    lemma_uma_linha,
    linhas,
    posicao_rotulo,
    roda,
    sem_quebra,
    simples,
    termina_linha,
    texto_simples,
};
use crate::texto::{decimal, lemma_decimal_digitos};

verus! {

pub(crate) proof fn lemma_linhas_mais(t: Seq<char>, u: Seq<char>)
    requires
        termina_linha(t),
        termina_linha(u),
    ensures
        linhas(t + u) == linhas(t) + linhas(u),
        termina_linha(t + u),
{
    lemma_linhas_concat(t, u);
    if u.len() > 0 {
        assert((t + u)[(t + u).len() - 1] == u[u.len() - 1]);
    } else {
        assert(t + u =~= t);
    }
}

pub(crate) proof fn lemma_linha(x: Seq<char>)
    requires
        sem_quebra(x),
    ensures
        linhas(x + seq!['\n']) == seq![x],
        termina_linha(x + seq!['\n']),
{
    lemma_uma_linha(x);
}

/// A label name: a word that begins with `L`, then a number.
pub(crate) proof fn lemma_nome_rotulo(p: Seq<char>, n: nat)
    requires
        p.len() > 0,
        p[0] == 'L',
        sem_quebra(p),
    ensures
        sem_quebra(p + decimal(n)),
        sem_quebra(p + decimal(n) + seq![':']),
        (p + decimal(n)).len() > 0,
        '0' <= (p + decimal(n))[(p + decimal(n)).len() - 1] <= '9',
        (p + decimal(n))[0] == 'L',
        eh_rotulo(p + decimal(n) + seq![':']),
        !comeca(p + decimal(n) + seq![':'], "jmp "@),
        !comeca(p + decimal(n) + seq![':'], "je "@),
{
    lemma_decimal_digitos(n);
    let a = p + decimal(n);
    let x = a + seq![':'];
    assert forall|k: int| 0 <= k < a.len() implies a[k] != '\n' by {
        if k >= p.len() {
            assert(a[k] == decimal(n)[k - p.len()]);
        }
    }
    assert(x[x.len() - 1] == ':');
    assert forall|k: int| 0 <= k < x.len() implies x[k] != '\n' by {
        if k < a.len() {
            assert(x[k] == a[k]);
        }
    }
    reveal_strlit("jmp ");
    reveal_strlit("je ");
    if x.len() >= 4 {
        assert(x.subrange(0, 4)[0] == x[0]);
    }
    if x.len() >= 3 {
        assert(x.subrange(0, 3)[0] == x[0]);
    }
    assert(a[a.len() - 1] == decimal(n)[decimal(n).len() - 1]);
}

/// A jump `j` (`jmp ` or `je `) to the label `a`.
pub(crate) proof fn lemma_salto(j: Seq<char>, a: Seq<char>)
    requires
        j == "jmp "@ || j == "je "@,
        a.len() > 0,
        sem_quebra(a),
        '0' <= a[a.len() - 1] <= '9',
    ensures
        sem_quebra(j + a),
        !eh_rotulo(j + a),
        comeca(j + a, j),
        (j + a).subrange(j.len() as int, (j + a).len() as int) == a,
        j == "je "@ ==> !comeca(j + a, "jmp "@),
        (j + a)[0] == 'j',
{
    reveal_strlit("jmp ");
    reveal_strlit("je ");
    let x = j + a;
    assert(x.subrange(0, j.len() as int) =~= j);
    assert(x.subrange(j.len() as int, x.len() as int) =~= a);
    assert(x[x.len() - 1] == a[a.len() - 1]);
    assert forall|k: int| 0 <= k < x.len() implies x[k] != '\n' by {
        if k >= j.len() {
            assert(x[k] == a[k - j.len()]);
        }
    }
    if j == "je "@ && x.len() >= 4 {
        assert(x.subrange(0, 4)[1] == x[1]);
    }
}

/// The first line at or after `i` that defines `a` is line `j`, where no line
/// before it does.
proof fn lemma_posicao(ls: Seq<Seq<char>>, a: Seq<char>, i: int, j: int)
    requires
        0 <= i <= j < ls.len(),
        ls[j] == a + seq![':'],
        forall|k: int| i <= k < j ==> #[trigger] ls[k] != a + seq![':'],
    ensures
        posicao_rotulo(ls, a, i) == j,
    decreases j - i,
{
    if i < j {
        lemma_posicao(ls, a, i + 1, j);
    }
}

/// Lines that are not labels differ from every label line.
proof fn lemma_nao_rotulo(x: Seq<char>, a: Seq<char>)
    requires
        x.len() > 0,
        x[x.len() - 1] != ':',
    ensures
        x != a + seq![':'],
{
    if x == a + seq![':'] {
        assert((a + seq![':'])[(a + seq![':']).len() - 1] == ':');
    }
}

/// The code of a condition, then `cmp rax, 0`: it leaves the condition's
/// value compared with zero, and memory and the stack as they were.
proof fn lemma_teste(c: ExprS, m: Map<Seq<char>, isize>, maq: Maquina)
    requires
        calculavel(c, maq.memoria, m),
    ensures
        ({
            let t = codigo_expr(c, m) + "cmp rax, 0\n"@;
            &&& roda(t, maq) matches Some(f) && f.comparados == (valor(c, maq.memoria, m), 0int)
                && f.memoria == maq.memoria && f.pilha == maq.pilha
            &&& texto_simples(t)
            &&& linhas(t) == linhas(codigo_expr(c, m)) + seq!["cmp rax, 0"@]
        }),
{
    let ce = codigo_expr(c, m);
    lei_codigo_expressao(c, m, maq);
    lemma_codigo_expr_simples(c, maq.memoria, m);
    lemma_literais();
    lemma_literais_simples();
    let f1 = roda(ce, maq).unwrap();
    lemma_passo_teste(f1);
    lemma_roda_mais_linha(ce, "cmp rax, 0"@, maq);
    lemma_linha("cmp rax, 0"@);
    lemma_linhas_mais(ce, "cmp rax, 0\n"@);
    crate::maquina::lemma_texto_simples_linha("cmp rax, 0"@);
    crate::maquina::lemma_texto_simples_concat(ce, "cmp rax, 0\n"@);
}

/// The lines of the text of an `if`, made of the code of the test `tc`, of
/// the branches `tt` and `te`, and of the jumps and labels around them; and
/// where its labels are.
proof fn lemma_estrutura_se(tc: Seq<char>, tt: Seq<char>, te: Seq<char>, l: nat)
    requires
        texto_simples(tc),
        texto_simples(tt),
        texto_simples(te),
    ensures
        ({
            let a_f = "Lfalso"@ + decimal(l);
            let a_e = "Lfim"@ + decimal(l + 1);
            let ls = linhas(tc + (("je "@ + a_f) + seq!['\n']) + tt + (("jmp "@ + a_e) + seq!['\n'])
                + ((a_f + seq![':']) + seq!['\n']) + te + ((a_e + seq![':']) + seq!['\n']));
            let i_je = linhas(tc).len() as int;
            let i_jmp = i_je + 1 + linhas(tt).len();
            let i_fim = i_jmp + 2 + linhas(te).len();
            &&& ls == linhas(tc) + seq!["je "@ + a_f] + linhas(tt) + seq!["jmp "@ + a_e] + seq![a_f
                + seq![':']] + linhas(te) + seq![a_e + seq![':']]
            &&& posicao_rotulo(ls, a_e, 0) == i_fim
            &&& posicao_rotulo(ls, a_f, 0) == i_jmp + 1
        }),
{
    reveal_strlit("Lfalso");
    reveal_strlit("Lfim");
    let a_f = "Lfalso"@ + decimal(l);
    let a_e = "Lfim"@ + decimal(l + 1);
    lemma_nome_rotulo("Lfalso"@, l);
    lemma_nome_rotulo("Lfim"@, l + 1);
    let x_je = "je "@ + a_f;
    let x_jmp = "jmp "@ + a_e;
    let x_f = a_f + seq![':'];
    let x_e = a_e + seq![':'];
    lemma_salto("je "@, a_f);
    lemma_salto("jmp "@, a_e);
    lemma_linha(x_je);
    lemma_linha(x_jmp);
    lemma_linha(x_f);
    lemma_linha(x_e);
    let p1 = tc + (x_je + seq!['\n']);
    lemma_linhas_mais(tc, x_je + seq!['\n']);
    let p2 = p1 + tt;
    lemma_linhas_mais(p1, tt);
    let p3 = p2 + (x_jmp + seq!['\n']);
    lemma_linhas_mais(p2, x_jmp + seq!['\n']);
    let p4 = p3 + (x_f + seq!['\n']);
    lemma_linhas_mais(p3, x_f + seq!['\n']);
    let p5 = p4 + te;
    lemma_linhas_mais(p4, te);
    lemma_linhas_mais(p5, x_e + seq!['\n']);
    let lc = linhas(tc);
    let lt = linhas(tt);
    let le = linhas(te);
    let ls = linhas(p5 + (x_e + seq!['\n']));
    assert(ls =~= lc + seq![x_je] + lt + seq![x_jmp] + seq![x_f] + le + seq![x_e]);
    let i_je = lc.len() as int;
    let i_t = i_je + 1;
    let i_jmp = i_t + lt.len();
    let i_f = i_jmp + 1;
    let i_e = i_f + 1;
    let i_fim = i_e + le.len();
    assert(ls[i_f] == x_f);
    assert(ls[i_fim] == x_e);
    assert(x_f[2] == a_f[2] && a_f[2] == "Lfalso"@[2]);
    assert(x_e[2] == a_e[2] && a_e[2] == "Lfim"@[2]);
    assert forall|k: int| 0 <= k < i_fim implies #[trigger] ls[k] != x_e by {
        if k < i_je {
            assert(ls[k] == lc[k]);
            assert(simples(lc[k]));
            lemma_nao_rotulo(lc[k], a_e);
        } else if k == i_je {
            assert(ls[k] == x_je);
            lemma_nao_rotulo(x_je, a_e);
        } else if k < i_jmp {
            assert(ls[k] == lt[k - i_t]);
            assert(simples(lt[k - i_t]));
            lemma_nao_rotulo(lt[k - i_t], a_e);
        } else if k == i_jmp {
            assert(ls[k] == x_jmp);
            lemma_nao_rotulo(x_jmp, a_e);
        } else if k == i_f {
            assert(ls[k][2] != x_e[2]);
        } else {
            assert(ls[k] == le[k - i_e]);
            assert(simples(le[k - i_e]));
            lemma_nao_rotulo(le[k - i_e], a_e);
        }
    }
    assert forall|k: int| 0 <= k < i_f implies #[trigger] ls[k] != x_f by {
        if k < i_je {
            assert(ls[k] == lc[k]);
            assert(simples(lc[k]));
            lemma_nao_rotulo(lc[k], a_f);
        } else if k == i_je {
            assert(ls[k] == x_je);
            lemma_nao_rotulo(x_je, a_f);
        } else if k < i_jmp {
            assert(ls[k] == lt[k - i_t]);
            assert(simples(lt[k - i_t]));
            lemma_nao_rotulo(lt[k - i_t], a_f);
        } else {
            assert(ls[k] == x_jmp);
            lemma_nao_rotulo(x_jmp, a_f);
        }
    }
    lemma_posicao(ls, a_e, 0, i_fim);
    lemma_posicao(ls, a_f, 0, i_f);
}

/// The text of an `if` whose branches take no labels, in whole lines.
proof fn lemma_texto_se(c: ExprS, t: Seq<CmdS>, e: Seq<CmdS>, l: int, m: Map<Seq<char>, isize>)
    requires
        l >= 0,
        codigo_cmds(t, l + 2, m).1 == l + 2,
    ensures
        ({
            let a_f = "Lfalso"@ + decimal(l as nat);
            let a_e = "Lfim"@ + decimal((l + 1) as nat);
            codigo_cmd(CmdS::If { cond: c, then_cmds: t, else_cmds: e }, l, m).0 == (codigo_expr(c, m)
                + "cmp rax, 0\n"@) + (("je "@ + a_f) + seq!['\n']) + codigo_cmds(t, l + 2, m).0 + ((
            "jmp "@ + a_e) + seq!['\n']) + ((a_f + seq![':']) + seq!['\n']) + codigo_cmds(
                e,
                l + 2,
                m,
            ).0 + ((a_e + seq![':']) + seq!['\n'])
        }),
{
    reveal_strlit("je Lfalso");
    reveal_strlit("jmp Lfim");
    reveal_strlit("Lfalso");
    reveal_strlit("Lfim");
    reveal_strlit("je ");
    reveal_strlit("jmp ");
    reveal_strlit("\n");
    reveal_strlit(":\n");
    let a_f = "Lfalso"@ + decimal(l as nat);
    let a_e = "Lfim"@ + decimal((l + 1) as nat);
    assert(codigo_cmd(CmdS::If { cond: c, then_cmds: t, else_cmds: e }, l, m).0 =~= (codigo_expr(c, m)
        + "cmp rax, 0\n"@) + (("je "@ + a_f) + seq!['\n']) + codigo_cmds(t, l + 2, m).0 + ((
    "jmp "@ + a_e) + seq!['\n']) + ((a_f + seq![':']) + seq!['\n']) + codigo_cmds(e, l + 2, m).0
        + ((a_e + seq![':']) + seq!['\n']));
}

/// The code of `if c { t } else { e }` runs exactly one branch: the code of
/// `t` where `c` is not zero, that of `e` where it is, and then reaches its
/// end, within as many steps as it has lines; memory ends as that branch
/// leaves it.
#[verifier::spinoff_prover]
#[verifier::rlimit(30)]
pub proof fn lei_codigo_se(
    c: ExprS,
    t: Seq<CmdS>,
    e: Seq<CmdS>,
    l: int,
    m: Map<Seq<char>, isize>,
    maq: Maquina,
    passos: nat,
)
    requires
        l >= 0,
        calculavel(c, maq.memoria, m),
        atribuicoes_calculaveis(t, maq.memoria, m),
        atribuicoes_calculaveis(e, maq.memoria, m),
    ensures
        ({
            let ls = linhas(codigo_cmd(CmdS::If { cond: c, then_cmds: t, else_cmds: e }, l, m).0);
            configuracao(ls, 0, maq, passos + ls.len()) matches Some((pc, f)) && pc == ls.len()
                && f.pilha == maq.pilha && f.memoria == if valor(c, maq.memoria, m) != 0 {
                efeito_atribuicoes(t, maq.memoria, m)
            } else {
                efeito_atribuicoes(e, maq.memoria, m)
            }
        }),
{
    let v = valor(c, maq.memoria, m);
    reveal_strlit("je Lfalso");
    reveal_strlit("jmp Lfim");
    reveal_strlit("Lfalso");
    reveal_strlit("Lfim");
    reveal_strlit("je ");
    reveal_strlit("jmp ");
    reveal_strlit("\n");
    reveal_strlit(":\n");
    let a_f = "Lfalso"@ + decimal(l as nat);
    let a_e = "Lfim"@ + decimal((l + 1) as nat);
    lemma_nome_rotulo("Lfalso"@, l as nat);
    lemma_nome_rotulo("Lfim"@, (l + 1) as nat);
    lemma_salto("je "@, a_f);
    lemma_salto("jmp "@, a_e);
    let tc = codigo_expr(c, m) + "cmp rax, 0\n"@;
    lemma_teste(c, m, maq);
    let f1 = roda(tc, maq).unwrap();
    lei_codigo_atribuicoes(t, l + 2, m, f1);
    let tt = codigo_cmds(t, l + 2, m).0;
    lei_codigo_atribuicoes(e, l + 2, m, f1);
    let te = codigo_cmds(e, l + 2, m).0;
    let texto = codigo_cmd(CmdS::If { cond: c, then_cmds: t, else_cmds: e }, l, m).0;
    lemma_texto_se(c, t, e, l, m);
    lemma_estrutura_se(tc, tt, te, l as nat);
    let lc = linhas(tc);
    let lt = linhas(tt);
    let le = linhas(te);
    let ls = linhas(texto);
    let i_je = lc.len() as int;
    let i_t = i_je + 1;
    let i_jmp = i_t + lt.len();
    let i_f = i_jmp + 1;
    let i_e = i_f + 1;
    let i_fim = i_e + le.len();
    assert(ls.len() == i_fim + 1);
    assert(ls[i_je] == "je "@ + a_f);
    assert(ls[i_jmp] == "jmp "@ + a_e);
    assert(ls[i_f] == a_f + seq![':']);
    assert(ls[i_fim] == a_e + seq![':']);
    assert(ls.subrange(0, i_je) =~= lc);
    assert(ls.subrange(i_t, i_jmp) =~= lt);
    assert(ls.subrange(i_e, i_fim) =~= le);
    let total = passos + ls.len();
    let r1 = (total - lc.len()) as nat;
    lemma_bloco(ls, 0, lc, maq, r1);
    assert(configuracao(ls, 0, maq, total) == configuracao(ls, i_je, f1, r1));
    if v != 0 {
        let r2 = (r1 - 1) as nat;
        assert(configuracao(ls, i_je, f1, r1) == configuracao(ls, i_t, f1, r2));
        let r3 = (r2 - lt.len()) as nat;
        lemma_bloco(ls, i_t, lt, f1, r3);
        let f2 = roda(tt, f1).unwrap();
        assert(configuracao(ls, i_t, f1, r2) == configuracao(ls, i_jmp, f2, r3));
        assert(configuracao(ls, i_jmp, f2, r3) == configuracao(ls, i_fim, f2, (r3 - 1) as nat));
        assert(configuracao(ls, i_fim, f2, (r3 - 1) as nat) == configuracao(
            ls,
            i_fim + 1,
            f2,
            (r3 - 2) as nat,
        ));
    } else {
        let r2 = (r1 - 1) as nat;
        assert(configuracao(ls, i_je, f1, r1) == configuracao(ls, i_f, f1, r2));
        let r3 = (r2 - 1) as nat;
        assert(configuracao(ls, i_f, f1, r2) == configuracao(ls, i_e, f1, r3));
        let r4 = (r3 - le.len()) as nat;
        lemma_bloco(ls, i_e, le, f1, r4);
        let f2 = roda(te, f1).unwrap();
        assert(configuracao(ls, i_e, f1, r3) == configuracao(ls, i_fim, f2, r4));
        assert(configuracao(ls, i_fim, f2, r4) == configuracao(ls, i_fim + 1, f2, (r4 - 1) as nat));
    }
}

/// The lines of the text of a `while`, made of the code of the test `tc` and
/// of the body `tb`, with the labels and jumps around them; and where its
/// labels are.
proof fn lemma_estrutura_enquanto(tc: Seq<char>, tb: Seq<char>, l: nat)
    requires
        texto_simples(tc),
        texto_simples(tb),
    ensures
        ({
            let a_i = "Linicio"@ + decimal(l);
            let a_e = "Lfim"@ + decimal(l + 1);
            let ls = linhas(((a_i + seq![':']) + seq!['\n']) + tc + (("je "@ + a_e) + seq!['\n']) + tb
                + (("jmp "@ + a_i) + seq!['\n']) + ((a_e + seq![':']) + seq!['\n']));
            let i_fim = linhas(tc).len() + linhas(tb).len() + 3;
            &&& ls == seq![a_i + seq![':']] + linhas(tc) + seq!["je "@ + a_e] + linhas(tb) + seq![
                "jmp "@ + a_i] + seq![a_e + seq![':']]
            &&& posicao_rotulo(ls, a_e, 0) == i_fim
            &&& posicao_rotulo(ls, a_i, 0) == 0
        }),
{
    reveal_strlit("Linicio");
    reveal_strlit("Lfim");
    let a_i = "Linicio"@ + decimal(l);
    let a_e = "Lfim"@ + decimal(l + 1);
    lemma_nome_rotulo("Linicio"@, l);
    lemma_nome_rotulo("Lfim"@, l + 1);
    let x_i = a_i + seq![':'];
    let x_je = "je "@ + a_e;
    let x_jmp = "jmp "@ + a_i;
    let x_e = a_e + seq![':'];
    lemma_salto("je "@, a_e);
    lemma_salto("jmp "@, a_i);
    lemma_linha(x_i);
    lemma_linha(x_je);
    lemma_linha(x_jmp);
    lemma_linha(x_e);
    let p0 = x_i + seq!['\n'];
    let p1 = p0 + tc;
    lemma_linhas_mais(p0, tc);
    let p2 = p1 + (x_je + seq!['\n']);
    lemma_linhas_mais(p1, x_je + seq!['\n']);
    let p3 = p2 + tb;
    lemma_linhas_mais(p2, tb);
    let p4 = p3 + (x_jmp + seq!['\n']);
    lemma_linhas_mais(p3, x_jmp + seq!['\n']);
    lemma_linhas_mais(p4, x_e + seq!['\n']);
    let lc = linhas(tc);
    let lb = linhas(tb);
    let ls = linhas(p4 + (x_e + seq!['\n']));
    assert(ls =~= seq![x_i] + lc + seq![x_je] + lb + seq![x_jmp] + seq![x_e]);
    let i_je = 1 + lc.len() as int;
    let i_b = i_je + 1;
    let i_jmp = i_b + lb.len();
    let i_fim = i_jmp + 1;
    assert(ls[0] == x_i);
    assert(ls[i_fim] == x_e);
    assert(x_i[1] == a_i[1] && a_i[1] == "Linicio"@[1]);
    assert(x_e[1] == a_e[1] && a_e[1] == "Lfim"@[1]);
    assert forall|k: int| 0 <= k < i_fim implies #[trigger] ls[k] != x_e by {
        if k == 0 {
            assert(ls[k][1] != x_e[1]);
        } else if k < i_je {
            assert(ls[k] == lc[k - 1]);
            assert(simples(lc[k - 1]));
            lemma_nao_rotulo(lc[k - 1], a_e);
        } else if k == i_je {
            assert(ls[k] == x_je);
            lemma_nao_rotulo(x_je, a_e);
        } else if k < i_jmp {
            assert(ls[k] == lb[k - i_b]);
            assert(simples(lb[k - i_b]));
            lemma_nao_rotulo(lb[k - i_b], a_e);
        } else {
            assert(ls[k] == x_jmp);
            lemma_nao_rotulo(x_jmp, a_e);
        }
    }
    lemma_posicao(ls, a_e, 0, i_fim);
    lemma_posicao(ls, a_i, 0, 0);
}

/// The text of a `while` whose body takes no labels, in whole lines.
proof fn lemma_texto_enquanto(c: ExprS, b: Seq<CmdS>, l: int, m: Map<Seq<char>, isize>)
    requires
        l >= 0,
    ensures
        ({
            let a_i = "Linicio"@ + decimal(l as nat);
            let a_e = "Lfim"@ + decimal((l + 1) as nat);
            codigo_cmd(CmdS::While { cond: c, body: b }, l, m).0 == ((a_i + seq![':']) + seq!['\n'])
                + (codigo_expr(c, m) + "cmp rax, 0\n"@) + (("je "@ + a_e) + seq!['\n'])
                + codigo_cmds(b, l + 2, m).0 + (("jmp "@ + a_i) + seq!['\n']) + ((a_e + seq![':'])
                + seq!['\n'])
        }),
{
    reveal_strlit("je Lfim");
    reveal_strlit("jmp Linicio");
    reveal_strlit("Linicio");
    reveal_strlit("Lfim");
    reveal_strlit("je ");
    reveal_strlit("jmp ");
    reveal_strlit("\n");
    reveal_strlit(":\n");
    let a_i = "Linicio"@ + decimal(l as nat);
    let a_e = "Lfim"@ + decimal((l + 1) as nat);
    assert(codigo_cmd(CmdS::While { cond: c, body: b }, l, m).0 =~= ((a_i + seq![':']) + seq![
        '\n',
    ]) + (codigo_expr(c, m) + "cmp rax, 0\n"@) + (("je "@ + a_e) + seq!['\n']) + codigo_cmds(
        b,
        l + 2,
        m,
    ).0 + (("jmp "@ + a_i) + seq!['\n']) + ((a_e + seq![':']) + seq!['\n']));
}

/// The code of `while c { b }`: where `c` is zero it reaches its end, within
/// as many steps as it has lines, with memory as it was; where `c` is not
/// zero, one step short of its number of lines it is back at its first line,
/// the test, after running the body once: memory is as the body leaves it.
#[verifier::spinoff_prover]
#[verifier::rlimit(30)]
pub proof fn lei_codigo_enquanto(
    c: ExprS,
    b: Seq<CmdS>,
    l: int,
    m: Map<Seq<char>, isize>,
    maq: Maquina,
    passos: nat,
)
    requires
        l >= 0,
        calculavel(c, maq.memoria, m),
        atribuicoes_calculaveis(b, maq.memoria, m),
    ensures
        ({
            let ls = linhas(codigo_cmd(CmdS::While { cond: c, body: b }, l, m).0);
            &&& valor(c, maq.memoria, m) == 0 ==> (configuracao(ls, 0, maq, passos + ls.len()) matches Some(
                (pc, f),
            ) && pc == ls.len() && f.memoria == maq.memoria && f.pilha == maq.pilha)
            &&& valor(c, maq.memoria, m) != 0 ==> (configuracao(ls, 0, maq, (ls.len() - 1) as nat) matches Some(
                (pc, f),
            ) && pc == 0 && f.memoria == efeito_atribuicoes(b, maq.memoria, m) && f.pilha == maq.pilha)
        }),
{
    let v = valor(c, maq.memoria, m);
    reveal_strlit("Linicio");
    reveal_strlit("Lfim");
    reveal_strlit("je ");
    reveal_strlit("jmp ");
    let a_i = "Linicio"@ + decimal(l as nat);
    let a_e = "Lfim"@ + decimal((l + 1) as nat);
    lemma_nome_rotulo("Linicio"@, l as nat);
    lemma_nome_rotulo("Lfim"@, (l + 1) as nat);
    lemma_salto("je "@, a_e);
    lemma_salto("jmp "@, a_i);
    let tc = codigo_expr(c, m) + "cmp rax, 0\n"@;
    lemma_teste(c, m, maq);
    let f1 = roda(tc, maq).unwrap();
    lei_codigo_atribuicoes(b, l + 2, m, f1);
    let tb = codigo_cmds(b, l + 2, m).0;
    let texto = codigo_cmd(CmdS::While { cond: c, body: b }, l, m).0;
    lemma_texto_enquanto(c, b, l, m);
    lemma_estrutura_enquanto(tc, tb, l as nat);
    let lc = linhas(tc);
    let lb = linhas(tb);
    let ls = linhas(texto);
    let i_je = 1 + lc.len() as int;
    let i_b = i_je + 1;
    let i_jmp = i_b + lb.len();
    let i_fim = i_jmp + 1;
    assert(ls.len() == i_fim + 1);
    assert(ls[0] == a_i + seq![':']);
    assert(ls[i_je] == "je "@ + a_e);
    assert(ls[i_jmp] == "jmp "@ + a_i);
    assert(ls[i_fim] == a_e + seq![':']);
    assert(ls.subrange(1, i_je) =~= lc);
    assert(ls.subrange(i_b, i_jmp) =~= lb);
    if v == 0 {
        let total = passos + ls.len();
        let r1 = (total - 1) as nat;
        assert(configuracao(ls, 0, maq, total) == configuracao(ls, 1, maq, r1));
        let r2 = (r1 - lc.len()) as nat;
        lemma_bloco(ls, 1, lc, maq, r2);
        assert(configuracao(ls, 1, maq, r1) == configuracao(ls, i_je, f1, r2));
        assert(configuracao(ls, i_je, f1, r2) == configuracao(ls, i_fim, f1, (r2 - 1) as nat));
        assert(configuracao(ls, i_fim, f1, (r2 - 1) as nat) == configuracao(
            ls,
            i_fim + 1,
            f1,
            (r2 - 2) as nat,
        ));
    } else {
        let total = (ls.len() - 1) as nat;
        let r1 = (total - 1) as nat;
        assert(configuracao(ls, 0, maq, total) == configuracao(ls, 1, maq, r1));
        let r2 = (r1 - lc.len()) as nat;
        lemma_bloco(ls, 1, lc, maq, r2);
        assert(configuracao(ls, 1, maq, r1) == configuracao(ls, i_je, f1, r2));
        let r3 = (r2 - 1) as nat;
        assert(configuracao(ls, i_je, f1, r2) == configuracao(ls, i_b, f1, r3));
        let r4 = (r3 - lb.len()) as nat;
        lemma_bloco(ls, i_b, lb, f1, r4);
        let f2 = roda(tb, f1).unwrap();
        assert(configuracao(ls, i_b, f1, r3) == configuracao(ls, i_jmp, f2, r4));
        assert(r4 == 1);
        assert(configuracao(ls, i_jmp, f2, r4) == configuracao(ls, 0, f2, 0));
    }
}

} // verus!
