//! Laws on the shape of the generated code: the stack frame of a function,
//! and where the code of the branches and bodies of commands lies.
use vstd::prelude::*;
use crate::ast::{CmdS, FunDeclS};
use crate::codegen::{
    ajuste_pilha,
    codigo_cmds,
    codigo_funcao,
    codigo_inits,
    codigo_expr,
    consulta,
    entradas_funcao,
    lemma_mapa_ultimo,
    lemma_mapa_valores,
    mapa,
    mapa_funcao,
};
use crate::texto::decimal;

verus! {

proof fn lemma_mapa_concat(p: Seq<(Seq<char>, isize)>, q: Seq<(Seq<char>, isize)>)
    ensures
        mapa(p + q) == mapa(p).union_prefer_right(mapa(q)),
    decreases q.len(),
{
    if q.len() == 0 {
        assert(p + q =~= p);
        assert(mapa(p).union_prefer_right(mapa(q)) =~= mapa(p));
    } else {
        assert((p + q).drop_last() =~= p + q.drop_last());
        assert((p + q).last() == q.last());
        lemma_mapa_concat(p, q.drop_last());
        assert(mapa(p + q) =~= mapa(p).union_prefer_right(mapa(q)));
    }
}

proof fn lemma_mapa_chaves(q: Seq<(Seq<char>, isize)>, j: int)
    requires
        0 <= j < q.len(),
    ensures
        mapa(q).contains_key(q[j].0),
    decreases q.len(),
{
    if j < q.len() - 1 {
        assert(q.drop_last()[j] == q[j]);
        lemma_mapa_chaves(q.drop_last(), j);
    }
}

/// The text of a function named `nome` whose prologue reserves `bytes` bytes
/// of stack (`sub rsp`) and whose epilogue releases them (`add rsp`), around
/// `corpo`.
pub open spec fn moldura(nome: Seq<char>, bytes: nat, corpo: Seq<char>) -> Seq<char> {
    "\n"@ + nome + ":\n"@ + "push rbp\n"@ + "mov rbp, rsp\n"@ + (if bytes > 0 {
        "sub rsp, "@ + decimal(bytes) + "\n"@
    } else {
        Seq::empty()
    }) + corpo + (if bytes > 0 {
        "add rsp, "@ + decimal(bytes) + "\n"@
    } else {
        Seq::empty()
    }) + "pop rbp\n"@ + "ret\n"@
}

/// The stack frame of a function: its prologue reserves 8 bytes for each
/// local variable (`sub rsp`), its epilogue releases as many (`add rsp`),
/// and every local variable lives in a slot inside the reserved space,
/// between `rbp-8` and `rbp` minus the reserved bytes.
pub proof fn lei_quadro_funcao(f: FunDeclS, l: int)
    requires
        8 + 8 * f.variaveis.len() <= isize::MAX + 1,
    ensures
        ({
            let reservado = 8 * f.variaveis.len();
            let c = codigo_funcao(f, l).0;
            &&& exists|corpo: Seq<char>| c == #[trigger] moldura(f.nome, reservado, corpo)
            &&& forall|j: int|
                0 <= j < f.variaveis.len() ==> (consulta(
                    mapa_funcao(f),
                    #[trigger] f.variaveis[j].0,
                ) matches Some(o) && -reservado <= o <= -8)
        }),
{
    let reservado = 8 * f.variaveis.len();
    let m = mapa_funcao(f);
    let (cs, l1) = codigo_cmds(f.comandos, l, m);
    let corpo = codigo_inits(f.variaveis, m) + cs + codigo_expr(f.retorno, m);
    let c = codigo_funcao(f, l).0;
    assert(c =~= moldura(f.nome, reservado, corpo));
    let cab = "\n"@ + f.nome + ":\n"@ + "push rbp\n"@ + "mov rbp, rsp\n"@;
    assert(c =~= cab + ajuste_pilha("sub rsp, "@, reservado) + corpo + ajuste_pilha(
        "add rsp, "@,
        reservado,
    ) + "pop rbp\n"@ + "ret\n"@);
    let e = entradas_funcao(f);
    let np = f.parametros.len();
    let p = Seq::new(np, |i: int| (f.parametros[i], (16 + 8 * i) as isize));
    let q = Seq::new(f.variaveis.len(), |j: int| (f.variaveis[j].0, (-8 - 8 * j) as isize));
    assert(e == p + q);
    lemma_mapa_concat(p, q);
    lemma_mapa_valores(q, -reservado, -8);
    assert forall|j: int| 0 <= j < f.variaveis.len() implies (consulta(
        m,
        #[trigger] f.variaveis[j].0,
    ) matches Some(o) && -reservado <= o <= -8) by {
        assert(q[j].0 == f.variaveis[j].0);
        lemma_mapa_chaves(q, j);
    }
}

proof fn lemma_mapa_sem_chave(q: Seq<(Seq<char>, isize)>, k: Seq<char>)
    requires
        forall|i: int| 0 <= i < q.len() ==> (#[trigger] q[i]).0 != k,
    ensures
        !mapa(q).contains_key(k),
    decreases q.len(),
{
    if q.len() > 0 {
        assert forall|i: int| 0 <= i < q.drop_last().len() implies (#[trigger] q.drop_last()[i]).0
            != k by {
            assert(q.drop_last()[i] == q[i]);
        }
        lemma_mapa_sem_chave(q.drop_last(), k);
        assert(q.last() == q[q.len() - 1]);
    }
}

/// The parameter `j` of a function is read from `rbp+16+8j`, unless a later
/// parameter or a local variable has its name. That is where a call leaves
/// its argument `j`: the caller pushes the arguments from the last to the
/// first, so the argument `j` is `8j` bytes above the top of the stack; the
/// call pushes the return address and the prologue pushes `rbp`, 16 bytes
/// more.
pub proof fn lei_parametros(f: FunDeclS, j: int)
    requires
        0 <= j < f.parametros.len(),
        16 + 8 * f.parametros.len() <= isize::MAX,
        forall|i: int| j < i < f.parametros.len() ==> #[trigger] f.parametros[i] != f.parametros[j],
        forall|i: int| 0 <= i < f.variaveis.len() ==> (#[trigger] f.variaveis[i]).0 != f.parametros[j],
    ensures
        consulta(mapa_funcao(f), f.parametros[j]) == Some((16 + 8 * j) as isize),
{
    let np = f.parametros.len();
    let x = f.parametros[j];
    let p = Seq::new(np, |i: int| (f.parametros[i], (16 + 8 * i) as isize));
    let q = Seq::new(f.variaveis.len(), |i: int| (f.variaveis[i].0, (-8 - 8 * i) as isize));
    assert(entradas_funcao(f) == p + q);
    lemma_mapa_concat(p, q);
    assert forall|i: int| 0 <= i < q.len() implies (#[trigger] q[i]).0 != x by {
        assert(q[i].0 == f.variaveis[i].0);
    }
    lemma_mapa_sem_chave(q, x);
    assert forall|i: int| j + 1 <= i < p.len() implies (#[trigger] p[i]).0 != x by {
        assert(p[i].0 == f.parametros[i]);
    }
    lemma_mapa_ultimo(p, x, j + 1);
    assert(p.take(j + 1).drop_last() =~= p.take(j));
    assert(p.take(j + 1).last() == p[j]);
}

} // verus!
