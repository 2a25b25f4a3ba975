//! What the generated code does, on the model of the machine in
//! [`crate::maquina`]: the code of an operation combines the left operand
//! (in `rax`) with the right one (in `rbx`) as the operator says.
use vstd::prelude::*;
use crate::ast::{CmdS, ExprS};
use crate::codegen::{codigo_args, codigo_inits, codigo_cmd, codigo_cmds, codigo_expr, codigo_guarda, codigo_op, consulta, endereco_local};
use crate::maquina::linhas;
use crate::texto::{decimal, decimal_com_sinal, lemma_decimal_digitos};
use crate::gramatica::operador_valido;
use crate::maquina::{
    Maquina,
    com_cl,
    lemma_literais,
    lemma_passo_chamada,
    lemma_passo_constante,
    lemma_passo_desempilha,
    lemma_passo_guarda,
    lemma_passo_memoria,
    lemma_passos,
    lemma_literais_simples,
    lemma_roda_concat,
    lemma_texto_simples_concat,
    lemma_texto_simples_linha,
    sem_quebra,
    simples,
    termina_linha,
    texto_simples,
    lemma_roda_linha,
    lemma_roda_mais_linha,
    quociente,
    roda,
};

verus! {

/// The value of `a op b` in Fun: arithmetic, and comparisons that give 1 for
/// true and 0 for false; division rounds towards zero.
pub open spec fn aplica_op(op: Seq<char>, a: int, b: int) -> int {
    if op == seq!['+'] {
        a + b
    } else if op == seq!['-'] {
        a - b
    } else if op == seq!['*'] {
        a * b
    } else if op == seq!['/'] {
        quociente(a, b)
    } else if op == seq!['=', '='] {
        if a == b { 1 } else { 0 }
    } else if op == seq!['<'] {
        if a < b { 1 } else { 0 }
    } else {
        if a > b { 1 } else { 0 }
    }
}

/// The code of an operation leaves in `rax` the left operand `a` (from
/// `rax`) combined with the right operand `b` (from `rbx`) by the operator,
/// and keeps `rbx`, the stack and memory; a division needs `b != 0`.
pub proof fn lei_codigo_operacao(op: Seq<char>, a: int, b: int, m: Maquina)
    requires
        operador_valido(op),
        op == seq!['/'] ==> b != 0,
    ensures
        roda(codigo_op(op), Maquina { rax: a, rbx: b, ..m }) matches Some(f) && f.rax == aplica_op(
            op,
            a,
            b,
        ) && f.rbx == b && f.pilha == m.pilha && f.memoria == m.memoria && f.funcoes == m.funcoes,
{
    let m0 = Maquina { rax: a, rbx: b, ..m };
    lemma_literais();
    lemma_passos(m0);
    if op == seq!['+'] || op == seq!['-'] || op == seq!['*'] {
        let l = if op == seq!['+'] {
            "add rax, rbx"@
        } else if op == seq!['-'] {
            "sub rax, rbx"@
        } else {
            "imul rax, rbx"@
        };
        lemma_roda_linha(l, m0);
    } else if op == seq!['/'] {
        lemma_roda_linha("cqo"@, m0);
        let m1 = passo_de("cqo"@, m0);
        lemma_passos(m1);
        lemma_roda_mais_linha("cqo\n"@, "idiv rbx"@, m0);
    } else {
        let s = if op == seq!['=', '='] {
            "setz cl"@
        } else if op == seq!['<'] {
            "setl cl"@
        } else {
            "setg cl"@
        };
        let a1 = "xor rcx, rcx\n"@;
        let a2 = a1 + "cmp rax, rbx\n"@;
        let a3 = a2 + (s + seq!['\n']);
        lemma_roda_linha("xor rcx, rcx"@, m0);
        let m1 = passo_de("xor rcx, rcx"@, m0);
        lemma_passos(m1);
        lemma_roda_mais_linha(a1, "cmp rax, rbx"@, m0);
        let m2 = passo_de("cmp rax, rbx"@, m1);
        lemma_passos(m2);
        lemma_roda_mais_linha(a2, s, m0);
        let m3 = passo_de(s, m2);
        lemma_passos(m3);
        lemma_roda_mais_linha(a3, "mov rax, "@ + "rcx"@, m0);
        assert("mov rax, "@ + "rcx"@ + seq!['\n'] =~= ("mov rax, "@ + "rcx"@) + seq!['\n']);
        assert(com_cl(0, true) == 1 && com_cl(0, false) == 0);
    }
}

/// The memory cell of the variable `n`, where `m` gives the offsets of the
/// names on the stack: `rbp-8`, `rbp+16`, or the name of a global.
pub open spec fn celula(n: Seq<char>, m: Map<Seq<char>, isize>) -> Seq<char> {
    match consulta(m, n) {
        Some(o) => "rbp"@ + if o < 0 {
            seq!['-'] + decimal((-o) as nat)
        } else {
            seq!['+'] + decimal(o as nat)
        },
        None => n,
    }
}

/// The value of an expression without calls, where each variable holds
/// what its cell in `mem` holds.
pub open spec fn valor(e: ExprS, mem: Map<Seq<char>, int>, m: Map<Seq<char>, isize>) -> int
    decreases e,
{
    match e {
        ExprS::Const(v) => v as int,
        ExprS::Var(n) => mem[celula(n, m)],
        ExprS::OpBin { operador, esq, dir } => aplica_op(
            operador,
            valor(*esq, mem, m),
            valor(*dir, mem, m),
        ),
        ExprS::Call { .. } => 0,
    }
}

/// The expression has no calls, its operators are those of Fun, its
/// variables have cells in `mem` and names without line breaks, and it
/// never divides by zero.
pub open spec fn calculavel(e: ExprS, mem: Map<Seq<char>, int>, m: Map<Seq<char>, isize>) -> bool
    decreases e,
{
    match e {
        ExprS::Const(_) => true,
        ExprS::Var(n) => sem_quebra(n) && mem.contains_key(celula(n, m)),
        ExprS::OpBin { operador, esq, dir } => {
            &&& operador_valido(operador)
            &&& calculavel(*esq, mem, m)
            &&& calculavel(*dir, mem, m)
            &&& operador == seq!['/'] ==> valor(*dir, mem, m) != 0
        },
        ExprS::Call { .. } => false,
    }
}

proof fn lemma_codigo_op_termina(op: Seq<char>)
    ensures
        termina_linha(codigo_op(op)),
{
    lemma_literais();
    reveal_strlit("\n");
    reveal_strlit("cqo\n");
    reveal_strlit("idiv rbx\n");
    reveal_strlit("xor rcx, rcx\n");
    reveal_strlit("cmp rax, rbx\n");
    reveal_strlit("setz cl\n");
    reveal_strlit("setl cl\n");
    reveal_strlit("setg cl\n");
    reveal_strlit("mov rax, rcx\n");
}

proof fn lemma_linha_variavel(n: Seq<char>, m: Map<Seq<char>, isize>)
    requires
        sem_quebra(n),
    ensures
        codigo_expr(ExprS::Var(n), m) == ("mov rax, "@ + (seq!['['] + celula(n, m) + seq![']']))
            + seq!['\n'],
        sem_quebra(celula(n, m)),
        consulta(m, n) matches Some(o) ==> endereco_local(o) == seq!['['] + celula(n, m) + seq![
            ']',
        ],
{
    reveal_strlit("\n");
    reveal_strlit("]\n");
    reveal_strlit("mov rax, [");
    reveal_strlit("mov rax, ");
    reveal_strlit("[rbp");
    reveal_strlit("rbp");
    reveal_strlit("]");
    let c = celula(n, m);
    match consulta(m, n) {
        Some(o) => {
            let x = if o < 0 {
                seq!['-'] + decimal((-o) as nat)
            } else {
                seq!['+'] + decimal(o as nat)
            };
            if o < 0 {
                lemma_decimal_digitos((-o) as nat);
            } else {
                lemma_decimal_digitos(o as nat);
            }
            assert(endereco_local(o) =~= seq!['['] + c + seq![']']);
            assert forall|k: int| 0 <= k < c.len() implies c[k] != '\n' by {
                if k >= 4 {
                    assert(c[k] == x[k - 3]);
                    assert(x[k - 3] == if o < 0 {
                        decimal((-o) as nat)[k - 4]
                    } else {
                        decimal(o as nat)[k - 4]
                    });
                } else if k == 3 {
                    assert(c[k] == x[0]);
                } else {
                    assert(c[k] == "rbp"@[k]);
                }
            }
        },
        None => {},
    }
    assert(codigo_expr(ExprS::Var(n), m) =~= ("mov rax, "@ + (seq!['['] + c + seq![']'])) + seq![
        '\n',
    ]);
}

/// The code of an expression without calls leaves its value in `rax`, with
/// the stack and memory as they were: each binary operation combines the
/// value of its left operand with that of its right one.
#[verifier::spinoff_prover]
#[verifier::rlimit(40)]
pub proof fn lei_codigo_expressao(e: ExprS, m: Map<Seq<char>, isize>, maq: Maquina)
    requires
        calculavel(e, maq.memoria, m),
    ensures
        roda(codigo_expr(e, m), maq) matches Some(f) && f.rax == valor(e, maq.memoria, m)
            && f.pilha == maq.pilha && f.memoria == maq.memoria && f.funcoes == maq.funcoes,
        termina_linha(codigo_expr(e, m)),
    decreases e,
{
    reveal_strlit("\n");
    match e {
        ExprS::Const(v) => {
            lemma_passo_constante(v as int, maq);
            assert(codigo_expr(e, m) =~= ("mov rax, "@ + decimal_com_sinal(v as int)) + seq!['\n']);
            lemma_roda_linha("mov rax, "@ + decimal_com_sinal(v as int), maq);
        },
        ExprS::Var(n) => {
            lemma_linha_variavel(n, m);
            let c = celula(n, m);
            lemma_passo_memoria(c, maq);
            lemma_roda_linha("mov rax, "@ + (seq!['['] + c + seq![']']), maq);
        },
        ExprS::OpBin { operador, esq, dir } => {
            let d = codigo_expr(*dir, m);
            let t = codigo_expr(*esq, m);
            lei_codigo_expressao(*dir, m, maq);
            let f1 = roda(d, maq).unwrap();
            lemma_literais();
            lemma_passos(f1);
            let a1 = d + "push rax\n"@;
            lemma_roda_mais_linha(d, "push rax"@, maq);
            let f2 = f1.pilha.push(f1.rax);
            let m2 = Maquina { pilha: f2, ..f1 };
            lei_codigo_expressao(*esq, m, m2);
            lemma_roda_concat(a1, t, maq);
            let a2 = a1 + t;
            let f3 = roda(t, m2).unwrap();
            lemma_passos(f3);
            assert(f3.pilha.drop_last() =~= maq.pilha);
            lemma_roda_mais_linha(a2, "pop rbx"@, maq);
            let a3 = a2 + "pop rbx\n"@;
            let f4 = Maquina { rbx: f3.pilha.last(), pilha: f3.pilha.drop_last(), ..f3 };
            lei_codigo_operacao(operador, f3.rax, f3.pilha.last(), f4);
            assert(f4 == Maquina { rax: f3.rax, rbx: f3.pilha.last(), ..f4 });
            lemma_roda_concat(a3, codigo_op(operador), maq);
            lemma_codigo_op_termina(operador);
            assert(codigo_expr(e, m) == a3 + codigo_op(operador));
            let u = a3 + codigo_op(operador);
            assert(u[u.len() - 1] == codigo_op(operador)[codigo_op(operador).len() - 1]);
        },
        ExprS::Call { .. } => {},
    }
}

/// The code of an operation is made of whole lines, none of them a label
/// or a jump.
pub proof fn lemma_codigo_op_simples(op: Seq<char>)
    ensures
        texto_simples(codigo_op(op)),
{
    lemma_literais();
    lemma_literais_simples();
    lemma_texto_simples_linha("add rax, rbx"@);
    lemma_texto_simples_linha("sub rax, rbx"@);
    lemma_texto_simples_linha("imul rax, rbx"@);
    lemma_texto_simples_linha("cqo"@);
    lemma_texto_simples_linha("idiv rbx"@);
    lemma_texto_simples_linha("xor rcx, rcx"@);
    lemma_texto_simples_linha("cmp rax, rbx"@);
    lemma_texto_simples_linha("setz cl"@);
    lemma_texto_simples_linha("setl cl"@);
    lemma_texto_simples_linha("setg cl"@);
    lemma_texto_simples_linha("mov rax, "@ + "rcx"@);
    assert("mov rax, rcx\n"@ == ("mov rax, "@ + "rcx"@) + seq!['\n']);
    lemma_texto_simples_concat("cqo\n"@, "idiv rbx\n"@);
    let s = if op == seq!['=', '='] {
        "setz cl\n"@
    } else if op == seq!['<'] {
        "setl cl\n"@
    } else {
        "setg cl\n"@
    };
    lemma_texto_simples_concat("xor rcx, rcx\n"@, "cmp rax, rbx\n"@);
    lemma_texto_simples_concat("xor rcx, rcx\n"@ + "cmp rax, rbx\n"@, s);
    lemma_texto_simples_concat("xor rcx, rcx\n"@ + "cmp rax, rbx\n"@ + s, "mov rax, rcx\n"@);
}

/// The code of an expression without calls is made of whole lines, none of
/// them a label or a jump.
pub proof fn lemma_codigo_expr_simples(e: ExprS, mem: Map<Seq<char>, int>, m: Map<Seq<char>, isize>)
    requires
        calculavel(e, mem, m),
    ensures
        texto_simples(codigo_expr(e, m)),
    decreases e,
{
    reveal_strlit("\n");
    match e {
        ExprS::Const(v) => {
            lemma_passo_constante(v as int, mem_maquina(mem));
            crate::texto::lemma_decimal_com_sinal(v as int);
            lemma_literais();
            let d = decimal_com_sinal(v as int);
            let x = "mov rax, "@ + d;
            assert(x[0] == 'm');
            assert(x[x.len() - 1] == d[d.len() - 1]);
            if v < 0 {
                lemma_decimal_digitos((-v) as nat);
                assert(d[d.len() - 1] == decimal((-v) as nat)[d.len() - 2]);
            } else {
                lemma_decimal_digitos(v as nat);
            }
            lemma_texto_simples_linha(x);
            assert(codigo_expr(e, m) =~= x + seq!['\n']);
        },
        ExprS::Var(n) => {
            lemma_linha_variavel(n, m);
            let c = celula(n, m);
            lemma_passo_memoria(c, mem_maquina(mem));
            lemma_literais();
            let x = "mov rax, "@ + (seq!['['] + c + seq![']']);
            assert(x[0] == 'm');
            assert(x[x.len() - 1] == ']');
            lemma_texto_simples_linha(x);
        },
        ExprS::OpBin { operador, esq, dir } => {
            lemma_codigo_expr_simples(*dir, mem, m);
            lemma_codigo_expr_simples(*esq, mem, m);
            lemma_literais();
            lemma_literais_simples();
            lemma_texto_simples_linha("push rax"@);
            lemma_texto_simples_linha("pop rbx"@);
            lemma_codigo_op_simples(operador);
            let d = codigo_expr(*dir, m);
            let t = codigo_expr(*esq, m);
            lemma_texto_simples_concat(d, "push rax\n"@);
            lemma_texto_simples_concat(d + "push rax\n"@, t);
            lemma_texto_simples_concat(d + "push rax\n"@ + t, "pop rbx\n"@);
            lemma_texto_simples_concat(d + "push rax\n"@ + t + "pop rbx\n"@, codigo_op(operador));
        },
        ExprS::Call { .. } => {},
    }
}

spec fn mem_maquina(mem: Map<Seq<char>, int>) -> Maquina {
    Maquina {
        rax: 0,
        rbx: 0,
        rcx: 0,
        rdx: 0,
        comparados: (0, 0),
        pilha: Seq::empty(),
        memoria: mem,
        funcoes: |n: Seq<char>, p: Seq<int>| 0int,
    }
}

/// The memory after the assignments `s`, one after the other: each stores
/// the value of its expression in the cell of its variable.
pub open spec fn efeito_atribuicoes(s: Seq<CmdS>, mem: Map<Seq<char>, int>, m: Map<Seq<char>, isize>) -> Map<
    Seq<char>,
    int,
>
    decreases s.len(),
{
    if s.len() == 0 {
        mem
    } else {
        let antes = efeito_atribuicoes(s.drop_last(), mem, m);
        match s.last() {
            CmdS::Atrib { nome, expr } => antes.insert(celula(nome, m), valor(expr, antes, m)),
            _ => antes,
        }
    }
}

/// The commands are assignments, to variables whose names have no line
/// break, of expressions that can be computed where they run.
pub open spec fn atribuicoes_calculaveis(
    s: Seq<CmdS>,
    mem: Map<Seq<char>, int>,
    m: Map<Seq<char>, isize>,
) -> bool
    decreases s.len(),
{
    if s.len() == 0 {
        true
    } else {
        &&& atribuicoes_calculaveis(s.drop_last(), mem, m)
        &&& match s.last() {
            CmdS::Atrib { nome, expr } => sem_quebra(nome) && calculavel(
                expr,
                efeito_atribuicoes(s.drop_last(), mem, m),
                m,
            ),
            _ => false,
        }
    }
}

proof fn lemma_guarda(nome: Seq<char>, m: Map<Seq<char>, isize>)
    requires
        sem_quebra(nome),
    ensures
        codigo_guarda(nome, m) == ("mov ["@ + celula(nome, m) + "], rax"@) + seq!['\n'],
        sem_quebra(celula(nome, m)),
{
    lemma_linha_variavel(nome, m);
    reveal_strlit("mov ");
    reveal_strlit("mov [");
    reveal_strlit(", rax\n");
    reveal_strlit("], rax\n");
    reveal_strlit("], rax");
    reveal_strlit("\n");
    assert(codigo_guarda(nome, m) =~= ("mov ["@ + celula(nome, m) + "], rax"@) + seq!['\n']);
}

/// The code of assignments runs them: memory ends as they leave it, and the
/// stack as it was; they take no label numbers.
#[verifier::spinoff_prover]
pub proof fn lei_codigo_atribuicoes(s: Seq<CmdS>, l: int, m: Map<Seq<char>, isize>, maq: Maquina)
    requires
        atribuicoes_calculaveis(s, maq.memoria, m),
    ensures
        roda(codigo_cmds(s, l, m).0, maq) matches Some(f) && f.memoria == efeito_atribuicoes(
            s,
            maq.memoria,
            m,
        ) && f.pilha == maq.pilha,
        texto_simples(codigo_cmds(s, l, m).0),
        codigo_cmds(s, l, m).1 == l,
    decreases s.len(),
{
    if s.len() == 0 {
        assert(linhas(Seq::<char>::empty()) =~= Seq::<Seq<char>>::empty());
        assert(crate::maquina::executa(Seq::<Seq<char>>::empty(), maq) == Some(maq));
    } else {
        let r = s.drop_last();
        lei_codigo_atribuicoes(r, l, m, maq);
        let (a, l1) = codigo_cmds(r, l, m);
        let f1 = roda(a, maq).unwrap();
        let antes = efeito_atribuicoes(r, maq.memoria, m);
        match s.last() {
            CmdS::Atrib { nome, expr } => {
                let ce = codigo_expr(expr, m);
                lei_codigo_expressao(expr, m, f1);
                lemma_codigo_expr_simples(expr, antes, m);
                let f2 = roda(ce, f1).unwrap();
                lemma_guarda(nome, m);
                let c = celula(nome, m);
                let g = "mov ["@ + c + "], rax"@;
                lemma_passo_guarda(c, f2);
                lemma_texto_simples_linha(g);
                lemma_roda_linha(g, f2);
                lemma_roda_concat(ce, codigo_guarda(nome, m), f1);
                lemma_texto_simples_concat(ce, codigo_guarda(nome, m));
                let b = ce + codigo_guarda(nome, m);
                assert(codigo_cmd(s.last(), l1, m) == (b, l1));
                lemma_roda_concat(a, b, maq);
                lemma_texto_simples_concat(a, b);
            },
            _ => {},
        }
    }
}

/// Each of the expressions can be computed, as [`calculavel`] says.
pub open spec fn calculaveis(s: Seq<ExprS>, mem: Map<Seq<char>, int>, m: Map<Seq<char>, isize>) -> bool
    decreases s.len(),
{
    if s.len() == 0 {
        true
    } else {
        calculaveis(s.drop_last(), mem, m) && calculavel(s.last(), mem, m)
    }
}

/// The code of the arguments of a call pushes their values on the stack,
/// from the last to the first: the first argument ends on top, and the
/// argument `j` is `j` places below it; memory and what was on the stack
/// stay as they were.
pub proof fn lei_codigo_argumentos(args: Seq<ExprS>, m: Map<Seq<char>, isize>, maq: Maquina)
    requires
        calculaveis(args, maq.memoria, m),
    ensures
        roda(codigo_args(args, m), maq) matches Some(f) && f.memoria == maq.memoria && f.funcoes
            == maq.funcoes && f.pilha.len()
            == maq.pilha.len() + args.len() && f.pilha.subrange(0, maq.pilha.len() as int)
            == maq.pilha && forall|j: int|
            0 <= j < args.len() ==> f.pilha[f.pilha.len() - 1 - j] == valor(
                #[trigger] args[j],
                maq.memoria,
                m,
            ),
        termina_linha(codigo_args(args, m)),
    decreases args.len(),
{
    if args.len() == 0 {
        assert(linhas(Seq::<char>::empty()) =~= Seq::<Seq<char>>::empty());
        assert(crate::maquina::executa(Seq::<Seq<char>>::empty(), maq) == Some(maq));
        assert(maq.pilha.subrange(0, maq.pilha.len() as int) =~= maq.pilha);
    } else {
        let r = args.drop_last();
        let e = args.last();
        let ce = codigo_expr(e, m);
        lei_codigo_expressao(e, m, maq);
        let f1 = roda(ce, maq).unwrap();
        lemma_literais();
        lemma_passos(f1);
        lemma_roda_mais_linha(ce, "push rax"@, maq);
        let m2 = Maquina { pilha: f1.pilha.push(f1.rax), ..f1 };
        lei_codigo_argumentos(r, m, m2);
        let a = ce + "push rax\n"@;
        lemma_roda_concat(a, codigo_args(r, m), maq);
        let f = roda(codigo_args(r, m), m2).unwrap();
        let n0 = maq.pilha.len();
        assert forall|j: int| 0 <= j < args.len() implies f.pilha[f.pilha.len() - 1 - j] == valor(
            #[trigger] args[j],
            maq.memoria,
            m,
        ) by {
            if j < r.len() {
                assert(r[j] == args[j]);
            } else {
                assert(f.pilha[f.pilha.len() - 1 - j] == f.pilha.subrange(0, m2.pilha.len() as int)[n0 as int]);
            }
        }
        assert(f.pilha.subrange(0, n0 as int) =~= f.pilha.subrange(0, m2.pilha.len() as int).subrange(0, n0 as int));
        if codigo_args(r, m).len() > 0 {
            assert((a + codigo_args(r, m))[(a + codigo_args(r, m)).len() - 1] == codigo_args(r, m)[codigo_args(r, m).len() - 1]);
        } else {
            assert(a + codigo_args(r, m) =~= a);
        }
    }
}

/// The values of the expressions, in their order.
pub open spec fn valores(s: Seq<ExprS>, mem: Map<Seq<char>, int>, m: Map<Seq<char>, isize>) -> Seq<int> {
    Seq::new(s.len(), |j: int| valor(s[j], mem, m))
}

/// The stack `p` with the values `vs` pushed from the last to the first, so
/// that `vs[0]` is on top.
pub open spec fn com_argumentos(p: Seq<int>, vs: Seq<int>) -> Seq<int> {
    p + vs.reverse()
}

/// The code of a call `nome(args)` calls `nome` with the values of the
/// arguments pushed, the first on top, and leaves in `rax` what it returns;
/// afterwards the stack is as it was before the call's code, and memory too.
#[verifier::spinoff_prover]
pub proof fn lei_codigo_chamada(nome: Seq<char>, args: Seq<ExprS>, m: Map<Seq<char>, isize>, maq: Maquina)
    requires
        calculaveis(args, maq.memoria, m),
        sem_quebra(nome),
    ensures
        roda(codigo_expr(ExprS::Call { nome, args }, m), maq) matches Some(f) && f.rax == (
        maq.funcoes)(nome, com_argumentos(maq.pilha, valores(args, maq.memoria, m))) && f.pilha
            == maq.pilha && f.memoria == maq.memoria,
{
    reveal_strlit("call ");
    reveal_strlit("\n");
    let n = args.len();
    let ca = codigo_args(args, m);
    lei_codigo_argumentos(args, m, maq);
    let f1 = roda(ca, maq).unwrap();
    let p = maq.pilha;
    let vs = valores(args, maq.memoria, m);
    assert(f1.pilha =~= com_argumentos(p, vs)) by {
        assert forall|i: int| 0 <= i < f1.pilha.len() implies f1.pilha[i] == com_argumentos(p, vs)[i] by {
            if i < p.len() {
                assert(f1.pilha[i] == f1.pilha.subrange(0, p.len() as int)[i]);
            } else {
                let j = n - 1 - (i - p.len());
                assert(f1.pilha[f1.pilha.len() - 1 - j] == valor(args[j], maq.memoria, m));
            }
        }
    }
    let x = "call "@ + nome;
    assert(sem_quebra(x)) by {
        assert forall|i: int| 0 <= i < x.len() implies x[i] != '\n' by {
            if i >= 5 {
                assert(x[i] == nome[i - 5]);
            }
        }
    }
    lemma_passo_chamada(nome, f1);
    lemma_roda_mais_linha(ca, x, maq);
    let f2 = Maquina { rax: (f1.funcoes)(nome, f1.pilha), ..f1 };
    let b = ca + (x + seq!['\n']);
    assert(ca + "call "@ + nome + "\n"@ =~= b);
    if n > 0 {
        lemma_passo_desempilha(n, f2);
        let y = "add rsp, "@ + decimal(8 * n);
        lemma_roda_mais_linha(b, y, maq);
        reveal_strlit("add rsp, ");
        assert(n * 8 == 8 * n);
        assert(codigo_expr(ExprS::Call { nome, args }, m) =~= b + (y + seq!['\n']));
        assert(f1.pilha.subrange(0, f1.pilha.len() - n) =~= p);
    } else {
        assert(codigo_expr(ExprS::Call { nome, args }, m) =~= b);
        assert(f1.pilha =~= p);
    }
}

/// The memory after initialising the local variables `vs`, one after the
/// other: each stores the value of its expression in the cell of its
/// variable, where the variable has an offset in `m`.
pub open spec fn efeito_inits(vs: Seq<(Seq<char>, ExprS)>, mem: Map<Seq<char>, int>, m: Map<Seq<char>, isize>) -> Map<
    Seq<char>,
    int,
>
    decreases vs.len(),
{
    if vs.len() == 0 {
        mem
    } else {
        let antes = efeito_inits(vs.drop_last(), mem, m);
        let (nome, expr) = vs.last();
        if consulta(m, nome) is Some {
            antes.insert(celula(nome, m), valor(expr, antes, m))
        } else {
            antes
        }
    }
}

/// The initial values of the local variables can be computed where they
/// run, and the names have no line break.
pub open spec fn inits_calculaveis(vs: Seq<(Seq<char>, ExprS)>, mem: Map<Seq<char>, int>, m: Map<Seq<char>, isize>) -> bool
    decreases vs.len(),
{
    if vs.len() == 0 {
        true
    } else {
        &&& inits_calculaveis(vs.drop_last(), mem, m)
        &&& sem_quebra(vs.last().0)
        &&& calculavel(vs.last().1, efeito_inits(vs.drop_last(), mem, m), m)
    }
}

/// The code that initialises the local variables of a function computes
/// each initial value in turn and stores it in the variable's slot; the
/// stack stays as it was.
#[verifier::spinoff_prover]
pub proof fn lei_codigo_inits(vs: Seq<(Seq<char>, ExprS)>, m: Map<Seq<char>, isize>, maq: Maquina)
    requires
        inits_calculaveis(vs, maq.memoria, m),
    ensures
        roda(codigo_inits(vs, m), maq) matches Some(f) && f.memoria == efeito_inits(
            vs,
            maq.memoria,
            m,
        ) && f.pilha == maq.pilha && f.funcoes == maq.funcoes,
        termina_linha(codigo_inits(vs, m)),
    decreases vs.len(),
{
    if vs.len() == 0 {
        assert(linhas(Seq::<char>::empty()) =~= Seq::<Seq<char>>::empty());
        assert(crate::maquina::executa(Seq::<Seq<char>>::empty(), maq) == Some(maq));
    } else {
        let r = vs.drop_last();
        lei_codigo_inits(r, m, maq);
        let a = codigo_inits(r, m);
        let f1 = roda(a, maq).unwrap();
        let (nome, expr) = vs.last();
        let ce = codigo_expr(expr, m);
        lei_codigo_expressao(expr, m, f1);
        lemma_roda_concat(a, ce, maq);
        let b = a + ce;
        let f2 = roda(ce, f1).unwrap();
        lemma_nao_vazio(expr, m);
        assert(b[b.len() - 1] == ce[ce.len() - 1]);
        match consulta(m, nome) {
            Some(o) => {
                lemma_guarda(nome, m);
                let c = celula(nome, m);
                let g = "mov ["@ + c + "], rax"@;
                lemma_passo_guarda(c, f2);
                lemma_roda_mais_linha(b, g, maq);
                assert(codigo_guarda(nome, m) == "mov "@ + endereco_local(o) + ", rax\n"@);
                assert(codigo_inits(vs, m) == b + (g + seq!['\n']));
            },
            None => {
                assert(codigo_inits(vs, m) =~= b);
            },
        }
    }
}

proof fn lemma_nao_vazio(e: ExprS, m: Map<Seq<char>, isize>)
    ensures
        codigo_expr(e, m).len() > 0,
{
    reveal_strlit("\n");
    reveal_strlit("]\n");
    reveal_strlit("call ");
    match e {
        ExprS::OpBin { .. } => {
            lemma_literais();
        },
        _ => {},
    }
}

spec fn passo_de(x: Seq<char>, m: Maquina) -> Maquina {
    crate::maquina::passo(x, m).unwrap()
}

} // verus!
