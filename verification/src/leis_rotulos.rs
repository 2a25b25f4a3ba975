//! The labels of `if` and `while` are defined once each in the code of a
//! program: each command takes its own label numbers, the functions first,
//! then the main block, from one counter that is never reset.
use vstd::prelude::*;
use crate::ast::{CmdS, ExprS, FunDeclS, ProgramaS};
use crate::codegen::{
    ajuste_pilha,
    codigo_bss,
    codigo_funcao,
    codigo_funcoes,
    codigo_globais,
    codigo_inits,
    codigo_programa,
    mapa_funcao,
    codigo_args,
    codigo_cmd,
    codigo_cmds,
    codigo_expr,
    codigo_guarda,
    codigo_op,
    consulta,
    endereco_local,
    lemma_rotulos_cmd,
    lemma_rotulos_cmds,
};
use crate::leis_controle::{lemma_linha, lemma_linhas_mais, lemma_nome_rotulo, lemma_salto};
use crate::maquina::{linhas, fim_linha, lemma_fim_linha, sem_quebra, termina_linha};
use crate::texto::{decimal, decimal_com_sinal, lemma_decimal_com_sinal, lemma_decimal_digitos, lemma_decimal_injetivo};

verus! {

/// How many of the lines `ls` are `x`.
pub open spec fn conta(ls: Seq<Seq<char>>, x: Seq<char>) -> nat
    decreases ls.len(),
{
    if ls.len() == 0 {
        0
    } else {
        conta(ls.drop_last(), x) + if ls.last() == x {
            1nat
        } else {
            0nat
        }
    }
}

pub proof fn lemma_conta_concat(a: Seq<Seq<char>>, b: Seq<Seq<char>>, x: Seq<char>)
    ensures
        conta(a + b, x) == conta(a, x) + conta(b, x),
    decreases b.len(),
{
    if b.len() == 0 {
        assert(a + b =~= a);
    } else {
        assert((a + b).drop_last() =~= a + b.drop_last());
        assert((a + b).last() == b.last());
        lemma_conta_concat(a, b.drop_last(), x);
    }
}

pub proof fn lemma_conta_um(y: Seq<char>, x: Seq<char>)
    ensures
        conta(seq![y], x) == if y == x {
            1nat
        } else {
            0nat
        },
{
    assert(seq![y].drop_last() =~= Seq::<Seq<char>>::empty());
    assert(seq![y].last() == y);
    assert(conta(Seq::<Seq<char>>::empty(), x) == 0);
}

/// The text has no `:`.
pub open spec fn sem_dp(t: Seq<char>) -> bool {
    forall|i: int| 0 <= i < t.len() ==> t[i] != ':'
}

proof fn lemma_sem_dp_linhas(t: Seq<char>)
    requires
        sem_dp(t),
    ensures
        forall|k: int| 0 <= k < linhas(t).len() ==> sem_dp(#[trigger] linhas(t)[k]),
    decreases t.len(),
{
    if t.len() > 0 {
        lemma_fim_linha(t, 0);
        let f = fim_linha(t, 0);
        if f < t.len() {
            let r = t.subrange(f + 1, t.len() as int);
            assert(sem_dp(r)) by {
                assert forall|i: int| 0 <= i < r.len() implies r[i] != ':' by {
                    assert(r[i] == t[i + f + 1]);
                }
            }
            lemma_sem_dp_linhas(r);
            let ls = linhas(t);
            assert forall|k: int| 0 <= k < ls.len() implies sem_dp(#[trigger] ls[k]) by {
                if k == 0 {
                    let y = t.subrange(0, f);
                    assert(ls[0] == y);
                    assert forall|i: int| 0 <= i < y.len() implies y[i] != ':' by {
                        assert(y[i] == t[i]);
                    }
                } else {
                    assert(ls[k] == linhas(r)[k - 1]);
                }
            }
        } else {
            assert(linhas(t)[0] == t);
        }
    }
}

/// A text without `:` has no line that ends with `:`.
pub proof fn lemma_conta_sem_dp(t: Seq<char>, x: Seq<char>)
    requires
        sem_dp(t),
        x.len() > 0,
        x[x.len() - 1] == ':',
    ensures
        conta(linhas(t), x) == 0,
{
    lemma_sem_dp_linhas(t);
    lemma_conta_zero(linhas(t), x);
}

proof fn lemma_conta_zero(ls: Seq<Seq<char>>, x: Seq<char>)
    requires
        forall|k: int| 0 <= k < ls.len() ==> sem_dp(#[trigger] ls[k]),
        x.len() > 0,
        x[x.len() - 1] == ':',
    ensures
        conta(ls, x) == 0,
    decreases ls.len(),
{
    if ls.len() > 0 {
        assert forall|k: int| 0 <= k < ls.drop_last().len() implies sem_dp(
            #[trigger] ls.drop_last()[k],
        ) by {
            assert(ls.drop_last()[k] == ls[k]);
        }
        lemma_conta_zero(ls.drop_last(), x);
        let y = ls[ls.len() - 1];
        if y == x {
            assert(y[x.len() - 1] == ':');
        }
    }
}

pub proof fn lemma_sem_dp_concat(a: Seq<char>, b: Seq<char>)
    requires
        sem_dp(a),
        sem_dp(b),
    ensures
        sem_dp(a + b),
{
    assert forall|i: int| 0 <= i < (a + b).len() implies (a + b)[i] != ':' by {
        if i >= a.len() {
            assert((a + b)[i] == b[i - a.len()]);
        }
    }
}

/// The three kinds of labels of `if` and `while`.
pub open spec fn prefixo_rotulo(k: nat) -> Seq<char> {
    if k == 0 {
        "Lfalso"@
    } else if k == 1 {
        "Lfim"@
    } else {
        "Linicio"@
    }
}

/// The line that defines the label of kind `k` with the number `n`.
pub open spec fn linha_rotulo(k: nat, n: nat) -> Seq<char> {
    prefixo_rotulo(k) + decimal(n) + seq![':']
}

/// Different labels have different lines.
pub proof fn lemma_linha_rotulo_injetiva(k1: nat, n1: nat, k2: nat, n2: nat)
    requires
        k1 < 3,
        k2 < 3,
        linha_rotulo(k1, n1) == linha_rotulo(k2, n2),
    ensures
        k1 == k2,
        n1 == n2,
{
    reveal_strlit("Lfalso");
    reveal_strlit("Lfim");
    reveal_strlit("Linicio");
    let x = linha_rotulo(k1, n1);
    let y = linha_rotulo(k2, n2);
    lemma_decimal_digitos(n1);
    lemma_decimal_digitos(n2);
    assert(x[2] == prefixo_rotulo(k1)[2]);
    assert(y[2] == prefixo_rotulo(k2)[2]);
    let p = prefixo_rotulo(k1);
    assert(k1 == k2);
    assert(x.subrange(p.len() as int, x.len() - 1) =~= decimal(n1));
    assert(y.subrange(p.len() as int, y.len() - 1) =~= decimal(n2));
    lemma_decimal_injetivo(n1, n2);
}

proof fn lemma_linha_rotulo_fim(k: nat, n: nat)
    ensures
        linha_rotulo(k, n).len() > 0,
        linha_rotulo(k, n)[linha_rotulo(k, n).len() - 1] == ':',
{
}

/// The pieces of code that the generator writes hold no `:`.
pub proof fn lemma_literais_sem_dp()
    ensures
        sem_dp("syscall\n"@),
        "syscall\n"@.len() > 0 && "syscall\n"@["syscall\n"@.len() - 1] == '\n',
        sem_dp("mov rax, 60\n"@),
        "mov rax, 60\n"@.len() > 0 && "mov rax, 60\n"@["mov rax, 60\n"@.len() - 1] == '\n',
        sem_dp("mov rdi, rax\n"@),
        "mov rdi, rax\n"@.len() > 0 && "mov rdi, rax\n"@["mov rdi, rax\n"@.len() - 1] == '\n',
        sem_dp("ret\n"@),
        "ret\n"@.len() > 0 && "ret\n"@["ret\n"@.len() - 1] == '\n',
        sem_dp("pop rbp\n"@),
        "pop rbp\n"@.len() > 0 && "pop rbp\n"@["pop rbp\n"@.len() - 1] == '\n',
        sem_dp("sub rsp, "@),
        sem_dp("mov rbp, rsp\n"@),
        "mov rbp, rsp\n"@.len() > 0 && "mov rbp, rsp\n"@["mov rbp, rsp\n"@.len() - 1] == '\n',
        sem_dp("push rbp\n"@),
        "push rbp\n"@.len() > 0 && "push rbp\n"@["push rbp\n"@.len() - 1] == '\n',
        sem_dp("global _start\n"@),
        "global _start\n"@.len() > 0 && "global _start\n"@["global _start\n"@.len() - 1] == '\n',
        sem_dp("section .text\n"@),
        "section .text\n"@.len() > 0 && "section .text\n"@["section .text\n"@.len() - 1] == '\n',
        sem_dp("section .bss\n"@),
        "section .bss\n"@.len() > 0 && "section .bss\n"@["section .bss\n"@.len() - 1] == '\n',
        sem_dp("mov rax, "@),
        sem_dp("\n"@),
        sem_dp("mov rax, ["@),
        sem_dp("]\n"@),
        sem_dp("[rbp"@),
        sem_dp("]"@),
        sem_dp("push rax\n"@),
        sem_dp("pop rbx\n"@),
        sem_dp("call "@),
        sem_dp("add rsp, "@),
        sem_dp("add rax, rbx\n"@),
        sem_dp("sub rax, rbx\n"@),
        sem_dp("imul rax, rbx\n"@),
        sem_dp("cqo\n"@),
        sem_dp("idiv rbx\n"@),
        sem_dp("xor rcx, rcx\n"@),
        sem_dp("cmp rax, rbx\n"@),
        sem_dp("setz cl\n"@),
        sem_dp("setl cl\n"@),
        sem_dp("setg cl\n"@),
        sem_dp("mov rax, rcx\n"@),
        sem_dp("cmp rax, 0\n"@),
        sem_dp("mov "@),
        sem_dp("mov ["@),
        sem_dp(", rax\n"@),
        sem_dp("], rax\n"@),
        sem_dp("je "@),
        sem_dp("jmp "@),
        "\n"@.len() > 0 && "\n"@["\n"@.len() - 1] == '\n',
        "]\n"@.len() > 0 && "]\n"@["]\n"@.len() - 1] == '\n',
        "push rax\n"@.len() > 0 && "push rax\n"@["push rax\n"@.len() - 1] == '\n',
        "pop rbx\n"@.len() > 0 && "pop rbx\n"@["pop rbx\n"@.len() - 1] == '\n',
        "add rax, rbx\n"@.len() > 0 && "add rax, rbx\n"@["add rax, rbx\n"@.len() - 1] == '\n',
        "sub rax, rbx\n"@.len() > 0 && "sub rax, rbx\n"@["sub rax, rbx\n"@.len() - 1] == '\n',
        "imul rax, rbx\n"@.len() > 0 && "imul rax, rbx\n"@["imul rax, rbx\n"@.len() - 1] == '\n',
        "cqo\n"@.len() > 0 && "cqo\n"@["cqo\n"@.len() - 1] == '\n',
        "idiv rbx\n"@.len() > 0 && "idiv rbx\n"@["idiv rbx\n"@.len() - 1] == '\n',
        "xor rcx, rcx\n"@.len() > 0 && "xor rcx, rcx\n"@["xor rcx, rcx\n"@.len() - 1] == '\n',
        "cmp rax, rbx\n"@.len() > 0 && "cmp rax, rbx\n"@["cmp rax, rbx\n"@.len() - 1] == '\n',
        "setz cl\n"@.len() > 0 && "setz cl\n"@["setz cl\n"@.len() - 1] == '\n',
        "setl cl\n"@.len() > 0 && "setl cl\n"@["setl cl\n"@.len() - 1] == '\n',
        "setg cl\n"@.len() > 0 && "setg cl\n"@["setg cl\n"@.len() - 1] == '\n',
        "mov rax, rcx\n"@.len() > 0 && "mov rax, rcx\n"@["mov rax, rcx\n"@.len() - 1] == '\n',
        "cmp rax, 0\n"@.len() > 0 && "cmp rax, 0\n"@["cmp rax, 0\n"@.len() - 1] == '\n',
        ", rax\n"@.len() > 0 && ", rax\n"@[", rax\n"@.len() - 1] == '\n',
        "], rax\n"@.len() > 0 && "], rax\n"@["], rax\n"@.len() - 1] == '\n',
{
    reveal_strlit("section .bss\n");
    reveal_strlit("section .text\n");
    reveal_strlit("global _start\n");
    reveal_strlit("push rbp\n");
    reveal_strlit("mov rbp, rsp\n");
    reveal_strlit("sub rsp, ");
    reveal_strlit("pop rbp\n");
    reveal_strlit("ret\n");
    reveal_strlit("mov rdi, rax\n");
    reveal_strlit("mov rax, 60\n");
    reveal_strlit("syscall\n");
    reveal_strlit("mov rax, ");
    reveal_strlit("\n");
    reveal_strlit("mov rax, [");
    reveal_strlit("]\n");
    reveal_strlit("[rbp");
    reveal_strlit("]");
    reveal_strlit("push rax\n");
    reveal_strlit("pop rbx\n");
    reveal_strlit("call ");
    reveal_strlit("add rsp, ");
    reveal_strlit("add rax, rbx\n");
    reveal_strlit("sub rax, rbx\n");
    reveal_strlit("imul rax, rbx\n");
    reveal_strlit("cqo\n");
    reveal_strlit("idiv rbx\n");
    reveal_strlit("xor rcx, rcx\n");
    reveal_strlit("cmp rax, rbx\n");
    reveal_strlit("setz cl\n");
    reveal_strlit("setl cl\n");
    reveal_strlit("setg cl\n");
    reveal_strlit("mov rax, rcx\n");
    reveal_strlit("cmp rax, 0\n");
    reveal_strlit("mov ");
    reveal_strlit("mov [");
    reveal_strlit(", rax\n");
    reveal_strlit("], rax\n");
    reveal_strlit("je ");
    reveal_strlit("jmp ");
}

/// `a` followed by a text that ends a line, ends a line.
pub proof fn lemma_termina(a: Seq<char>, b: Seq<char>)
    requires
        b.len() > 0,
        termina_linha(b),
    ensures
        termina_linha(a + b),
{
    assert((a + b)[(a + b).len() - 1] == b[b.len() - 1]);
}

proof fn lemma_decimal_sem_dp(n: nat)
    ensures
        sem_dp(decimal(n)),
{
    lemma_decimal_digitos(n);
}

/// The names in an expression hold no `:`.
pub open spec fn nomes_sem_dp(e: ExprS) -> bool
    decreases e,
{
    match e {
        ExprS::Const(_) => true,
        ExprS::Var(n) => sem_dp(n),
        ExprS::OpBin { operador, esq, dir } => nomes_sem_dp(*esq) && nomes_sem_dp(*dir),
        ExprS::Call { nome, args } => sem_dp(nome) && nomes_sem_dp_args(args),
    }
}

pub open spec fn nomes_sem_dp_args(s: Seq<ExprS>) -> bool
    decreases s,
{
    if s.len() == 0 {
        true
    } else {
        nomes_sem_dp(s.last()) && nomes_sem_dp_args(s.drop_last())
    }
}

pub proof fn lemma_codigo_op_sem_dp(op: Seq<char>)
    ensures
        sem_dp(codigo_op(op)),
        codigo_op(op).len() > 0,
        termina_linha(codigo_op(op)),
{
    lemma_literais_sem_dp();
    lemma_sem_dp_concat("cqo\n"@, "idiv rbx\n"@);
    lemma_termina("cqo\n"@, "idiv rbx\n"@);
    let a = "xor rcx, rcx\n"@ + "cmp rax, rbx\n"@;
    lemma_sem_dp_concat("xor rcx, rcx\n"@, "cmp rax, rbx\n"@);
    lemma_sem_dp_concat(a, "setz cl\n"@);
    lemma_sem_dp_concat(a, "setl cl\n"@);
    lemma_sem_dp_concat(a, "setg cl\n"@);
    lemma_sem_dp_concat(a + "setz cl\n"@, "mov rax, rcx\n"@);
    lemma_sem_dp_concat(a + "setl cl\n"@, "mov rax, rcx\n"@);
    lemma_sem_dp_concat(a + "setg cl\n"@, "mov rax, rcx\n"@);
    lemma_termina(a + "setz cl\n"@, "mov rax, rcx\n"@);
    lemma_termina(a + "setl cl\n"@, "mov rax, rcx\n"@);
    lemma_termina(a + "setg cl\n"@, "mov rax, rcx\n"@);
}

proof fn lemma_endereco_sem_dp(o: isize)
    ensures
        sem_dp(endereco_local(o)),
{
    lemma_literais_sem_dp();
    let d = if o < 0 {
        seq!['-'] + decimal((-o) as nat)
    } else {
        seq!['+'] + decimal(o as nat)
    };
    if o < 0 {
        lemma_decimal_sem_dp((-o) as nat);
        lemma_sem_dp_concat(seq!['-'], decimal((-o) as nat));
    } else {
        lemma_decimal_sem_dp(o as nat);
        lemma_sem_dp_concat(seq!['+'], decimal(o as nat));
    }
    lemma_sem_dp_concat("[rbp"@, d);
    lemma_sem_dp_concat("[rbp"@ + d, "]"@);
}

/// The code of an expression whose names hold no `:` holds none either,
/// and it ends a line.
pub proof fn lemma_expr_sem_dp(e: ExprS, m: Map<Seq<char>, isize>)
    requires
        nomes_sem_dp(e),
    ensures
        sem_dp(codigo_expr(e, m)),
        codigo_expr(e, m).len() > 0,
        termina_linha(codigo_expr(e, m)),
    decreases e, 1int,
{
    lemma_literais_sem_dp();
    match e {
        ExprS::Const(v) => {
            lemma_decimal_com_sinal(v as int);
            let d = decimal_com_sinal(v as int);
            assert(sem_dp(d)) by {
                if v < 0 {
                    lemma_decimal_sem_dp((-v) as nat);
                    lemma_sem_dp_concat(seq!['-'], decimal((-v) as nat));
                } else {
                    lemma_decimal_sem_dp(v as nat);
                }
            }
            lemma_sem_dp_concat("mov rax, "@, d);
            lemma_sem_dp_concat("mov rax, "@ + d, "\n"@);
            lemma_termina("mov rax, "@ + d, "\n"@);
        },
        ExprS::Var(n) => {
            match consulta(m, n) {
                Some(o) => {
                    lemma_endereco_sem_dp(o);
                    lemma_sem_dp_concat("mov rax, "@, endereco_local(o));
                    lemma_sem_dp_concat("mov rax, "@ + endereco_local(o), "\n"@);
                    lemma_termina("mov rax, "@ + endereco_local(o), "\n"@);
                },
                None => {
                    lemma_sem_dp_concat("mov rax, ["@, n);
                    lemma_sem_dp_concat("mov rax, ["@ + n, "]\n"@);
                    lemma_termina("mov rax, ["@ + n, "]\n"@);
                },
            }
        },
        ExprS::OpBin { operador, esq, dir } => {
            lemma_expr_sem_dp(*dir, m);
            lemma_expr_sem_dp(*esq, m);
            lemma_codigo_op_sem_dp(operador);
            let d = codigo_expr(*dir, m);
            let t = codigo_expr(*esq, m);
            lemma_sem_dp_concat(d, "push rax\n"@);
            lemma_sem_dp_concat(d + "push rax\n"@, t);
            lemma_sem_dp_concat(d + "push rax\n"@ + t, "pop rbx\n"@);
            lemma_sem_dp_concat(d + "push rax\n"@ + t + "pop rbx\n"@, codigo_op(operador));
            lemma_termina(d + "push rax\n"@ + t + "pop rbx\n"@, codigo_op(operador));
        },
        ExprS::Call { nome, args } => {
            lemma_args_sem_dp(args, m);
            let a = codigo_args(args, m);
            lemma_sem_dp_concat(a, "call "@);
            lemma_sem_dp_concat(a + "call "@, nome);
            lemma_sem_dp_concat(a + "call "@ + nome, "\n"@);
            let b = a + "call "@ + nome + "\n"@;
            lemma_termina(a + "call "@ + nome, "\n"@);
            if args.len() > 0 {
                let k = (args.len() * 8) as nat;
                lemma_decimal_sem_dp(k);
                lemma_sem_dp_concat("add rsp, "@, decimal(k));
                lemma_sem_dp_concat("add rsp, "@ + decimal(k), "\n"@);
                lemma_sem_dp_concat(b, "add rsp, "@ + decimal(k) + "\n"@);
                lemma_termina("add rsp, "@ + decimal(k), "\n"@);
                lemma_termina(b, "add rsp, "@ + decimal(k) + "\n"@);
            } else {
                assert(b + Seq::<char>::empty() =~= b);
            }
        },
    }
}

pub proof fn lemma_args_sem_dp(s: Seq<ExprS>, m: Map<Seq<char>, isize>)
    requires
        nomes_sem_dp_args(s),
    ensures
        sem_dp(codigo_args(s, m)),
        termina_linha(codigo_args(s, m)),
    decreases s, 0int,
{
    if s.len() > 0 {
        lemma_literais_sem_dp();
        lemma_expr_sem_dp(s.last(), m);
        lemma_args_sem_dp(s.drop_last(), m);
        let a = codigo_expr(s.last(), m);
        lemma_sem_dp_concat(a, "push rax\n"@);
        lemma_sem_dp_concat(a + "push rax\n"@, codigo_args(s.drop_last(), m));
        lemma_termina(a, "push rax\n"@);
        if codigo_args(s.drop_last(), m).len() > 0 {
            lemma_termina(a + "push rax\n"@, codigo_args(s.drop_last(), m));
        } else {
            assert(a + "push rax\n"@ + codigo_args(s.drop_last(), m) =~= a + "push rax\n"@);
        }
    }
}

/// The names in a command hold no `:`.
pub open spec fn nomes_cmd(c: CmdS) -> bool
    decreases c,
{
    match c {
        CmdS::Atrib { nome, expr } => sem_dp(nome) && nomes_sem_dp(expr),
        CmdS::If { cond, then_cmds, else_cmds } => nomes_sem_dp(cond) && nomes_cmds(then_cmds)
            && nomes_cmds(else_cmds),
        CmdS::While { cond, body } => nomes_sem_dp(cond) && nomes_cmds(body),
    }
}

pub open spec fn nomes_cmds(s: Seq<CmdS>) -> bool
    decreases s,
{
    if s.len() == 0 {
        true
    } else {
        nomes_cmds(s.drop_last()) && nomes_cmd(s.last())
    }
}

proof fn lemma_guarda_sem_dp(nome: Seq<char>, m: Map<Seq<char>, isize>)
    requires
        sem_dp(nome),
    ensures
        sem_dp(codigo_guarda(nome, m)),
        codigo_guarda(nome, m).len() > 0,
        termina_linha(codigo_guarda(nome, m)),
{
    lemma_literais_sem_dp();
    match consulta(m, nome) {
        Some(o) => {
            lemma_endereco_sem_dp(o);
            lemma_sem_dp_concat("mov "@, endereco_local(o));
            lemma_sem_dp_concat("mov "@ + endereco_local(o), ", rax\n"@);
            lemma_termina("mov "@ + endereco_local(o), ", rax\n"@);
        },
        None => {
            lemma_sem_dp_concat("mov ["@, nome);
            lemma_sem_dp_concat("mov ["@ + nome, "], rax\n"@);
            lemma_termina("mov ["@ + nome, "], rax\n"@);
        },
    }
}

/// A line that ends with a digit is no label line.
proof fn lemma_conta_salto(y: Seq<char>, k: nat, n: nat)
    requires
        y.len() > 0,
        '0' <= y[y.len() - 1] <= '9',
    ensures
        conta(seq![y], linha_rotulo(k, n)) == 0,
{
    lemma_conta_um(y, linha_rotulo(k, n));
    if y == linha_rotulo(k, n) {
        assert(y[y.len() - 1] == ':');
    }
}

/// The code of a test: a condition, then `cmp rax, 0`; it holds no `:`.
proof fn lemma_teste_sem_dp(c: ExprS, m: Map<Seq<char>, isize>)
    requires
        nomes_sem_dp(c),
    ensures
        sem_dp(codigo_expr(c, m) + "cmp rax, 0\n"@),
        termina_linha(codigo_expr(c, m) + "cmp rax, 0\n"@),
{
    lemma_literais_sem_dp();
    lemma_expr_sem_dp(c, m);
    lemma_sem_dp_concat(codigo_expr(c, m), "cmp rax, 0\n"@);
    lemma_termina(codigo_expr(c, m), "cmp rax, 0\n"@);
}

/// Each label line occurs at most once in the code of a command, and only
/// for a number between the command's first label number and the next one
/// after it.
pub proof fn lemma_rotulos_unicos_cmd(c: CmdS, l: int, m: Map<Seq<char>, isize>, k: nat, n: nat)
    requires
        l >= 0,
        k < 3,
        nomes_cmd(c),
    ensures
        termina_linha(codigo_cmd(c, l, m).0),
        l <= codigo_cmd(c, l, m).1,
        conta(linhas(codigo_cmd(c, l, m).0), linha_rotulo(k, n)) <= 1,
        conta(linhas(codigo_cmd(c, l, m).0), linha_rotulo(k, n)) > 0 ==> l <= n < codigo_cmd(
            c,
            l,
            m,
        ).1,
    decreases c, 1int,
{
    lemma_rotulos_cmd(c, l, m);
    let x = linha_rotulo(k, n);
    lemma_linha_rotulo_fim(k, n);
    match c {
        CmdS::Atrib { nome, expr } => {
            lemma_expr_sem_dp(expr, m);
            lemma_guarda_sem_dp(nome, m);
            lemma_sem_dp_concat(codigo_expr(expr, m), codigo_guarda(nome, m));
            lemma_termina(codigo_expr(expr, m), codigo_guarda(nome, m));
            lemma_conta_sem_dp(codigo_expr(expr, m) + codigo_guarda(nome, m), x);
        },
        CmdS::If { cond, then_cmds, else_cmds } => {
            let tc = codigo_expr(cond, m) + "cmp rax, 0\n"@;
            lemma_teste_sem_dp(cond, m);
            let (ct, l1) = codigo_cmds(then_cmds, l + 2, m);
            let (ce, l2) = codigo_cmds(else_cmds, l1, m);
            lemma_rotulos_unicos_cmds(then_cmds, l + 2, m, k, n);
            lemma_rotulos_unicos_cmds(else_cmds, l1, m, k, n);
            lemma_texto_se(cond, then_cmds, else_cmds, l, m);
            lemma_conta_se(tc, ct, ce, l as nat, l1, l2, k, n);
        },
        CmdS::While { cond, body } => {
            let tc = codigo_expr(cond, m) + "cmp rax, 0\n"@;
            lemma_teste_sem_dp(cond, m);
            let (cb, l1) = codigo_cmds(body, l + 2, m);
            lemma_rotulos_unicos_cmds(body, l + 2, m, k, n);
            lemma_texto_enquanto(cond, body, l, m);
            lemma_conta_enquanto(tc, cb, l as nat, l1, k, n);
        },
    }
}

/// The text of an `if`: its test, its branches, and the jumps and labels
/// around them.
proof fn lemma_texto_se(c: ExprS, t: Seq<CmdS>, e: Seq<CmdS>, l: int, m: Map<Seq<char>, isize>)
    requires
        l >= 0,
    ensures
        ({
            let a_f = "Lfalso"@ + decimal(l as nat);
            let a_e = "Lfim"@ + decimal((l + 1) as nat);
            let (ct, l1) = codigo_cmds(t, l + 2, m);
            codigo_cmd(CmdS::If { cond: c, then_cmds: t, else_cmds: e }, l, m).0 == (codigo_expr(c, m)
                + "cmp rax, 0\n"@) + (("je "@ + a_f) + seq!['\n']) + ct + (("jmp "@ + a_e) + seq![
                '\n']) + ((a_f + seq![':']) + seq!['\n']) + codigo_cmds(e, l1, m).0 + ((a_e + seq![
                ':']) + seq!['\n'])
        }),
{
    reveal_strlit("je Lfalso");
    reveal_strlit("jmp Lfim");
    reveal_strlit("Lfalso");
    reveal_strlit("Lfim");
    reveal_strlit("je ");
    reveal_strlit("jmp ");
    reveal_strlit("\n");
    reveal_strlit(":\n");
    let a_f = "Lfalso"@ + decimal(l as nat);
    let a_e = "Lfim"@ + decimal((l + 1) as nat);
    let (ct, l1) = codigo_cmds(t, l + 2, m);
    assert(codigo_cmd(CmdS::If { cond: c, then_cmds: t, else_cmds: e }, l, m).0 =~= (codigo_expr(c, m)
        + "cmp rax, 0\n"@) + (("je "@ + a_f) + seq!['\n']) + ct + (("jmp "@ + a_e) + seq!['\n'])
        + ((a_f + seq![':']) + seq!['\n']) + codigo_cmds(e, l1, m).0 + ((a_e + seq![':']) + seq![
        '\n']));
}

/// The text of a `while`: its label, its test, its body, and the jumps and
/// label after them.
proof fn lemma_texto_enquanto(c: ExprS, b: Seq<CmdS>, l: int, m: Map<Seq<char>, isize>)
    requires
        l >= 0,
    ensures
        ({
            let a_i = "Linicio"@ + decimal(l as nat);
            let a_e = "Lfim"@ + decimal((l + 1) as nat);
            codigo_cmd(CmdS::While { cond: c, body: b }, l, m).0 == ((a_i + seq![':']) + seq!['\n'])
                + (codigo_expr(c, m) + "cmp rax, 0\n"@) + (("je "@ + a_e) + seq!['\n'])
                + codigo_cmds(b, l + 2, m).0 + (("jmp "@ + a_i) + seq!['\n']) + ((a_e + seq![':'])
                + seq!['\n'])
        }),
{
    reveal_strlit("je Lfim");
    reveal_strlit("jmp Linicio");
    reveal_strlit("Linicio");
    reveal_strlit("Lfim");
    reveal_strlit("je ");
    reveal_strlit("jmp ");
    reveal_strlit("\n");
    reveal_strlit(":\n");
    let a_i = "Linicio"@ + decimal(l as nat);
    let a_e = "Lfim"@ + decimal((l + 1) as nat);
    assert(codigo_cmd(CmdS::While { cond: c, body: b }, l, m).0 =~= ((a_i + seq![':']) + seq![
        '\n',
    ]) + (codigo_expr(c, m) + "cmp rax, 0\n"@) + (("je "@ + a_e) + seq!['\n']) + codigo_cmds(
        b,
        l + 2,
        m,
    ).0 + (("jmp "@ + a_i) + seq!['\n']) + ((a_e + seq![':']) + seq!['\n']));
}

/// Counting a label line in the text of an `if`, from its parts.
#[verifier::spinoff_prover]
#[verifier::rlimit(30)]
proof fn lemma_conta_se(tc: Seq<char>, ct: Seq<char>, ce: Seq<char>, l: nat, l1: int, l2: int, k: nat, n: nat)
    requires
        k < 3,
        sem_dp(tc),
        termina_linha(tc),
        termina_linha(ct),
        termina_linha(ce),
        l + 2 <= l1 <= l2,
        conta(linhas(ct), linha_rotulo(k, n)) <= 1,
        conta(linhas(ct), linha_rotulo(k, n)) > 0 ==> l + 2 <= n < l1,
        conta(linhas(ce), linha_rotulo(k, n)) <= 1,
        conta(linhas(ce), linha_rotulo(k, n)) > 0 ==> l1 <= n < l2,
    ensures
        ({
            let a_f = "Lfalso"@ + decimal(l);
            let a_e = "Lfim"@ + decimal(l + 1);
            let t = tc + (("je "@ + a_f) + seq!['\n']) + ct + (("jmp "@ + a_e) + seq!['\n']) + ((a_f
                + seq![':']) + seq!['\n']) + ce + ((a_e + seq![':']) + seq!['\n']);
            &&& termina_linha(t)
            &&& conta(linhas(t), linha_rotulo(k, n)) <= 1
            &&& conta(linhas(t), linha_rotulo(k, n)) > 0 ==> l <= n < l2
        }),
{
    let x = linha_rotulo(k, n);
    lemma_linha_rotulo_fim(k, n);
    reveal_strlit("Lfalso");
    reveal_strlit("Lfim");
    let a_f = "Lfalso"@ + decimal(l);
    let a_e = "Lfim"@ + decimal(l + 1);
    lemma_nome_rotulo("Lfalso"@, l);
    lemma_nome_rotulo("Lfim"@, l + 1);
    lemma_salto("je "@, a_f);
    lemma_salto("jmp "@, a_e);
    let x_je = "je "@ + a_f;
    let x_jmp = "jmp "@ + a_e;
    let x_f = a_f + seq![':'];
    let x_e = a_e + seq![':'];
    lemma_linha(x_je);
    lemma_linha(x_jmp);
    lemma_linha(x_f);
    lemma_linha(x_e);
    let p1 = tc + (x_je + seq!['\n']);
    lemma_linhas_mais(tc, x_je + seq!['\n']);
    let p2 = p1 + ct;
    lemma_linhas_mais(p1, ct);
    let p3 = p2 + (x_jmp + seq!['\n']);
    lemma_linhas_mais(p2, x_jmp + seq!['\n']);
    let p4 = p3 + (x_f + seq!['\n']);
    lemma_linhas_mais(p3, x_f + seq!['\n']);
    let p5 = p4 + ce;
    lemma_linhas_mais(p4, ce);
    lemma_linhas_mais(p5, x_e + seq!['\n']);
    let q1 = linhas(tc) + seq![x_je];
    let q2 = q1 + linhas(ct);
    let q3 = q2 + seq![x_jmp];
    let q4 = q3 + seq![x_f];
    let q5 = q4 + linhas(ce);
    lemma_conta_concat(q5, seq![x_e], x);
    lemma_conta_concat(q4, linhas(ce), x);
    lemma_conta_concat(q3, seq![x_f], x);
    lemma_conta_concat(q2, seq![x_jmp], x);
    lemma_conta_concat(q1, linhas(ct), x);
    lemma_conta_concat(linhas(tc), seq![x_je], x);
    lemma_conta_sem_dp(tc, x);
    lemma_conta_salto(x_je, k, n);
    lemma_conta_salto(x_jmp, k, n);
    lemma_conta_um(x_f, x);
    lemma_conta_um(x_e, x);
    assert(x_f == linha_rotulo(0, l));
    assert(x_e == linha_rotulo(1, l + 1));
    if x_f == x {
        lemma_linha_rotulo_injetiva(0, l, k, n);
    }
    if x_e == x {
        lemma_linha_rotulo_injetiva(1, l + 1, k, n);
    }
}

/// Counting a label line in the text of a `while`, from its parts.
#[verifier::spinoff_prover]
#[verifier::rlimit(30)]
proof fn lemma_conta_enquanto(tc: Seq<char>, cb: Seq<char>, l: nat, l1: int, k: nat, n: nat)
    requires
        k < 3,
        sem_dp(tc),
        termina_linha(tc),
        termina_linha(cb),
        l + 2 <= l1,
        conta(linhas(cb), linha_rotulo(k, n)) <= 1,
        conta(linhas(cb), linha_rotulo(k, n)) > 0 ==> l + 2 <= n < l1,
    ensures
        ({
            let a_i = "Linicio"@ + decimal(l);
            let a_e = "Lfim"@ + decimal(l + 1);
            let t = ((a_i + seq![':']) + seq!['\n']) + tc + (("je "@ + a_e) + seq!['\n']) + cb + ((
            "jmp "@ + a_i) + seq!['\n']) + ((a_e + seq![':']) + seq!['\n']);
            &&& termina_linha(t)
            &&& conta(linhas(t), linha_rotulo(k, n)) <= 1
            &&& conta(linhas(t), linha_rotulo(k, n)) > 0 ==> l <= n < l1
        }),
{
    let x = linha_rotulo(k, n);
    lemma_linha_rotulo_fim(k, n);
    reveal_strlit("Linicio");
    reveal_strlit("Lfim");
    let a_i = "Linicio"@ + decimal(l);
    let a_e = "Lfim"@ + decimal(l + 1);
    lemma_nome_rotulo("Linicio"@, l);
    lemma_nome_rotulo("Lfim"@, l + 1);
    lemma_salto("je "@, a_e);
    lemma_salto("jmp "@, a_i);
    let x_i = a_i + seq![':'];
    let x_je = "je "@ + a_e;
    let x_jmp = "jmp "@ + a_i;
    let x_e = a_e + seq![':'];
    lemma_linha(x_i);
    lemma_linha(x_je);
    lemma_linha(x_jmp);
    lemma_linha(x_e);
    let p0 = x_i + seq!['\n'];
    let p1 = p0 + tc;
    lemma_linhas_mais(p0, tc);
    let p2 = p1 + (x_je + seq!['\n']);
    lemma_linhas_mais(p1, x_je + seq!['\n']);
    let p3 = p2 + cb;
    lemma_linhas_mais(p2, cb);
    let p4 = p3 + (x_jmp + seq!['\n']);
    lemma_linhas_mais(p3, x_jmp + seq!['\n']);
    lemma_linhas_mais(p4, x_e + seq!['\n']);
    let q1 = seq![x_i] + linhas(tc);
    let q2 = q1 + seq![x_je];
    let q3 = q2 + linhas(cb);
    let q4 = q3 + seq![x_jmp];
    lemma_conta_concat(q4, seq![x_e], x);
    lemma_conta_concat(q3, seq![x_jmp], x);
    lemma_conta_concat(q2, linhas(cb), x);
    lemma_conta_concat(q1, seq![x_je], x);
    lemma_conta_concat(seq![x_i], linhas(tc), x);
    lemma_conta_sem_dp(tc, x);
    lemma_conta_salto(x_je, k, n);
    lemma_conta_salto(x_jmp, k, n);
    lemma_conta_um(x_i, x);
    lemma_conta_um(x_e, x);
    assert(x_i == linha_rotulo(2, l));
    assert(x_e == linha_rotulo(1, l + 1));
    if x_i == x {
        lemma_linha_rotulo_injetiva(2, l, k, n);
    }
    if x_e == x {
        lemma_linha_rotulo_injetiva(1, l + 1, k, n);
    }
}

/// Each label line occurs at most once in the code of a sequence of
/// commands, and only for a number between its first label number and the
/// next one after it.
pub proof fn lemma_rotulos_unicos_cmds(s: Seq<CmdS>, l: int, m: Map<Seq<char>, isize>, k: nat, n: nat)
    requires
        l >= 0,
        k < 3,
        nomes_cmds(s),
    ensures
        termina_linha(codigo_cmds(s, l, m).0),
        l <= codigo_cmds(s, l, m).1,
        conta(linhas(codigo_cmds(s, l, m).0), linha_rotulo(k, n)) <= 1,
        conta(linhas(codigo_cmds(s, l, m).0), linha_rotulo(k, n)) > 0 ==> l <= n < codigo_cmds(
            s,
            l,
            m,
        ).1,
    decreases s, 0int,
{
    if s.len() == 0 {
        assert(linhas(Seq::<char>::empty()) =~= Seq::<Seq<char>>::empty());
    } else {
        let (a, l1) = codigo_cmds(s.drop_last(), l, m);
        lemma_rotulos_unicos_cmds(s.drop_last(), l, m, k, n);
        lemma_rotulos_unicos_cmd(s.last(), l1, m, k, n);
        let b = codigo_cmd(s.last(), l1, m).0;
        lemma_linhas_mais(a, b);
        lemma_conta_concat(linhas(a), linhas(b), linha_rotulo(k, n));
    }
}

/// Every `:` of the text is followed by a character other than `'\n'`: no
/// line of it ends with `:`.
pub open spec fn dp_seguido(t: Seq<char>) -> bool {
    forall|i: int| 0 <= i < t.len() && #[trigger] t[i] == ':' ==> i + 1 < t.len() && t[i + 1] != '\n'
}

proof fn lemma_dp_concat(a: Seq<char>, b: Seq<char>)
    requires
        dp_seguido(a),
        dp_seguido(b),
    ensures
        dp_seguido(a + b),
{
    assert forall|i: int| 0 <= i < (a + b).len() && #[trigger] (a + b)[i] == ':' implies i + 1 < (a
        + b).len() && (a + b)[i + 1] != '\n' by {
        if i >= a.len() {
            assert((a + b)[i] == b[i - a.len()]);
            assert((a + b)[i + 1] == b[i + 1 - a.len()]);
        } else {
            assert((a + b)[i] == a[i]);
            assert((a + b)[i + 1] == a[i + 1]);
        }
    }
}

/// A text whose every `:` is followed by a character other than `'\n'` has
/// no line that ends with `:`.
proof fn lemma_conta_dp(t: Seq<char>, x: Seq<char>)
    requires
        dp_seguido(t),
        x.len() > 0,
        x[x.len() - 1] == ':',
    ensures
        conta(linhas(t), x) == 0,
    decreases t.len(),
{
    if t.len() > 0 {
        lemma_fim_linha(t, 0);
        let f = fim_linha(t, 0);
        let ls = linhas(t);
        if f < t.len() {
            let y = t.subrange(0, f);
            let r = t.subrange(f + 1, t.len() as int);
            assert forall|i: int| 0 <= i < r.len() && #[trigger] r[i] == ':' implies i + 1 < r.len()
                && r[i + 1] != '\n' by {
                assert(r[i] == t[i + f + 1]);
                assert(t[i + f + 1] == ':');
                assert(r[i + 1] == t[i + f + 2]);
            }
            lemma_conta_dp(r, x);
            assert(ls == seq![y] + linhas(r));
            lemma_conta_concat(seq![y], linhas(r), x);
            lemma_conta_um(y, x);
            if y == x {
                assert(t[f - 1] == y[f - 1]);
                assert(t[f - 1] == ':');
            }
        } else {
            assert(ls == seq![t]);
            lemma_conta_um(t, x);
            if t == x {
                assert(t[t.len() - 1] == ':');
            }
        }
    }
}

proof fn lemma_literal_bss()
    ensures
        dp_seguido(": resq 1\n"@),
        ": resq 1\n"@.len() > 0,
        termina_linha(": resq 1\n"@),
{
    reveal_strlit(": resq 1\n");
}

proof fn lemma_bss(gs: Seq<(Seq<char>, ExprS)>)
    requires
        forall|j: int| 0 <= j < gs.len() ==> sem_dp(#[trigger] gs[j].0),
    ensures
        dp_seguido(codigo_bss(gs)),
        termina_linha(codigo_bss(gs)),
    decreases gs.len(),
{
    if gs.len() > 0 {
        let r = gs.drop_last();
        assert forall|j: int| 0 <= j < r.len() implies sem_dp(#[trigger] r[j].0) by {
            assert(r[j] == gs[j]);
        }
        lemma_bss(r);
        lemma_literal_bss();
        let g = gs[gs.len() - 1].0;
        lemma_dp_concat(codigo_bss(r), g);
        lemma_dp_concat(codigo_bss(r) + g, ": resq 1\n"@);
        lemma_termina(codigo_bss(r) + g, ": resq 1\n"@);
    }
}

proof fn lemma_globais(gs: Seq<(Seq<char>, ExprS)>)
    requires
        forall|j: int| 0 <= j < gs.len() ==> sem_dp(#[trigger] gs[j].0) && nomes_sem_dp(gs[j].1),
    ensures
        sem_dp(codigo_globais(gs)),
        termina_linha(codigo_globais(gs)),
    decreases gs.len(),
{
    if gs.len() > 0 {
        let r = gs.drop_last();
        assert forall|j: int| 0 <= j < r.len() implies sem_dp(#[trigger] r[j].0) && nomes_sem_dp(
            r[j].1,
        ) by {
            assert(r[j] == gs[j]);
        }
        lemma_globais(r);
        lemma_literais_sem_dp();
        let g = gs[gs.len() - 1];
        assert(sem_dp(gs[gs.len() - 1].0));
        lemma_expr_sem_dp(g.1, Map::empty());
        let a = codigo_globais(r) + codigo_expr(g.1, Map::empty());
        lemma_sem_dp_concat(codigo_globais(r), codigo_expr(g.1, Map::empty()));
        lemma_sem_dp_concat(a, "mov ["@);
        lemma_sem_dp_concat(a + "mov ["@, g.0);
        lemma_sem_dp_concat(a + "mov ["@ + g.0, "], rax\n"@);
        lemma_termina(a + "mov ["@ + g.0, "], rax\n"@);
    }
}

proof fn lemma_inits(vs: Seq<(Seq<char>, ExprS)>, m: Map<Seq<char>, isize>)
    requires
        forall|j: int| 0 <= j < vs.len() ==> nomes_sem_dp(#[trigger] vs[j].1),
    ensures
        sem_dp(codigo_inits(vs, m)),
        termina_linha(codigo_inits(vs, m)),
    decreases vs.len(),
{
    if vs.len() > 0 {
        let r = vs.drop_last();
        assert forall|j: int| 0 <= j < r.len() implies nomes_sem_dp(#[trigger] r[j].1) by {
            assert(r[j] == vs[j]);
        }
        lemma_inits(r, m);
        lemma_literais_sem_dp();
        let v = vs[vs.len() - 1];
        assert(nomes_sem_dp(vs[vs.len() - 1].1));
        lemma_expr_sem_dp(v.1, m);
        let a = codigo_inits(r, m) + codigo_expr(v.1, m);
        lemma_sem_dp_concat(codigo_inits(r, m), codigo_expr(v.1, m));
        lemma_termina(codigo_inits(r, m), codigo_expr(v.1, m));
        match consulta(m, v.0) {
            Some(o) => {
                lemma_endereco_sem_dp(o);
                let g = "mov "@ + endereco_local(o) + ", rax\n"@;
                lemma_sem_dp_concat("mov "@, endereco_local(o));
                lemma_sem_dp_concat("mov "@ + endereco_local(o), ", rax\n"@);
                lemma_termina("mov "@ + endereco_local(o), ", rax\n"@);
                lemma_sem_dp_concat(a, g);
                lemma_termina(a, g);
            },
            None => {
                assert(a + Seq::<char>::empty() =~= a);
            },
        }
    }
}

proof fn lemma_ajuste(i: Seq<char>, bytes: nat)
    requires
        sem_dp(i),
    ensures
        sem_dp(ajuste_pilha(i, bytes)),
        termina_linha(ajuste_pilha(i, bytes)),
{
    lemma_literais_sem_dp();
    if bytes > 0 {
        lemma_decimal_sem_dp(bytes);
        lemma_sem_dp_concat(i, decimal(bytes));
        lemma_sem_dp_concat(i + decimal(bytes), "\n"@);
        lemma_termina(i + decimal(bytes), "\n"@);
    }
}

/// The name is not that of a label of `if` or `while`.
pub open spec fn nao_e_rotulo(nome: Seq<char>) -> bool {
    forall|k: nat, n: nat| #![trigger prefixo_rotulo(k), decimal(n)] k < 3 ==> nome != prefixo_rotulo(k) + decimal(n)
}

/// The names of a function hold no `:`, its own is one line and no label
/// name.
pub open spec fn nomes_funcao(f: FunDeclS) -> bool {
    &&& sem_quebra(f.nome)
    &&& nao_e_rotulo(f.nome)
    &&& forall|j: int| 0 <= j < f.variaveis.len() ==> nomes_sem_dp(#[trigger] f.variaveis[j].1)
    &&& nomes_cmds(f.comandos)
    &&& nomes_sem_dp(f.retorno)
}

/// The first line of a function: its name, as a label.
proof fn lemma_cabecalho(nome: Seq<char>, k: nat, n: nat)
    requires
        sem_quebra(nome),
        nao_e_rotulo(nome),
        k < 3,
    ensures
        conta(linhas("\n"@ + nome + ":\n"@), linha_rotulo(k, n)) == 0,
        termina_linha("\n"@ + nome + ":\n"@),
{
    reveal_strlit("\n");
    reveal_strlit(":\n");
    let x = nome + seq![':'];
    assert(sem_quebra(x)) by {
        assert forall|i: int| 0 <= i < x.len() implies x[i] != '\n' by {
            if i < nome.len() {
                assert(x[i] == nome[i]);
            }
        }
    }
    assert(sem_quebra(Seq::<char>::empty()));
    lemma_linha(Seq::<char>::empty());
    lemma_linha(x);
    assert("\n"@ + nome + ":\n"@ =~= (Seq::<char>::empty() + seq!['\n']) + (x + seq!['\n']));
    lemma_linhas_mais(Seq::<char>::empty() + seq!['\n'], x + seq!['\n']);
    assert(Seq::<char>::empty() + seq!['\n'] =~= seq!['\n']);
    lemma_conta_concat(seq![Seq::<char>::empty()], seq![x], linha_rotulo(k, n));
    lemma_conta_um(Seq::<char>::empty(), linha_rotulo(k, n));
    lemma_conta_um(x, linha_rotulo(k, n));
    if x == linha_rotulo(k, n) {
        assert(nome =~= prefixo_rotulo(k) + decimal(n)) by {
            assert(x.drop_last() =~= nome);
            assert(linha_rotulo(k, n).drop_last() =~= prefixo_rotulo(k) + decimal(n));
        }
    }
}

/// Each label line occurs at most once in the code of a function, and only
/// for a number between its first label number and the next one after it.
#[verifier::spinoff_prover]
#[verifier::rlimit(30)]
proof fn lemma_rotulos_funcao(f: FunDeclS, l: int, k: nat, n: nat)
    requires
        l >= 0,
        k < 3,
        nomes_funcao(f),
    ensures
        termina_linha(codigo_funcao(f, l).0),
        l <= codigo_funcao(f, l).1,
        conta(linhas(codigo_funcao(f, l).0), linha_rotulo(k, n)) <= 1,
        conta(linhas(codigo_funcao(f, l).0), linha_rotulo(k, n)) > 0 ==> l <= n < codigo_funcao(
            f,
            l,
        ).1,
{
    let x = linha_rotulo(k, n);
    lemma_linha_rotulo_fim(k, n);
    let m = mapa_funcao(f);
    let bytes = f.variaveis.len() * 8;
    let (cs, l1) = codigo_cmds(f.comandos, l, m);
    lemma_rotulos_unicos_cmds(f.comandos, l, m, k, n);
    lemma_literais_sem_dp();
    let hd = "\n"@ + f.nome + ":\n"@;
    lemma_cabecalho(f.nome, k, n);
    lemma_ajuste("sub rsp, "@, bytes);
    lemma_ajuste("add rsp, "@, bytes);
    lemma_inits(f.variaveis, m);
    lemma_expr_sem_dp(f.retorno, m);
    let h1 = "push rbp\n"@ + "mov rbp, rsp\n"@;
    lemma_sem_dp_concat("push rbp\n"@, "mov rbp, rsp\n"@);
    lemma_termina("push rbp\n"@, "mov rbp, rsp\n"@);
    let h2 = h1 + ajuste_pilha("sub rsp, "@, bytes);
    lemma_sem_dp_concat(h1, ajuste_pilha("sub rsp, "@, bytes));
    lemma_linhas_mais(h1, ajuste_pilha("sub rsp, "@, bytes));
    let h = h2 + codigo_inits(f.variaveis, m);
    lemma_sem_dp_concat(h2, codigo_inits(f.variaveis, m));
    lemma_linhas_mais(h2, codigo_inits(f.variaveis, m));
    let e1 = codigo_expr(f.retorno, m) + ajuste_pilha("add rsp, "@, bytes);
    lemma_sem_dp_concat(codigo_expr(f.retorno, m), ajuste_pilha("add rsp, "@, bytes));
    lemma_linhas_mais(codigo_expr(f.retorno, m), ajuste_pilha("add rsp, "@, bytes));
    let e2 = e1 + "pop rbp\n"@;
    lemma_sem_dp_concat(e1, "pop rbp\n"@);
    lemma_termina(e1, "pop rbp\n"@);
    let e = e2 + "ret\n"@;
    lemma_sem_dp_concat(e2, "ret\n"@);
    lemma_termina(e2, "ret\n"@);
    assert(codigo_funcao(f, l).0 =~= hd + h + cs + e);
    lemma_linhas_mais(hd, h);
    lemma_linhas_mais(hd + h, cs);
    lemma_linhas_mais(hd + h + cs, e);
    lemma_conta_concat(linhas(hd), linhas(h), x);
    lemma_conta_concat(linhas(hd) + linhas(h), linhas(cs), x);
    lemma_conta_concat(linhas(hd) + linhas(h) + linhas(cs), linhas(e), x);
    lemma_conta_sem_dp(h, x);
    lemma_conta_sem_dp(e, x);
}

/// Each label line occurs at most once in the code of the functions, and
/// only for a number between their first label number and the next one.
proof fn lemma_rotulos_unicos_funcoes(fs: Seq<FunDeclS>, l: int, k: nat, n: nat)
    requires
        l >= 0,
        k < 3,
        forall|j: int| 0 <= j < fs.len() ==> nomes_funcao(#[trigger] fs[j]),
    ensures
        termina_linha(codigo_funcoes(fs, l).0),
        l <= codigo_funcoes(fs, l).1,
        conta(linhas(codigo_funcoes(fs, l).0), linha_rotulo(k, n)) <= 1,
        conta(linhas(codigo_funcoes(fs, l).0), linha_rotulo(k, n)) > 0 ==> l <= n < codigo_funcoes(
            fs,
            l,
        ).1,
    decreases fs.len(),
{
    if fs.len() == 0 {
        assert(linhas(Seq::<char>::empty()) =~= Seq::<Seq<char>>::empty());
    } else {
        let r = fs.drop_last();
        assert forall|j: int| 0 <= j < r.len() implies nomes_funcao(#[trigger] r[j]) by {
            assert(r[j] == fs[j]);
        }
        lemma_rotulos_unicos_funcoes(r, l, k, n);
        let (a, l1) = codigo_funcoes(r, l);
        lemma_rotulos_funcao(fs.last(), l1, k, n);
        let b = codigo_funcao(fs.last(), l1).0;
        lemma_linhas_mais(a, b);
        lemma_conta_concat(linhas(a), linhas(b), linha_rotulo(k, n));
    }
}

/// The names of a program hold no `:`, and its functions' names are lines
/// of their own that are not the names of labels.
pub open spec fn nomes_programa(p: ProgramaS) -> bool {
    &&& forall|j: int| 0 <= j < p.globais.len() ==> sem_dp(#[trigger] p.globais[j].0) && nomes_sem_dp(
        p.globais[j].1,
    )
    &&& forall|j: int| 0 <= j < p.funcoes.len() ==> nomes_funcao(#[trigger] p.funcoes[j])
    &&& nomes_cmds(p.principal)
    &&& nomes_sem_dp(p.retorno)
}

proof fn lemma_start(k: nat, n: nat)
    requires
        k < 3,
    ensures
        conta(linhas("\n_start:\n"@), linha_rotulo(k, n)) == 0,
        termina_linha("\n_start:\n"@),
{
    reveal_strlit("\n_start:\n");
    reveal_strlit("_start");
    reveal_strlit("\n");
    reveal_strlit(":\n");
    reveal_strlit("Lfalso");
    reveal_strlit("Lfim");
    reveal_strlit("Linicio");
    assert(sem_quebra("_start"@));
    assert forall|kk: nat, nn: nat| #![trigger prefixo_rotulo(kk), decimal(nn)] kk < 3 implies "_start"@
        != prefixo_rotulo(kk) + decimal(nn) by {
        assert((prefixo_rotulo(kk) + decimal(nn))[0] == prefixo_rotulo(kk)[0]);
    }
    lemma_cabecalho("_start"@, k, n);
    assert("\n_start:\n"@ =~= "\n"@ + "_start"@ + ":\n"@);
}

/// In the code of a program, the line that defines each label of `if` and
/// `while` occurs at most once: the functions take their label numbers
/// first, one after the other, and the main block goes on after them.
#[verifier::spinoff_prover]
#[verifier::rlimit(30)]
pub proof fn lei_rotulos_unicos(p: ProgramaS, k: nat, n: nat)
    requires
        k < 3,
        nomes_programa(p),
    ensures
        conta(linhas(codigo_programa(p)), linha_rotulo(k, n)) <= 1,
{
    let x = linha_rotulo(k, n);
    lemma_linha_rotulo_fim(k, n);
    lemma_literais_sem_dp();
    let (cf, l1) = codigo_funcoes(p.funcoes, 0);
    let (cc, l2) = codigo_cmds(p.principal, l1, Map::empty());
    lemma_rotulos_unicos_funcoes(p.funcoes, 0, k, n);
    lemma_rotulos_unicos_cmds(p.principal, l1, Map::empty(), k, n);
    // before the functions
    lemma_bss(p.globais);
    let a1 = "section .bss\n"@ + codigo_bss(p.globais);
    lemma_dp_concat("section .bss\n"@, codigo_bss(p.globais));
    lemma_linhas_mais("section .bss\n"@, codigo_bss(p.globais));
    let a2 = a1 + "section .text\n"@;
    lemma_dp_concat(a1, "section .text\n"@);
    lemma_termina(a1, "section .text\n"@);
    let a = a2 + "global _start\n"@;
    lemma_dp_concat(a2, "global _start\n"@);
    lemma_termina(a2, "global _start\n"@);
    lemma_conta_dp(a, x);
    // after them
    lemma_start(k, n);
    lemma_globais(p.globais);
    lemma_expr_sem_dp(p.retorno, Map::empty());
    let r1 = codigo_expr(p.retorno, Map::empty()) + "mov rdi, rax\n"@;
    lemma_sem_dp_concat(codigo_expr(p.retorno, Map::empty()), "mov rdi, rax\n"@);
    let r2 = r1 + "mov rax, 60\n"@;
    lemma_sem_dp_concat(r1, "mov rax, 60\n"@);
    let r = r2 + "syscall\n"@;
    lemma_sem_dp_concat(r2, "syscall\n"@);
    lemma_conta_sem_dp(r, x);
    lemma_conta_sem_dp(codigo_globais(p.globais), x);
    let g = codigo_globais(p.globais);
    assert(codigo_programa(p) =~= a + cf + "\n_start:\n"@ + g + cc + r);
    lemma_linhas_mais(a, cf);
    lemma_linhas_mais(a + cf, "\n_start:\n"@);
    lemma_linhas_mais(a + cf + "\n_start:\n"@, g);
    lemma_linhas_mais(a + cf + "\n_start:\n"@ + g, cc);
    crate::maquina::lemma_linhas_concat(a + cf + "\n_start:\n"@ + g + cc, r);
    lemma_conta_concat(linhas(a), linhas(cf), x);
    lemma_conta_concat(linhas(a) + linhas(cf), linhas("\n_start:\n"@), x);
    lemma_conta_concat(linhas(a) + linhas(cf) + linhas("\n_start:\n"@), linhas(g), x);
    lemma_conta_concat(linhas(a) + linhas(cf) + linhas("\n_start:\n"@) + linhas(g), linhas(cc), x);
    lemma_conta_concat(
        linhas(a) + linhas(cf) + linhas("\n_start:\n"@) + linhas(g) + linhas(cc),
        linhas(r),
        x,
    );
}

} // verus!
