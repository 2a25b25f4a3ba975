//! A model of the x86-64 machine for the instructions that expressions
//! compile to, over the text of the code: the text is cut into lines, and
//! each line is one instruction. Integers are exact; the model matches the
//! hardware as long as no value leaves 64 bits.
use vstd::prelude::*;

verus! {

/// The position of the first `'\n'` at or after `i`, or the end of `t`.
pub open spec fn fim_linha(t: Seq<char>, i: int) -> int
    decreases t.len() - i,
{
    if i < 0 || i >= t.len() || t[i] == '\n' {
        i
    } else {
        fim_linha(t, i + 1)
    }
}

pub proof fn lemma_fim_linha(t: Seq<char>, i: int)
    requires
        0 <= i <= t.len(),
    ensures
        i <= fim_linha(t, i) <= t.len(),
        forall|k: int| i <= k < fim_linha(t, i) ==> t[k] != '\n',
        fim_linha(t, i) < t.len() ==> t[fim_linha(t, i)] == '\n',
    decreases t.len() - i,
{
    if i < t.len() && t[i] != '\n' {
        lemma_fim_linha(t, i + 1);
    }
}

/// The lines of a text: the pieces between the `'\n'` characters; a last
/// piece without `'\n'` is a line too.
pub open spec fn linhas(t: Seq<char>) -> Seq<Seq<char>>
    decreases t.len(),
{
    if t.len() == 0 {
        Seq::empty()
    } else {
        let f = fim_linha(t, 0);
        if f < 0 || f >= t.len() {
            seq![t]
        } else {
            seq![t.subrange(0, f)] + linhas(t.subrange(f + 1, t.len() as int))
        }
    }
}

/// The text has no `'\n'`.
pub open spec fn sem_quebra(x: Seq<char>) -> bool {
    forall|k: int| 0 <= k < x.len() ==> x[k] != '\n'
}

/// The text is empty or ends a line.
pub open spec fn termina_linha(t: Seq<char>) -> bool {
    t.len() == 0 || t[t.len() - 1] == '\n'
}

proof fn lemma_fim_linha_concat(a: Seq<char>, b: Seq<char>, i: int)
    requires
        0 <= i <= a.len(),
        fim_linha(a, i) < a.len(),
    ensures
        fim_linha(a + b, i) == fim_linha(a, i),
    decreases a.len() - i,
{
    if a[i] != '\n' {
        lemma_fim_linha_concat(a, b, i + 1);
    }
}

proof fn lemma_fim_linha_sem_quebra(x: Seq<char>, b: Seq<char>, i: int)
    requires
        0 <= i <= x.len(),
        sem_quebra(x),
        b.len() > 0,
        b[0] == '\n',
    ensures
        fim_linha(x + b, i) == x.len(),
    decreases x.len() - i,
{
    if i < x.len() {
        lemma_fim_linha_sem_quebra(x, b, i + 1);
    }
}

/// Cutting two texts into lines, where the first ends a line, gives the
/// lines of the first, then those of the second.
pub proof fn lemma_linhas_concat(a: Seq<char>, b: Seq<char>)
    requires
        termina_linha(a),
    ensures
        linhas(a + b) == linhas(a) + linhas(b),
    decreases a.len(),
{
    if a.len() == 0 {
        assert(a + b =~= b);
    } else {
        lemma_fim_linha(a, 0);
        let f = fim_linha(a, 0);
        lemma_fim_linha_concat(a, b, 0);
        let r = a.subrange(f + 1, a.len() as int);
        assert((a + b).subrange(0, f) =~= a.subrange(0, f));
        assert((a + b).subrange(f + 1, (a + b).len() as int) =~= r + b);
        if r.len() > 0 {
            assert(r[r.len() - 1] == a[a.len() - 1]);
        }
        lemma_linhas_concat(r, b);
    }
}

/// A text without `'\n'`, with one after it, is one line.
pub proof fn lemma_uma_linha(x: Seq<char>)
    requires
        sem_quebra(x),
    ensures
        linhas(x + seq!['\n']) == seq![x],
{
    lemma_fim_linha_sem_quebra(x, seq!['\n'], 0);
    let t = x + seq!['\n'];
    assert(t.subrange(0, x.len() as int) =~= x);
    assert(t.subrange(x.len() + 1int, t.len() as int) =~= Seq::<char>::empty());
    assert(linhas(Seq::<char>::empty()) == Seq::<Seq<char>>::empty());
    assert(seq![x] + Seq::<Seq<char>>::empty() =~= seq![x]);
}

/// The state of the machine that the code of an expression uses.
pub struct Maquina {
    pub rax: int,
    pub rbx: int,
    pub rcx: int,
    pub rdx: int,
    /// The operands of the last comparison: `cmp x, y` keeps `(x, y)`.
    pub comparados: (int, int),
    /// The stack, its top at the end.
    pub pilha: Seq<int>,
    /// Memory, by the text of the operand between brackets: the name of a
    /// global, or `rbp-8`, `rbp+16`.
    pub memoria: Map<Seq<char>, int>,
    /// What each function returns in `rax` when it is called with the stack
    /// as it is at the call; a function takes its arguments from the top.
    pub funcoes: spec_fn(Seq<char>, Seq<int>) -> int,
}

/// The quotient of `a` by `b`, rounded towards zero, as `idiv` computes it.
pub open spec fn quociente(a: int, b: int) -> int {
    let q = (if a >= 0 { a } else { -a }) / (if b >= 0 { b } else { -b });
    if (a >= 0) == (b >= 0) {
        q
    } else {
        -q
    }
}

/// `rcx` with its lowest byte `cl` set to `bit`.
pub open spec fn com_cl(rcx: int, bit: bool) -> int {
    rcx - rcx % 256 + if bit {
        1int
    } else {
        0int
    }
}

/// What one instruction does to the machine; `None` where the line is not an
/// instruction that the model knows, or where it would fault.
pub open spec fn passo(linha: Seq<char>, m: Maquina) -> Option<Maquina> {
    let mov = "mov rax, "@;
    if linha.len() >= mov.len() && linha.subrange(0, mov.len() as int) == mov {
        let op = linha.subrange(mov.len() as int, linha.len() as int);
        if op == "rcx"@ {
            Some(Maquina { rax: m.rcx, ..m })
        } else if op.len() >= 2 && op[0] == '[' && op[op.len() - 1] == ']' {
            let celula = op.subrange(1, op.len() - 1);
            if m.memoria.contains_key(celula) {
                Some(Maquina { rax: m.memoria[celula], ..m })
            } else {
                None
            }
        } else if exists|v: int| op == crate::texto::decimal_com_sinal(v) {
            Some(Maquina { rax: choose|v: int| op == crate::texto::decimal_com_sinal(v), ..m })
        } else {
            None
        }
    } else if linha == "add rax, rbx"@ {
        Some(Maquina { rax: m.rax + m.rbx, ..m })
    } else if linha == "sub rax, rbx"@ {
        Some(Maquina { rax: m.rax - m.rbx, ..m })
    } else if linha == "imul rax, rbx"@ {
        Some(Maquina { rax: m.rax * m.rbx, ..m })
    } else if linha == "cqo"@ {
        Some(Maquina { rdx: if m.rax < 0 { -1 } else { 0 }, ..m })
    } else if linha == "idiv rbx"@ {
        if m.rbx != 0 && m.rdx == (if m.rax < 0 { -1int } else { 0int }) {
            let q = quociente(m.rax, m.rbx);
            Some(Maquina { rax: q, rdx: m.rax - q * m.rbx, ..m })
        } else {
            None
        }
    } else if linha == "xor rcx, rcx"@ {
        Some(Maquina { rcx: 0, ..m })
    } else if linha == "cmp rax, rbx"@ {
        Some(Maquina { comparados: (m.rax, m.rbx), ..m })
    } else if linha == "setz cl"@ {
        Some(Maquina { rcx: com_cl(m.rcx, m.comparados.0 == m.comparados.1), ..m })
    } else if linha == "setl cl"@ {
        Some(Maquina { rcx: com_cl(m.rcx, m.comparados.0 < m.comparados.1), ..m })
    } else if linha == "setg cl"@ {
        Some(Maquina { rcx: com_cl(m.rcx, m.comparados.0 > m.comparados.1), ..m })
    } else if linha == "push rax"@ {
        Some(Maquina { pilha: m.pilha.push(m.rax), ..m })
    } else if linha == "pop rbx"@ {
        if m.pilha.len() > 0 {
            Some(Maquina { rbx: m.pilha.last(), pilha: m.pilha.drop_last(), ..m })
        } else {
            None
        }
    } else if linha == "cmp rax, 0"@ {
        Some(Maquina { comparados: (m.rax, 0), ..m })
    } else if linha.len() >= 11 && linha.subrange(0, 5) == "mov ["@ && linha.subrange(
        linha.len() - 6,
        linha.len() as int,
    ) == "], rax"@ {
        Some(
            Maquina {
                memoria: m.memoria.insert(linha.subrange(5, linha.len() - 6), m.rax),
                ..m
            },
        )
    } else if linha.len() >= 5 && linha.subrange(0, 5) == "call "@ {
        Some(Maquina { rax: (m.funcoes)(linha.subrange(5, linha.len() as int), m.pilha), ..m })
    } else if linha.len() >= 9 && linha.subrange(0, 9) == "add rsp, "@ && exists|v: nat|
        linha.subrange(9, linha.len() as int) == crate::texto::decimal(v) {
        let v = choose|v: nat| linha.subrange(9, linha.len() as int) == crate::texto::decimal(v);
        if v % 8 == 0 && v / 8 <= m.pilha.len() {
            Some(Maquina { pilha: m.pilha.subrange(0, m.pilha.len() - v / 8), ..m })
        } else {
            None
        }
    } else {
        None
    }
}

/// Runs the instructions, one after the other.
pub open spec fn executa(ls: Seq<Seq<char>>, m: Maquina) -> Option<Maquina>
    decreases ls.len(),
{
    if ls.len() == 0 {
        Some(m)
    } else {
        match passo(ls[0], m) {
            Some(m2) => executa(ls.drop_first(), m2),
            None => None,
        }
    }
}

/// Runs the lines of a text of code.
pub open spec fn roda(t: Seq<char>, m: Maquina) -> Option<Maquina> {
    executa(linhas(t), m)
}

pub proof fn lemma_executa_concat(a: Seq<Seq<char>>, b: Seq<Seq<char>>, m: Maquina)
    ensures
        executa(a + b, m) == match executa(a, m) {
            Some(m2) => executa(b, m2),
            None => None,
        },
    decreases a.len(),
{
    if a.len() == 0 {
        assert(a + b =~= b);
    } else {
        assert((a + b).drop_first() =~= a.drop_first() + b);
        assert((a + b)[0] == a[0]);
        match passo(a[0], m) {
            Some(m2) => lemma_executa_concat(a.drop_first(), b, m2),
            None => {},
        }
    }
}

/// Running two texts of code, the first ending a line, runs the first, then
/// the second.
pub proof fn lemma_roda_concat(a: Seq<char>, b: Seq<char>, m: Maquina)
    requires
        termina_linha(a),
    ensures
        roda(a + b, m) == match roda(a, m) {
            Some(m2) => roda(b, m2),
            None => None,
        },
{
    lemma_linhas_concat(a, b);
    lemma_executa_concat(linhas(a), linhas(b), m);
}

/// Running one line runs its instruction.
pub proof fn lemma_roda_linha(x: Seq<char>, m: Maquina)
    requires
        sem_quebra(x),
    ensures
        roda(x + seq!['\n'], m) == passo(x, m),
{
    lemma_uma_linha(x);
    let ls = seq![x];
    assert(ls.drop_first() =~= Seq::<Seq<char>>::empty());
    assert(ls[0] == x);
    match passo(x, m) {
        Some(m2) => {
            assert(executa(Seq::<Seq<char>>::empty(), m2) == Some(m2));
        },
        None => {},
    }
}

/// The instructions that the model knows, as the code generator writes them:
/// each is one line, and they differ in their first, second or fourth
/// character.
pub proof fn lemma_literais()
    ensures
        "mov rax, "@.len() == 9,
        "mov rax, "@[0] == 'm',
        "mov rax, rcx\n"@ == "mov rax, "@ + "rcx"@ + seq!['\n'],
        sem_quebra("mov rax, "@),
        sem_quebra("rcx"@),
        "rcx"@.len() == 3,
        "rcx"@[0] == 'r',
        "cmp rax, 0\n"@ == "cmp rax, 0"@ + seq!['\n'],
        sem_quebra("cmp rax, 0"@),
        "cmp rax, 0"@.len() == 10,
        "cmp rax, 0"@[0] == 'c',
        "cmp rax, 0"@[9] == '0',
        "add rax, rbx\n"@ == "add rax, rbx"@ + seq!['\n'],
        sem_quebra("add rax, rbx"@),
        "add rax, rbx"@.len() == 12,
        "add rax, rbx"@[0] == 'a',
        "add rax, rbx"@[1] == 'd',
        "add rax, rbx"@[3] == ' ',
        "sub rax, rbx\n"@ == "sub rax, rbx"@ + seq!['\n'],
        sem_quebra("sub rax, rbx"@),
        "sub rax, rbx"@.len() == 12,
        "sub rax, rbx"@[0] == 's',
        "sub rax, rbx"@[1] == 'u',
        "sub rax, rbx"@[3] == ' ',
        "imul rax, rbx\n"@ == "imul rax, rbx"@ + seq!['\n'],
        sem_quebra("imul rax, rbx"@),
        "imul rax, rbx"@.len() == 13,
        "imul rax, rbx"@[0] == 'i',
        "imul rax, rbx"@[1] == 'm',
        "imul rax, rbx"@[3] == 'l',
        "cqo\n"@ == "cqo"@ + seq!['\n'],
        sem_quebra("cqo"@),
        "cqo"@.len() == 3,
        "cqo"@[0] == 'c',
        "cqo"@[1] == 'q',
        "idiv rbx\n"@ == "idiv rbx"@ + seq!['\n'],
        sem_quebra("idiv rbx"@),
        "idiv rbx"@.len() == 8,
        "idiv rbx"@[0] == 'i',
        "idiv rbx"@[1] == 'd',
        "idiv rbx"@[3] == 'v',
        "xor rcx, rcx\n"@ == "xor rcx, rcx"@ + seq!['\n'],
        sem_quebra("xor rcx, rcx"@),
        "xor rcx, rcx"@.len() == 12,
        "xor rcx, rcx"@[0] == 'x',
        "xor rcx, rcx"@[1] == 'o',
        "xor rcx, rcx"@[3] == ' ',
        "cmp rax, rbx\n"@ == "cmp rax, rbx"@ + seq!['\n'],
        sem_quebra("cmp rax, rbx"@),
        "cmp rax, rbx"@.len() == 12,
        "cmp rax, rbx"@[0] == 'c',
        "cmp rax, rbx"@[1] == 'm',
        "cmp rax, rbx"@[3] == ' ',
        "setz cl\n"@ == "setz cl"@ + seq!['\n'],
        sem_quebra("setz cl"@),
        "setz cl"@.len() == 7,
        "setz cl"@[0] == 's',
        "setz cl"@[1] == 'e',
        "setz cl"@[3] == 'z',
        "setl cl\n"@ == "setl cl"@ + seq!['\n'],
        sem_quebra("setl cl"@),
        "setl cl"@.len() == 7,
        "setl cl"@[0] == 's',
        "setl cl"@[1] == 'e',
        "setl cl"@[3] == 'l',
        "setg cl\n"@ == "setg cl"@ + seq!['\n'],
        sem_quebra("setg cl"@),
        "setg cl"@.len() == 7,
        "setg cl"@[0] == 's',
        "setg cl"@[1] == 'e',
        "setg cl"@[3] == 'g',
        "push rax\n"@ == "push rax"@ + seq!['\n'],
        sem_quebra("push rax"@),
        "push rax"@.len() == 8,
        "push rax"@[0] == 'p',
        "push rax"@[1] == 'u',
        "push rax"@[3] == 'h',
        "pop rbx\n"@ == "pop rbx"@ + seq!['\n'],
        sem_quebra("pop rbx"@),
        "pop rbx"@.len() == 7,
        "pop rbx"@[0] == 'p',
        "pop rbx"@[1] == 'o',
        "pop rbx"@[3] == ' ',
{
    reveal_strlit("mov rax, ");
    reveal_strlit("mov rax, rcx\n");
    reveal_strlit("rcx");
    reveal_strlit("add rax, rbx");
    reveal_strlit("add rax, rbx\n");
    reveal_strlit("sub rax, rbx");
    reveal_strlit("sub rax, rbx\n");
    reveal_strlit("imul rax, rbx");
    reveal_strlit("imul rax, rbx\n");
    reveal_strlit("cqo");
    reveal_strlit("cqo\n");
    reveal_strlit("idiv rbx");
    reveal_strlit("idiv rbx\n");
    reveal_strlit("xor rcx, rcx");
    reveal_strlit("xor rcx, rcx\n");
    reveal_strlit("cmp rax, rbx");
    reveal_strlit("cmp rax, rbx\n");
    reveal_strlit("setz cl");
    reveal_strlit("setz cl\n");
    reveal_strlit("setl cl");
    reveal_strlit("setl cl\n");
    reveal_strlit("setg cl");
    reveal_strlit("setg cl\n");
    reveal_strlit("push rax");
    reveal_strlit("push rax\n");
    reveal_strlit("pop rbx");
    reveal_strlit("pop rbx\n");
    assert("mov rax, rcx\n"@ =~= "mov rax, "@ + "rcx"@ + seq!['\n']);
    reveal_strlit("cmp rax, 0");
    reveal_strlit("cmp rax, 0\n");
    assert("cmp rax, 0\n"@ =~= "cmp rax, 0"@ + seq!['\n']);
    assert("add rax, rbx\n"@ =~= "add rax, rbx"@ + seq!['\n']);
    assert("sub rax, rbx\n"@ =~= "sub rax, rbx"@ + seq!['\n']);
    assert("imul rax, rbx\n"@ =~= "imul rax, rbx"@ + seq!['\n']);
    assert("cqo\n"@ =~= "cqo"@ + seq!['\n']);
    assert("idiv rbx\n"@ =~= "idiv rbx"@ + seq!['\n']);
    assert("xor rcx, rcx\n"@ =~= "xor rcx, rcx"@ + seq!['\n']);
    assert("cmp rax, rbx\n"@ =~= "cmp rax, rbx"@ + seq!['\n']);
    assert("setz cl\n"@ =~= "setz cl"@ + seq!['\n']);
    assert("setl cl\n"@ =~= "setl cl"@ + seq!['\n']);
    assert("setg cl\n"@ =~= "setg cl"@ + seq!['\n']);
    assert("push rax\n"@ =~= "push rax"@ + seq!['\n']);
    assert("pop rbx\n"@ =~= "pop rbx"@ + seq!['\n']);
}

proof fn lemma_nao_mov(x: Seq<char>)
    requires
        x.len() > 0,
        x[0] != 'm',
    ensures
        !(x.len() >= "mov rax, "@.len() && x.subrange(0, "mov rax, "@.len() as int) == "mov rax, "@),
{
    lemma_literais();
    if x.len() >= 9 {
        assert(x.subrange(0, 9)[0] == x[0]);
    }
}

/// What each instruction without operands does.
pub proof fn lemma_passos(m: Maquina)
    ensures
        passo("add rax, rbx"@, m) == Some(Maquina { rax: m.rax + m.rbx, ..m }),
        passo("sub rax, rbx"@, m) == Some(Maquina { rax: m.rax - m.rbx, ..m }),
        passo("imul rax, rbx"@, m) == Some(Maquina { rax: m.rax * m.rbx, ..m }),
        passo("cqo"@, m) == Some(Maquina { rdx: if m.rax < 0 { -1 } else { 0 }, ..m }),
        passo("idiv rbx"@, m) == if m.rbx != 0 && m.rdx == (if m.rax < 0 { -1int } else { 0int }) {
            Some(Maquina { rax: quociente(m.rax, m.rbx), rdx: m.rax - quociente(m.rax, m.rbx) * m.rbx, ..m })
        } else {
            None
        },
        passo("xor rcx, rcx"@, m) == Some(Maquina { rcx: 0, ..m }),
        passo("cmp rax, rbx"@, m) == Some(Maquina { comparados: (m.rax, m.rbx), ..m }),
        passo("setz cl"@, m) == Some(Maquina { rcx: com_cl(m.rcx, m.comparados.0 == m.comparados.1), ..m }),
        passo("setl cl"@, m) == Some(Maquina { rcx: com_cl(m.rcx, m.comparados.0 < m.comparados.1), ..m }),
        passo("setg cl"@, m) == Some(Maquina { rcx: com_cl(m.rcx, m.comparados.0 > m.comparados.1), ..m }),
        passo("push rax"@, m) == Some(Maquina { pilha: m.pilha.push(m.rax), ..m }),
        passo("pop rbx"@, m) == if m.pilha.len() > 0 {
            Some(Maquina { rbx: m.pilha.last(), pilha: m.pilha.drop_last(), ..m })
        } else {
            None
        },
        passo("mov rax, "@ + "rcx"@, m) == Some(Maquina { rax: m.rcx, ..m }),
{
    lemma_literais();
    lemma_nao_mov("add rax, rbx"@);
    lemma_nao_mov("sub rax, rbx"@);
    lemma_nao_mov("imul rax, rbx"@);
    lemma_nao_mov("cqo"@);
    lemma_nao_mov("idiv rbx"@);
    lemma_nao_mov("xor rcx, rcx"@);
    lemma_nao_mov("cmp rax, rbx"@);
    lemma_nao_mov("setz cl"@);
    lemma_nao_mov("setl cl"@);
    lemma_nao_mov("setg cl"@);
    lemma_nao_mov("push rax"@);
    lemma_nao_mov("pop rbx"@);
    let x = "mov rax, "@ + "rcx"@;
    assert(x.subrange(0, 9) =~= "mov rax, "@);
    assert(x.subrange(9, 12) =~= "rcx"@);
}

/// Running a text that ends a line, then one more line: the text, then the
/// line's instruction.
pub proof fn lemma_roda_mais_linha(t: Seq<char>, x: Seq<char>, m: Maquina)
    requires
        termina_linha(t),
        sem_quebra(x),
    ensures
        roda(t + (x + seq!['\n']), m) == match roda(t, m) {
            Some(m2) => passo(x, m2),
            None => None,
        },
        termina_linha(t + (x + seq!['\n'])),
{
    lemma_roda_concat(t, x + seq!['\n'], m);
    match roda(t, m) {
        Some(m2) => lemma_roda_linha(x, m2),
        None => {},
    }
    let u = t + (x + seq!['\n']);
    assert(u[u.len() - 1] == '\n');
}

/// `mov rax, N` loads the number `N`.
pub proof fn lemma_passo_constante(v: int, m: Maquina)
    ensures
        passo("mov rax, "@ + crate::texto::decimal_com_sinal(v), m) == Some(Maquina { rax: v, ..m }),
        sem_quebra("mov rax, "@ + crate::texto::decimal_com_sinal(v)),
{
    lemma_literais();
    crate::texto::lemma_decimal_com_sinal(v);
    let d = crate::texto::decimal_com_sinal(v);
    let x = "mov rax, "@ + d;
    assert(x.subrange(0, 9) =~= "mov rax, "@);
    assert(x.subrange(9, x.len() as int) =~= d);
    assert(d != "rcx"@) by {
        assert(d[0] != "rcx"@[0]);
    }
    assert(sem_quebra(x)) by {
        assert forall|k: int| 0 <= k < x.len() implies x[k] != '\n' by {
            if k >= 9 {
                assert(x[k] == d[k - 9]);
            } else {
                assert(x[k] == "mov rax, "@[k]);
            }
        }
    }
}

/// `mov rax, [c]` loads the memory cell named `c`, where there is one.
pub proof fn lemma_passo_memoria(c: Seq<char>, m: Maquina)
    requires
        sem_quebra(c),
    ensures
        passo("mov rax, "@ + (seq!['['] + c + seq![']']), m) == if m.memoria.contains_key(c) {
            Some(Maquina { rax: m.memoria[c], ..m })
        } else {
            None
        },
        sem_quebra("mov rax, "@ + (seq!['['] + c + seq![']'])),
{
    lemma_literais();
    let op = seq!['['] + c + seq![']'];
    let x = "mov rax, "@ + op;
    assert(x.subrange(0, 9) =~= "mov rax, "@);
    assert(x.subrange(9, x.len() as int) =~= op);
    assert(op != "rcx"@) by {
        assert(op[0] != "rcx"@[0]);
    }
    assert(op.subrange(1, op.len() - 1) =~= c);
    assert(sem_quebra(x)) by {
        assert forall|k: int| 0 <= k < x.len() implies x[k] != '\n' by {
            if k >= 9 {
                assert(x[k] == op[k - 9]);
                if k - 9 >= 1 && k - 9 < op.len() - 1 {
                    assert(op[k - 9] == c[k - 10]);
                }
            } else {
                assert(x[k] == "mov rax, "@[k]);
            }
        }
    }
}

/// `cmp rax, 0` compares `rax` with zero.
pub proof fn lemma_passo_teste(m: Maquina)
    ensures
        passo("cmp rax, 0"@, m) == Some(Maquina { comparados: (m.rax, 0), ..m }),
{
    lemma_literais();
    lemma_nao_mov("cmp rax, 0"@);
}

/// `mov [c], rax` stores `rax` in the memory cell named `c`.
pub proof fn lemma_passo_guarda(c: Seq<char>, m: Maquina)
    requires
        sem_quebra(c),
    ensures
        passo("mov ["@ + c + "], rax"@, m) == Some(
            Maquina { memoria: m.memoria.insert(c, m.rax), ..m },
        ),
        sem_quebra("mov ["@ + c + "], rax"@),
        simples("mov ["@ + c + "], rax"@),
{
    lemma_literais();
    reveal_strlit("mov [");
    reveal_strlit("], rax");
    let x = "mov ["@ + c + "], rax"@;
    let n = x.len();
    assert(x[0] == 'm');
    assert(x[4] == '[');
    reveal_strlit("mov rax, ");
    assert("mov rax, "@[4] == 'r');
    if n >= 9 {
        assert(x.subrange(0, 9)[4] == x[4]);
        assert(x.subrange(0, 9) != "mov rax, "@);
    }
    assert(x.subrange(0, 5) =~= "mov ["@);
    assert(x.subrange(n - 6, n as int) =~= "], rax"@);
    assert(x.subrange(5, n - 6) =~= c);
    assert(x[n - 1] == 'x');
    assert forall|k: int| 0 <= k < n implies x[k] != '\n' by {
        if 5 <= k < n - 6 {
            assert(x[k] == c[k - 5]);
        }
    }
}

/// A line that is neither a label nor a jump.
pub open spec fn simples(x: Seq<char>) -> bool {
    x.len() > 0 && x[0] != 'j' && x[x.len() - 1] != ':'
}

/// A text of whole lines, none of which is a label or a jump.
pub open spec fn texto_simples(t: Seq<char>) -> bool {
    &&& termina_linha(t)
    &&& forall|k: int| 0 <= k < linhas(t).len() ==> simples(#[trigger] linhas(t)[k])
}

pub proof fn lemma_texto_simples_concat(a: Seq<char>, b: Seq<char>)
    requires
        texto_simples(a),
        texto_simples(b),
    ensures
        texto_simples(a + b),
{
    lemma_linhas_concat(a, b);
    let la = linhas(a);
    let lb = linhas(b);
    assert forall|k: int| 0 <= k < linhas(a + b).len() implies simples(
        #[trigger] linhas(a + b)[k],
    ) by {
        if k < la.len() {
            assert(linhas(a + b)[k] == la[k]);
        } else {
            assert(linhas(a + b)[k] == lb[k - la.len()]);
        }
    }
    if b.len() > 0 {
        assert((a + b)[(a + b).len() - 1] == b[b.len() - 1]);
    } else {
        assert(a + b =~= a);
    }
}

pub proof fn lemma_texto_simples_linha(x: Seq<char>)
    requires
        sem_quebra(x),
        simples(x),
    ensures
        texto_simples(x + seq!['\n']),
        linhas(x + seq!['\n']) == seq![x],
{
    lemma_uma_linha(x);
    assert(seq![x][0] == x);
}

/// The literal instructions are neither labels nor jumps.
pub proof fn lemma_literais_simples()
    ensures
        simples("add rax, rbx"@),
        simples("sub rax, rbx"@),
        simples("imul rax, rbx"@),
        simples("cqo"@),
        simples("idiv rbx"@),
        simples("xor rcx, rcx"@),
        simples("cmp rax, rbx"@),
        simples("setz cl"@),
        simples("setl cl"@),
        simples("setg cl"@),
        simples("push rax"@),
        simples("pop rbx"@),
        simples("cmp rax, 0"@),
        simples("mov rax, "@ + "rcx"@),
{
    lemma_literais();
    reveal_strlit("add rax, rbx");
    reveal_strlit("sub rax, rbx");
    reveal_strlit("imul rax, rbx");
    reveal_strlit("cqo");
    reveal_strlit("idiv rbx");
    reveal_strlit("xor rcx, rcx");
    reveal_strlit("cmp rax, rbx");
    reveal_strlit("setz cl");
    reveal_strlit("setl cl");
    reveal_strlit("setg cl");
    reveal_strlit("push rax");
    reveal_strlit("pop rbx");
    reveal_strlit("cmp rax, 0");
    reveal_strlit("mov rax, ");
    reveal_strlit("rcx");
    let x = "mov rax, "@ + "rcx"@;
    assert(x[0] == 'm' && x[11] == 'x');
}

/// A line that defines a label: it ends with `:`.
pub open spec fn eh_rotulo(x: Seq<char>) -> bool {
    x.len() > 0 && x[x.len() - 1] == ':'
}

/// The line begins with `p`.
pub open spec fn comeca(x: Seq<char>, p: Seq<char>) -> bool {
    x.len() >= p.len() && x.subrange(0, p.len() as int) == p
}

/// The first line at or after `i` that defines the label `alvo`, or the end.
pub open spec fn posicao_rotulo(ls: Seq<Seq<char>>, alvo: Seq<char>, i: int) -> int
    decreases ls.len() - i,
{
    if i < 0 || i >= ls.len() || ls[i] == alvo + seq![':'] {
        i
    } else {
        posicao_rotulo(ls, alvo, i + 1)
    }
}

/// Where a program of lines is, and in what state, after `passos` steps from
/// the line `pc`: labels do nothing, `jmp L` goes to the line `L:`, `je L`
/// goes there when the last comparison found its operands equal, and other
/// lines are instructions. Past the last line the program has ended and
/// stays there; `None` where an instruction faults.
pub open spec fn configuracao(ls: Seq<Seq<char>>, pc: int, m: Maquina, passos: nat) -> Option<
    (int, Maquina),
>
    decreases passos,
{
    if passos == 0 || pc == ls.len() {
        Some((pc, m))
    } else if pc < 0 || pc > ls.len() {
        None
    } else {
        let x = ls[pc];
        if eh_rotulo(x) {
            configuracao(ls, pc + 1, m, (passos - 1) as nat)
        } else if comeca(x, "jmp "@) {
            configuracao(
                ls,
                posicao_rotulo(ls, x.subrange(4, x.len() as int), 0),
                m,
                (passos - 1) as nat,
            )
        } else if comeca(x, "je "@) {
            if m.comparados.0 == m.comparados.1 {
                configuracao(
                    ls,
                    posicao_rotulo(ls, x.subrange(3, x.len() as int), 0),
                    m,
                    (passos - 1) as nat,
                )
            } else {
                configuracao(ls, pc + 1, m, (passos - 1) as nat)
            }
        } else {
            match passo(x, m) {
                Some(m2) => configuracao(ls, pc + 1, m2, (passos - 1) as nat),
                None => None,
            }
        }
    }
}

/// Running a block of lines that are neither labels nor jumps runs its
/// instructions one after the other, one step each.
pub proof fn lemma_bloco(
    ls: Seq<Seq<char>>,
    i: int,
    b: Seq<Seq<char>>,
    m: Maquina,
    passos: nat,
)
    requires
        0 <= i,
        i + b.len() <= ls.len(),
        ls.subrange(i, i + b.len()) == b,
        forall|k: int| 0 <= k < b.len() ==> simples(#[trigger] b[k]),
    ensures
        configuracao(ls, i, m, passos + b.len()) == match executa(b, m) {
            Some(m2) => configuracao(ls, i + b.len(), m2, passos),
            None => None,
        },
    decreases b.len(),
{
    if b.len() > 0 {
        let x = b[0];
        assert(ls[i] == ls.subrange(i, i + b.len())[0]);
        assert(simples(x));
        reveal_strlit("jmp ");
        reveal_strlit("je ");
        if comeca(x, "jmp "@) {
            assert(x.subrange(0, 4)[0] == x[0]);
        }
        if comeca(x, "je "@) {
            assert(x.subrange(0, 3)[0] == x[0]);
        }
        let r = b.drop_first();
        assert forall|k: int| 0 <= k < r.len() implies simples(#[trigger] r[k]) by {
            assert(r[k] == b[k + 1]);
        }
        assert(ls.subrange(i + 1, i + 1 + r.len()) =~= r);
        match passo(x, m) {
            Some(m2) => {
                lemma_bloco(ls, i + 1, r, m2, passos);
                assert((passos + b.len() - 1) as nat == passos + r.len());
            },
            None => {},
        }
    }
}

/// `call f` leaves in `rax` what `f` returns, with the stack as it is.
pub proof fn lemma_passo_chamada(nome: Seq<char>, m: Maquina)
    ensures
        passo("call "@ + nome, m) == Some(
            Maquina { rax: (m.funcoes)(nome, m.pilha), ..m },
        ),
{
    lemma_literais();
    reveal_strlit("call ");
    reveal_strlit("mov [");
    reveal_strlit("cqo");
    reveal_strlit("cmp rax, rbx");
    reveal_strlit("cmp rax, 0");
    let x = "call "@ + nome;
    assert(x[0] == 'c' && x[1] == 'a');
    lemma_nao_mov(x);
    if x.len() >= 5 {
        assert(x.subrange(0, 5)[0] == x[0]);
    }
    assert(x.subrange(0, 5) =~= "call "@);
    assert(x.subrange(5, x.len() as int) =~= nome);
}

/// `add rsp, N` drops `N / 8` values from the stack, for `N` a multiple of 8
/// that the stack holds.
pub proof fn lemma_passo_desempilha(k: nat, m: Maquina)
    requires
        8 * k <= 8 * m.pilha.len(),
    ensures
        passo("add rsp, "@ + crate::texto::decimal(8 * k), m) == Some(
            Maquina { pilha: m.pilha.subrange(0, m.pilha.len() - k), ..m },
        ),
        sem_quebra("add rsp, "@ + crate::texto::decimal(8 * k)),
{
    lemma_literais();
    reveal_strlit("add rsp, ");
    reveal_strlit("add rax, rbx");
    reveal_strlit("mov [");
    reveal_strlit("call ");
    crate::texto::lemma_decimal_digitos(8 * k);
    let d = crate::texto::decimal(8 * k);
    let x = "add rsp, "@ + d;
    assert(x[0] == 'a' && x[5] == 's');
    lemma_nao_mov(x);
    assert(x != "add rax, rbx"@) by {
        if x.len() == "add rax, rbx"@.len() {
            assert(x[5] != "add rax, rbx"@[5]);
        }
    }
    if x.len() >= 5 {
        assert(x.subrange(0, 5)[0] == x[0]);
    }
    assert(x.subrange(0, 9) =~= "add rsp, "@);
    assert(x.subrange(9, x.len() as int) =~= d);
    let v = choose|v: nat| x.subrange(9, x.len() as int) == crate::texto::decimal(v);
    crate::texto::lemma_decimal_injetivo(v, 8 * k);
    assert(sem_quebra(x)) by {
        assert forall|i: int| 0 <= i < x.len() implies x[i] != '\n' by {
            if i >= 9 {
                assert(x[i] == d[i - 9]);
            }
        }
    }
}

} // verus!
