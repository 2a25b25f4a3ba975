//! The generator of x86-64 assembly (NASM syntax) for a Fun program.
//!
//! Expressions leave their value in `rax`; binary operations evaluate the
//! right operand first and keep it on the stack; calls push their arguments
//! from the last to the first; parameters live at `rbp+16`, `rbp+24`, ..., and
//! local variables at `rbp-8`, `rbp-16`, ...; globals are named in `.bss`.
use vstd::prelude::*;
use crate::ast::{
    Cmd,
    CmdS,
    Expr,
    ExprS,
    FunDecl,
    FunDeclS,
    Programa,
    ProgramaS,
    lemma_modelo_cmds_indices,
    lemma_modelo_exprs_indices,
    modelo_cmds,
    modelo_exprs,
};
use crate::gramatica::operador_valido;
use crate::texto::{decimal, decimal_com_sinal, empurra, escreve_inteiro, escreve_natural};

verus! {

/// The map from names to offsets from `rbp` that a list of insertions,
/// from the first to the last, builds: a later insertion of a name wins.
pub open spec fn mapa(s: Seq<(Seq<char>, isize)>) -> Map<Seq<char>, isize>
    decreases s.len(),
{
    if s.len() == 0 {
        Map::empty()
    } else {
        mapa(s.drop_last()).insert(s.last().0, s.last().1)
    }
}

/// The offset of `nome` in `m`, if it has one.
pub open spec fn consulta(m: Map<Seq<char>, isize>, nome: Seq<char>) -> Option<isize> {
    if m.contains_key(nome) {
        Some(m[nome])
    } else {
        None
    }
}

/// The offsets of a map can be written with `abs` (none is `isize::MIN`).
pub open spec fn deslocamentos_validos(m: Map<Seq<char>, isize>) -> bool {
    forall|k: Seq<char>| #[trigger] m.contains_key(k) ==> m[k] != isize::MIN
}

pub(crate) proof fn lemma_mapa_ultimo(s: Seq<(Seq<char>, isize)>, k: Seq<char>, i: int)
    requires
        0 <= i <= s.len(),
        forall|j: int| i <= j < s.len() ==> (#[trigger] s[j]).0 != k,
    ensures
        consulta(mapa(s), k) == consulta(mapa(s.take(i)), k),
    decreases s.len(),
{
    if s.len() > i {
        lemma_mapa_ultimo(s.drop_last(), k, i);
        assert(s.drop_last().take(i) =~= s.take(i));
    } else {
        assert(s.take(i) =~= s);
    }
}

pub(crate) proof fn lemma_mapa_valores(s: Seq<(Seq<char>, isize)>, lo: int, hi: int)
    requires
        forall|j: int| 0 <= j < s.len() ==> lo <= (#[trigger] s[j]).1 <= hi,
    ensures
        forall|k: Seq<char>| #[trigger] mapa(s).contains_key(k) ==> lo <= mapa(s)[k] <= hi,
    decreases s.len(),
{
    if s.len() > 0 {
        assert forall|j: int| 0 <= j < s.drop_last().len() implies lo <= (
        #[trigger] s.drop_last()[j]).1 <= hi by {
            assert(s.drop_last()[j] == s[j]);
        }
        assert(s.last() == s[s.len() - 1]);
        lemma_mapa_valores(s.drop_last(), lo, hi);
        assert forall|k: Seq<char>| #[trigger] mapa(s).contains_key(k) implies lo <= mapa(s)[k]
            <= hi by {
            if k != s.last().0 {
                assert(mapa(s.drop_last()).contains_key(k));
            }
        }
    }
}

/// The offsets of the names visible in a function, in the order of their
/// insertion: from `rbp`, the parameters at `16 + 8i`, then the local
/// variables at `-8 - 8j`.
pub open spec fn entradas_funcao(f: FunDeclS) -> Seq<(Seq<char>, isize)> {
    Seq::new(f.parametros.len(), |i: int| (f.parametros[i], (16 + 8 * i) as isize)) + Seq::new(
        f.variaveis.len(),
        |j: int| (f.variaveis[j].0, (-8 - 8 * j) as isize),
    )
}

/// The offsets from `rbp` of the names visible in a function.
pub open spec fn mapa_funcao(f: FunDeclS) -> Map<Seq<char>, isize> {
    mapa(entradas_funcao(f))
}

/// A map from names to offsets from `rbp`, where a later insertion of a name
/// replaces the earlier one.
pub struct Deslocamentos {
    entradas: Vec<(String, isize)>,
}

impl Deslocamentos {
    pub closed spec fn lista(&self) -> Seq<(Seq<char>, isize)> {
        Seq::new(self.entradas@.len(), |i: int| (self.entradas@[i].0@, self.entradas@[i].1))
    }
}

impl View for Deslocamentos {
    type V = Map<Seq<char>, isize>;

    closed spec fn view(&self) -> Map<Seq<char>, isize> {
        mapa(self.lista())
    }
}

impl Deslocamentos {
    /// An empty map.
    pub fn new() -> (d: Deslocamentos)
        ensures
            d@ == Map::<Seq<char>, isize>::empty(),
    {
        let d = Deslocamentos { entradas: Vec::new() };
        assert(d.lista().len() == 0);
        d
    }

    /// Maps `nome` to `offset`, replacing what it was mapped to.
    pub fn insert(&mut self, nome: String, offset: isize)
        ensures
            final(self)@ == old(self)@.insert(nome@, offset),
    {
        let ghost antes = self.lista();
        self.entradas.push((nome, offset));
        assert(self.lista().drop_last() =~= antes);
    }

    /// The offset that `nome` is mapped to, if any.
    pub fn get(&self, nome: &String) -> (r: Option<isize>)
        ensures
            r == consulta(self@, nome@),
    {
        let ghost s = self.lista();
        let mut i = self.entradas.len();
        while i > 0
            invariant
                i <= self.entradas.len(),
                s == self.lista(),
                forall|j: int| i <= j < s.len() ==> (#[trigger] s[j]).0 != nome@,
            decreases i,
        {
            let iguais = self.entradas[i - 1].0 == *nome;
            if iguais {
                proof {
                    lemma_mapa_ultimo(s, nome@, i as int);
                    assert(s.take(i as int).drop_last() =~= s.take(i - 1));
                }
                return Some(self.entradas[i - 1].1);
            }
            i = i - 1;
        }
        proof {
            lemma_mapa_ultimo(s, nome@, 0);
            assert(s.take(0) =~= Seq::<(Seq<char>, isize)>::empty());
        }
        None
    }
}

/// A read after a write: looking up the name just inserted gives the offset
/// written, and looking up any other name gives what it gave before.
pub proof fn lei_consulta_apos_insercao(
    m: Map<Seq<char>, isize>,
    nome: Seq<char>,
    offset: isize,
    outro: Seq<char>,
)
    ensures
        consulta(m.insert(nome, offset), nome) == Some(offset),
        outro != nome ==> consulta(m.insert(nome, offset), outro) == consulta(m, outro),
{
}

/// An operand in memory at `offset` from `rbp`: `[rbp-8]`, `[rbp+16]`.
pub open spec fn endereco_local(offset: isize) -> Seq<char> {
    "[rbp"@ + (if offset < 0 {
        seq!['-'] + decimal((-offset) as nat)
    } else {
        seq!['+'] + decimal(offset as nat)
    }) + "]"@
}

/// The instructions that combine `rax` (left) and `rbx` (right) by `op`.
pub open spec fn codigo_op(op: Seq<char>) -> Seq<char> {
    if op == seq!['+'] {
        "add rax, rbx\n"@
    } else if op == seq!['-'] {
        "sub rax, rbx\n"@
    } else if op == seq!['*'] {
        "imul rax, rbx\n"@
    } else if op == seq!['/'] {
        "cqo\n"@ + "idiv rbx\n"@
    } else if op == seq!['=', '='] {
        "xor rcx, rcx\n"@ + "cmp rax, rbx\n"@ + "setz cl\n"@ + "mov rax, rcx\n"@
    } else if op == seq!['<'] {
        "xor rcx, rcx\n"@ + "cmp rax, rbx\n"@ + "setl cl\n"@ + "mov rax, rcx\n"@
    } else {
        "xor rcx, rcx\n"@ + "cmp rax, rbx\n"@ + "setg cl\n"@ + "mov rax, rcx\n"@
    }
}

/// The code that leaves the value of `e` in `rax`, where `m` gives the
/// offsets of the names on the stack; other names are globals.
pub open spec fn codigo_expr(e: ExprS, m: Map<Seq<char>, isize>) -> Seq<char>
    decreases e,
{
    match e {
        ExprS::Const(v) => "mov rax, "@ + decimal_com_sinal(v as int) + "\n"@,
        ExprS::Var(n) => match consulta(m, n) {
            Some(o) => "mov rax, "@ + endereco_local(o) + "\n"@,
            None => "mov rax, ["@ + n + "]\n"@,
        },
        ExprS::OpBin { operador, esq, dir } => codigo_expr(*dir, m) + "push rax\n"@ + codigo_expr(
            *esq,
            m,
        ) + "pop rbx\n"@ + codigo_op(operador),
        ExprS::Call { nome, args } => codigo_args(args, m) + "call "@ + nome + "\n"@ + (if args.len()
            > 0 {
            "add rsp, "@ + decimal(args.len() * 8) + "\n"@
        } else {
            Seq::empty()
        }),
    }
}

/// The code that pushes the arguments, from the last to the first.
pub open spec fn codigo_args(args: Seq<ExprS>, m: Map<Seq<char>, isize>) -> Seq<char>
    decreases args,
{
    if args.len() == 0 {
        Seq::empty()
    } else {
        codigo_expr(args.last(), m) + "push rax\n"@ + codigo_args(args.drop_last(), m)
    }
}

/// The expression has only the operators of the language, and its calls
/// have few enough arguments that their size in bytes fits in a `usize`.
pub open spec fn expr_valida(e: ExprS) -> bool
    decreases e,
{
    match e {
        ExprS::Const(_) => true,
        ExprS::Var(_) => true,
        ExprS::OpBin { operador, esq, dir } => operador_valido(operador) && expr_valida(*esq)
            && expr_valida(*dir),
        ExprS::Call { nome, args } => args.len() * 8 <= usize::MAX && exprs_validas(args),
    }
}

pub open spec fn exprs_validas(s: Seq<ExprS>) -> bool
    decreases s,
{
    if s.len() == 0 {
        true
    } else {
        exprs_validas(s.drop_last()) && expr_valida(s.last())
    }
}

pub(crate) proof fn lemma_exprs_validas(s: Seq<ExprS>)
    requires
        exprs_validas(s),
    ensures
        forall|i: int| 0 <= i < s.len() ==> expr_valida(#[trigger] s[i]),
    decreases s.len(),
{
    if s.len() > 0 {
        lemma_exprs_validas(s.drop_last());
        assert forall|i: int| 0 <= i < s.len() implies expr_valida(#[trigger] s[i]) by {
            if i < s.len() - 1 {
                assert(s[i] == s.drop_last()[i]);
            }
        }
    }
}

/// Whether `s` is the one-character text `c`.
pub(crate) fn eh_texto1(s: &String, c: char) -> (r: bool)
    ensures
        r == (s@ == seq![c]),
{
    let t = s.as_str();
    if t.unicode_len() != 1 {
        return false;
    }
    let r = t.get_char(0) == c;
    proof {
        if r {
            assert(t@ =~= seq![c]);
        }
    }
    r
}

/// Whether `s` is the two-character text `c1 c2`.
pub(crate) fn eh_texto2(s: &String, c1: char, c2: char) -> (r: bool)
    ensures
        r == (s@ == seq![c1, c2]),
{
    let t = s.as_str();
    if t.unicode_len() != 2 {
        return false;
    }
    let r = t.get_char(0) == c1 && t.get_char(1) == c2;
    proof {
        if r {
            assert(t@ =~= seq![c1, c2]);
        }
    }
    r
}

/// Appends the operand in memory at `offset` from `rbp` to `s`.
fn escreve_endereco(s: &mut String, offset: isize)
    requires
        offset != isize::MIN,
    ensures
        final(s)@ == old(s)@ + endereco_local(offset),
{
    s.append("[rbp");
    let ghost meio = s@;
    if offset < 0 {
        empurra(s, '-');
        let a: u64 = (-offset) as u64;
        escreve_natural(s, a);
    } else {
        empurra(s, '+');
        let a: u64 = offset as u64;
        escreve_natural(s, a);
    }
    s.append("]");
    assert(final(s)@ =~= old(s)@ + endereco_local(offset));
}

/// Generates the code that leaves the value of `expr` in `rax`, where
/// `deslocamentos` gives the offsets of the names on the stack.
#[verifier::loop_isolation(false)]
pub fn gerar_expr(expr: &Expr, labels: &mut usize, deslocamentos: &Deslocamentos) -> (codigo:
    String)
    requires
        expr_valida(expr@),
        deslocamentos_validos(deslocamentos@),
    ensures
        codigo@ == codigo_expr(expr@, deslocamentos@),
        *final(labels) == *old(labels),
    decreases expr,
{
    match expr {
        Expr::Const(v) => {
            let mut codigo = String::from_str("mov rax, ");
            escreve_inteiro(&mut codigo, *v as i64);
            codigo.append("\n");
            codigo
        },
        Expr::Var(nome) => {
            match deslocamentos.get(nome) {
                Some(offset) => {
                    let mut codigo = String::from_str("mov rax, ");
                    escreve_endereco(&mut codigo, offset);
                    codigo.append("\n");
                    codigo
                },
                None => {
                    let mut codigo = String::from_str("mov rax, [");
                    codigo.append(nome.as_str());
                    codigo.append("]\n");
                    codigo
                },
            }
        },
        Expr::OpBin { operador, esq, dir } => {
            let mut codigo = gerar_expr(dir, labels, deslocamentos);
            codigo.append("push rax\n");
            let codigo_esq = gerar_expr(esq, labels, deslocamentos);
            codigo.append(codigo_esq.as_str());
            codigo.append("pop rbx\n");
            if eh_texto1(operador, '+') {
                codigo.append("add rax, rbx\n");
            } else if eh_texto1(operador, '-') {
                codigo.append("sub rax, rbx\n");
            } else if eh_texto1(operador, '*') {
                codigo.append("imul rax, rbx\n");
            } else if eh_texto1(operador, '/') {
                codigo.append("cqo\n");
                codigo.append("idiv rbx\n");
            } else if eh_texto2(operador, '=', '=') {
                codigo.append("xor rcx, rcx\n");
                codigo.append("cmp rax, rbx\n");
                codigo.append("setz cl\n");
                codigo.append("mov rax, rcx\n");
            } else if eh_texto1(operador, '<') {
                codigo.append("xor rcx, rcx\n");
                codigo.append("cmp rax, rbx\n");
                codigo.append("setl cl\n");
                codigo.append("mov rax, rcx\n");
            } else {
                codigo.append("xor rcx, rcx\n");
                codigo.append("cmp rax, rbx\n");
                codigo.append("setg cl\n");
                codigo.append("mov rax, rcx\n");
            }
            codigo
        },
        Expr::Call { nome, args } => {
            let ghost s = modelo_exprs(args@);
            proof {
                lemma_modelo_exprs_indices(args@);
                lemma_exprs_validas(s);
            }
            let mut codigo = String::new();
            let mut i = args.len();
            assert(s.take(i as int) =~= s);
            while i > 0
                invariant
                    i <= args.len(),
                    s == modelo_exprs(args@),
                    s.len() == args.len(),
                    forall|j: int| 0 <= j < s.len() ==> #[trigger] s[j] == args@[j]@,
                    forall|j: int| 0 <= j < s.len() ==> expr_valida(#[trigger] s[j]),
                    deslocamentos_validos(deslocamentos@),
                    *labels == *old(labels),
                    codigo_args(s, deslocamentos@) == codigo@ + codigo_args(
                        s.take(i as int),
                        deslocamentos@,
                    ),
                decreases i,
            {
                i = i - 1;
                let codigo_arg = gerar_expr(&args[i], labels, deslocamentos);
                proof {
                    assert(s.take(i + 1).drop_last() =~= s.take(i as int));
                    assert(s.take(i + 1).last() == s[i as int]);
                }
                codigo.append(codigo_arg.as_str());
                codigo.append("push rax\n");
                assert(codigo_args(s, deslocamentos@) =~= codigo@ + codigo_args(
                    s.take(i as int),
                    deslocamentos@,
                ));
            }
            assert(s.take(0) =~= Seq::<ExprS>::empty());
            codigo.append("call ");
            codigo.append(nome.as_str());
            codigo.append("\n");
            if args.len() > 0 {
                codigo.append("add rsp, ");
                escreve_natural(&mut codigo, (args.len() * 8) as u64);
                codigo.append("\n");
            }
            codigo
        },
    }
}

/// The instruction that stores `rax` in the variable `nome`.
pub open spec fn codigo_guarda(nome: Seq<char>, m: Map<Seq<char>, isize>) -> Seq<char> {
    match consulta(m, nome) {
        Some(o) => "mov "@ + endereco_local(o) + ", rax\n"@,
        None => "mov ["@ + nome + "], rax\n"@,
    }
}

/// The code of a command, whose labels are numbered from `l` on, and the
/// next label number after them.
pub open spec fn codigo_cmd(c: CmdS, l: int, m: Map<Seq<char>, isize>) -> (Seq<char>, int)
    decreases c,
{
    match c {
        CmdS::Atrib { nome, expr } => (codigo_expr(expr, m) + codigo_guarda(nome, m), l),
        CmdS::If { cond, then_cmds, else_cmds } => {
            let (ct, l1) = codigo_cmds(then_cmds, l + 2, m);
            let (ce, l2) = codigo_cmds(else_cmds, l1, m);
            (codigo_expr(cond, m) + "cmp rax, 0\n"@ + "je Lfalso"@ + decimal(l as nat) + "\n"@ + ct
                + "jmp Lfim"@ + decimal((l + 1) as nat) + "\n"@ + "Lfalso"@ + decimal(l as nat)
                + ":\n"@ + ce + "Lfim"@ + decimal((l + 1) as nat) + ":\n"@, l2)
        },
        CmdS::While { cond, body } => {
            let (cb, l1) = codigo_cmds(body, l + 2, m);
            ("Linicio"@ + decimal(l as nat) + ":\n"@ + codigo_expr(cond, m) + "cmp rax, 0\n"@
                + "je Lfim"@ + decimal((l + 1) as nat) + "\n"@ + cb + "jmp Linicio"@ + decimal(
                l as nat,
            ) + "\n"@ + "Lfim"@ + decimal((l + 1) as nat) + ":\n"@, l1)
        },
    }
}

/// The code of a sequence of commands, one after the other, and the next
/// label number after theirs.
pub open spec fn codigo_cmds(s: Seq<CmdS>, l: int, m: Map<Seq<char>, isize>) -> (Seq<char>, int)
    decreases s,
{
    if s.len() == 0 {
        (Seq::empty(), l)
    } else {
        let (a, l1) = codigo_cmds(s.drop_last(), l, m);
        let (b, l2) = codigo_cmd(s.last(), l1, m);
        (a + b, l2)
    }
}

/// How many `if` and `while` commands a command holds, itself included.
pub open spec fn rotulos_cmd(c: CmdS) -> nat
    decreases c,
{
    match c {
        CmdS::Atrib { .. } => 0,
        CmdS::If { cond, then_cmds, else_cmds } => 1 + rotulos_cmds(then_cmds) + rotulos_cmds(
            else_cmds,
        ),
        CmdS::While { cond, body } => 1 + rotulos_cmds(body),
    }
}

/// How many `if` and `while` commands a sequence of commands holds.
pub open spec fn rotulos_cmds(s: Seq<CmdS>) -> nat
    decreases s,
{
    if s.len() == 0 {
        0
    } else {
        rotulos_cmds(s.drop_last()) + rotulos_cmd(s.last())
    }
}

/// Every expression of the command is valid.
pub open spec fn cmd_valido(c: CmdS) -> bool
    decreases c,
{
    match c {
        CmdS::Atrib { nome, expr } => expr_valida(expr),
        CmdS::If { cond, then_cmds, else_cmds } => expr_valida(cond) && cmds_validos(then_cmds)
            && cmds_validos(else_cmds),
        CmdS::While { cond, body } => expr_valida(cond) && cmds_validos(body),
    }
}

pub open spec fn cmds_validos(s: Seq<CmdS>) -> bool
    decreases s,
{
    if s.len() == 0 {
        true
    } else {
        cmds_validos(s.drop_last()) && cmd_valido(s.last())
    }
}

pub(crate) proof fn lemma_cmds_validos(s: Seq<CmdS>)
    requires
        cmds_validos(s),
    ensures
        forall|i: int| 0 <= i < s.len() ==> cmd_valido(#[trigger] s[i]),
    decreases s.len(),
{
    if s.len() > 0 {
        lemma_cmds_validos(s.drop_last());
        assert forall|i: int| 0 <= i < s.len() implies cmd_valido(#[trigger] s[i]) by {
            if i < s.len() - 1 {
                assert(s[i] == s.drop_last()[i]);
            }
        }
    }
}

/// Each `if` and `while` takes two label numbers.
pub proof fn lemma_rotulos_cmd(c: CmdS, l: int, m: Map<Seq<char>, isize>)
    ensures
        codigo_cmd(c, l, m).1 == l + 2 * rotulos_cmd(c),
    decreases c,
{
    match c {
        CmdS::Atrib { .. } => {},
        CmdS::If { cond, then_cmds, else_cmds } => {
            lemma_rotulos_cmds(then_cmds, l + 2, m);
            lemma_rotulos_cmds(else_cmds, codigo_cmds(then_cmds, l + 2, m).1, m);
        },
        CmdS::While { cond, body } => {
            lemma_rotulos_cmds(body, l + 2, m);
        },
    }
}

pub proof fn lemma_rotulos_cmds(s: Seq<CmdS>, l: int, m: Map<Seq<char>, isize>)
    ensures
        codigo_cmds(s, l, m).1 == l + 2 * rotulos_cmds(s),
    decreases s,
{
    if s.len() > 0 {
        lemma_rotulos_cmds(s.drop_last(), l, m);
        lemma_rotulos_cmd(s.last(), codigo_cmds(s.drop_last(), l, m).1, m);
    }
}

pub(crate) proof fn lemma_rotulos_prefixo(s: Seq<CmdS>, i: int)
    requires
        0 <= i <= s.len(),
    ensures
        rotulos_cmds(s.take(i)) <= rotulos_cmds(s),
    decreases s.len(),
{
    if i < s.len() {
        lemma_rotulos_prefixo(s.drop_last(), i);
        assert(s.drop_last().take(i) =~= s.take(i));
    } else {
        assert(s.take(i) =~= s);
    }
}

/// Appends the code of the commands `cmds` to `codigo`.
#[verifier::loop_isolation(false)]
fn gerar_cmds(
    cmds: &Vec<Cmd>,
    codigo: &mut String,
    labels: &mut usize,
    deslocamentos: &Deslocamentos,
)
    requires
        cmds_validos(modelo_cmds(cmds@)),
        deslocamentos_validos(deslocamentos@),
        *old(labels) + 2 * rotulos_cmds(modelo_cmds(cmds@)) <= usize::MAX,
    ensures
        final(codigo)@ == old(codigo)@ + codigo_cmds(
            modelo_cmds(cmds@),
            *old(labels) as int,
            deslocamentos@,
        ).0,
        *final(labels) == codigo_cmds(modelo_cmds(cmds@), *old(labels) as int, deslocamentos@).1,
    decreases cmds@, 0int,
{
    let ghost s = modelo_cmds(cmds@);
    let ghost l0 = *labels as int;
    let ghost c0 = codigo@;
    proof {
        lemma_modelo_cmds_indices(cmds@);
        lemma_cmds_validos(s);
        lemma_rotulos_cmds(s, l0, deslocamentos@);
        assert(s.take(0) =~= Seq::<CmdS>::empty());
    }
    let mut i: usize = 0;
    while i < cmds.len()
        invariant
            i <= cmds.len(),
            codigo@ == c0 + codigo_cmds(s.take(i as int), l0, deslocamentos@).0,
            *labels == codigo_cmds(s.take(i as int), l0, deslocamentos@).1,
        decreases cmds.len() - i,
    {
        proof {
            assert(s.take(i + 1).drop_last() =~= s.take(i as int));
            assert(s.take(i + 1).last() == s[i as int]);
            lemma_rotulos_cmds(s.take(i as int), l0, deslocamentos@);
            lemma_rotulos_prefixo(s, i + 1);
        }
        let parte = gerar_cmd(&cmds[i], labels, deslocamentos);
        codigo.append(parte.as_str());
        i = i + 1;
        assert(codigo@ =~= c0 + codigo_cmds(s.take(i as int), l0, deslocamentos@).0);
    }
    assert(s.take(i as int) =~= s);
}

/// Generates the code of a command; its labels are numbered from `*labels`
/// on, and `*labels` ends after the last of them.
#[verifier::loop_isolation(false)]
pub fn gerar_cmd(cmd: &Cmd, labels: &mut usize, deslocamentos: &Deslocamentos) -> (codigo: String)
    requires
        cmd_valido(cmd@),
        deslocamentos_validos(deslocamentos@),
        *old(labels) + 2 * rotulos_cmd(cmd@) <= usize::MAX,
    ensures
        (codigo@, *final(labels) as int) == codigo_cmd(cmd@, *old(labels) as int, deslocamentos@),
    decreases cmd, 1int,
{
    proof {
        lemma_rotulos_cmd(cmd@, *labels as int, deslocamentos@);
    }
    match cmd {
        Cmd::Atrib { nome, expr } => {
            let mut codigo = gerar_expr(expr, labels, deslocamentos);
            match deslocamentos.get(nome) {
                Some(offset) => {
                    codigo.append("mov ");
                    escreve_endereco(&mut codigo, offset);
                    codigo.append(", rax\n");
                },
                None => {
                    codigo.append("mov [");
                    codigo.append(nome.as_str());
                    codigo.append("], rax\n");
                },
            }
            codigo
        },
        Cmd::If { cond, then_cmds, else_cmds } => {
            let l_falso = *labels;
            *labels = *labels + 1;
            let l_fim = *labels;
            *labels = *labels + 1;
            let mut codigo = gerar_expr(cond, labels, deslocamentos);
            codigo.append("cmp rax, 0\n");
            codigo.append("je Lfalso");
            escreve_natural(&mut codigo, l_falso as u64);
            codigo.append("\n");
            proof {
                lemma_rotulos_cmds(modelo_cmds(then_cmds@), *labels as int, deslocamentos@);
            }
            gerar_cmds(then_cmds, &mut codigo, labels, deslocamentos);
            codigo.append("jmp Lfim");
            escreve_natural(&mut codigo, l_fim as u64);
            codigo.append("\n");
            codigo.append("Lfalso");
            escreve_natural(&mut codigo, l_falso as u64);
            codigo.append(":\n");
            gerar_cmds(else_cmds, &mut codigo, labels, deslocamentos);
            codigo.append("Lfim");
            escreve_natural(&mut codigo, l_fim as u64);
            codigo.append(":\n");
            codigo
        },
        Cmd::While { cond, body } => {
            let l_ini = *labels;
            *labels = *labels + 1;
            let l_fim = *labels;
            *labels = *labels + 1;
            let mut codigo = String::from_str("Linicio");
            escreve_natural(&mut codigo, l_ini as u64);
            codigo.append(":\n");
            let codigo_cond = gerar_expr(cond, labels, deslocamentos);
            codigo.append(codigo_cond.as_str());
            codigo.append("cmp rax, 0\n");
            codigo.append("je Lfim");
            escreve_natural(&mut codigo, l_fim as u64);
            codigo.append("\n");
            gerar_cmds(body, &mut codigo, labels, deslocamentos);
            codigo.append("jmp Linicio");
            escreve_natural(&mut codigo, l_ini as u64);
            codigo.append("\n");
            codigo.append("Lfim");
            escreve_natural(&mut codigo, l_fim as u64);
            codigo.append(":\n");
            codigo
        },
    }
}

/// The code that initialises the local variables, in their order.
pub open spec fn codigo_inits(vs: Seq<(Seq<char>, ExprS)>, m: Map<Seq<char>, isize>) -> Seq<char>
    decreases vs.len(),
{
    if vs.len() == 0 {
        Seq::empty()
    } else {
        codigo_inits(vs.drop_last(), m) + codigo_expr(vs.last().1, m) + match consulta(
            m,
            vs.last().0,
        ) {
            Some(o) => "mov "@ + endereco_local(o) + ", rax\n"@,
            None => Seq::empty(),
        }
    }
}

/// `sub rsp, n` or `add rsp, n` for the `n` bytes of the local variables,
/// where there are any.
pub open spec fn ajuste_pilha(instrucao: Seq<char>, bytes: nat) -> Seq<char> {
    if bytes > 0 {
        instrucao + decimal(bytes) + "\n"@
    } else {
        Seq::empty()
    }
}

/// The code of a function, whose labels are numbered from `l` on, and the
/// next label number after them.
pub open spec fn codigo_funcao(f: FunDeclS, l: int) -> (Seq<char>, int) {
    let m = mapa_funcao(f);
    let bytes = f.variaveis.len() * 8;
    let (cs, l1) = codigo_cmds(f.comandos, l, m);
    ("\n"@ + f.nome + ":\n"@ + "push rbp\n"@ + "mov rbp, rsp\n"@ + ajuste_pilha("sub rsp, "@, bytes)
        + codigo_inits(f.variaveis, m) + cs + codigo_expr(f.retorno, m) + ajuste_pilha(
        "add rsp, "@,
        bytes,
    ) + "pop rbp\n"@ + "ret\n"@, l1)
}

/// The offsets of the parameters and local variables fit in an `isize`, and
/// every expression of the function is valid.
pub open spec fn funcao_valida(f: FunDeclS) -> bool {
    &&& 16 + 8 * f.parametros.len() <= isize::MAX
    &&& 8 + 8 * f.variaveis.len() <= isize::MAX + 1
    &&& forall|j: int| 0 <= j < f.variaveis.len() ==> expr_valida(#[trigger] f.variaveis[j].1)
    &&& cmds_validos(f.comandos)
    &&& expr_valida(f.retorno)
}

proof fn lemma_mapa_funcao_valido(f: FunDeclS)
    requires
        funcao_valida(f),
    ensures
        deslocamentos_validos(mapa_funcao(f)),
{
    let e = entradas_funcao(f);
    let n = f.parametros.len();
    assert forall|j: int| 0 <= j < e.len() implies isize::MIN + 1 <= (#[trigger] e[j]).1
        <= isize::MAX by {
        if j < n {
            assert(e[j].1 == 16 + 8 * j);
        } else {
            assert(e[j].1 == -8 - 8 * (j - n));
        }
    }
    lemma_mapa_valores(e, isize::MIN + 1, isize::MAX as int);
}

/// The offsets from `rbp` of the parameters and local variables of `func`.
fn deslocamentos_funcao(func: &FunDecl) -> (d: Deslocamentos)
    requires
        funcao_valida(func@),
    ensures
        d@ == mapa_funcao(func@),
{
    let ghost f = func@;
    let ghost e = entradas_funcao(f);
    let ghost n = func.parametros.len() as int;
    let mut deslocamentos = Deslocamentos::new();
    let mut offset: isize = 16;
    assert(e.take(0) =~= Seq::<(Seq<char>, isize)>::empty());
    let mut i: usize = 0;
    while i < func.parametros.len()
        invariant
            f == func@,
            e == entradas_funcao(f),
            n == func.parametros.len(),
            16 + 8 * n <= isize::MAX,
            i <= n,
            offset == 16 + 8 * i,
            deslocamentos@ == mapa(e.take(i as int)),
        decreases n - i,
    {
        let nome = func.parametros[i].clone();
        deslocamentos.insert(nome, offset);
        offset = offset + 8;
        proof {
            assert(e.take(i + 1).drop_last() =~= e.take(i as int));
            assert(e.take(i + 1).last() == e[i as int]);
        }
        i = i + 1;
    }
    let mut var_offset: isize = -8;
    let mut j: usize = 0;
    while j < func.variaveis.len()
        invariant
            f == func@,
            e == entradas_funcao(f),
            n == func.parametros.len(),
            8 + 8 * func.variaveis.len() <= isize::MAX + 1,
            j <= func.variaveis.len(),
            var_offset == -8 - 8 * j,
            deslocamentos@ == mapa(e.take(n + j)),
        decreases func.variaveis.len() - j,
    {
        let nome = func.variaveis[j].0.clone();
        deslocamentos.insert(nome, var_offset);
        var_offset = var_offset - 8;
        proof {
            assert(e.take(n + j + 1).drop_last() =~= e.take(n + j));
            assert(e.take(n + j + 1).last() == e[n + j]);
        }
        j = j + 1;
    }
    assert(e.take(n + j) =~= e);
    deslocamentos
}

/// Generates the code of a function: the prologue, the local variables, the
/// commands, the return value in `rax`, and the epilogue.
pub fn gerar_funcao(func: &FunDecl, labels: &mut usize) -> (codigo: String)
    requires
        funcao_valida(func@),
        *old(labels) + 2 * rotulos_cmds(func@.comandos) <= usize::MAX,
    ensures
        (codigo@, *final(labels) as int) == codigo_funcao(func@, *old(labels) as int),
{
    let ghost f = func@;
    let mut codigo = String::new();
    let deslocamentos = deslocamentos_funcao(func);
    let ghost m = mapa_funcao(f);
    proof {
        lemma_mapa_funcao_valido(f);
    }
    codigo.append("\n");
    codigo.append(func.nome.as_str());
    codigo.append(":\n");
    codigo.append("push rbp\n");
    codigo.append("mov rbp, rsp\n");
    let tamanho_stack = func.variaveis.len() * 8;
    if tamanho_stack > 0 {
        codigo.append("sub rsp, ");
        escreve_natural(&mut codigo, tamanho_stack as u64);
        codigo.append("\n");
    }
    let ghost prefixo = codigo@;
    let ghost vs = f.variaveis;
    assert(vs.take(0) =~= Seq::<(Seq<char>, ExprS)>::empty());
    let mut k: usize = 0;
    while k < func.variaveis.len()
        invariant
            f == func@,
            m == mapa_funcao(f),
            vs == f.variaveis,
            deslocamentos@ == m,
            deslocamentos_validos(m),
            funcao_valida(f),
            k <= func.variaveis.len(),
            *labels == *old(labels),
            codigo@ == prefixo + codigo_inits(vs.take(k as int), m),
        decreases func.variaveis.len() - k,
    {
        assert(vs[k as int].1 == func.variaveis@[k as int].1@);
        let parte = gerar_expr(&func.variaveis[k].1, labels, &deslocamentos);
        codigo.append(parte.as_str());
        match deslocamentos.get(&func.variaveis[k].0) {
            Some(o) => {
                codigo.append("mov ");
                escreve_endereco(&mut codigo, o);
                codigo.append(", rax\n");
            },
            None => {},
        }
        proof {
            assert(vs.take(k + 1).drop_last() =~= vs.take(k as int));
            assert(vs.take(k + 1).last() == vs[k as int]);
        }
        k = k + 1;
        assert(codigo@ =~= prefixo + codigo_inits(vs.take(k as int), m));
    }
    assert(vs.take(k as int) =~= vs);
    gerar_cmds(&func.comandos, &mut codigo, labels, &deslocamentos);
    let codigo_retorno = gerar_expr(&func.retorno, labels, &deslocamentos);
    codigo.append(codigo_retorno.as_str());
    if tamanho_stack > 0 {
        codigo.append("add rsp, ");
        escreve_natural(&mut codigo, tamanho_stack as u64);
        codigo.append("\n");
    }
    codigo.append("pop rbp\n");
    codigo.append("ret\n");
    assert(codigo@ =~= codigo_funcao(f, *old(labels) as int).0);
    codigo
}

/// The `.bss` reservations of the global variables.
pub open spec fn codigo_bss(gs: Seq<(Seq<char>, ExprS)>) -> Seq<char>
    decreases gs.len(),
{
    if gs.len() == 0 {
        Seq::empty()
    } else {
        codigo_bss(gs.drop_last()) + gs.last().0 + ": resq 1\n"@
    }
}

/// The code that initialises the global variables, in their order.
pub open spec fn codigo_globais(gs: Seq<(Seq<char>, ExprS)>) -> Seq<char>
    decreases gs.len(),
{
    if gs.len() == 0 {
        Seq::empty()
    } else {
        codigo_globais(gs.drop_last()) + codigo_expr(gs.last().1, Map::empty()) + "mov ["@
            + gs.last().0 + "], rax\n"@
    }
}

/// The code of the functions, one after the other, and the next label
/// number after theirs.
pub open spec fn codigo_funcoes(fs: Seq<FunDeclS>, l: int) -> (Seq<char>, int)
    decreases fs.len(),
{
    if fs.len() == 0 {
        (Seq::empty(), l)
    } else {
        let (a, l1) = codigo_funcoes(fs.drop_last(), l);
        let (b, l2) = codigo_funcao(fs.last(), l1);
        (a + b, l2)
    }
}

/// How many `if` and `while` commands the functions hold.
pub open spec fn rotulos_funcoes(fs: Seq<FunDeclS>) -> nat
    decreases fs.len(),
{
    if fs.len() == 0 {
        0
    } else {
        rotulos_funcoes(fs.drop_last()) + rotulos_cmds(fs.last().comandos)
    }
}

/// How many `if` and `while` commands the program holds.
pub open spec fn rotulos_programa(p: ProgramaS) -> nat {
    rotulos_funcoes(p.funcoes) + rotulos_cmds(p.principal)
}

/// The assembly of a whole program: `.bss` for the globals, the functions,
/// then `_start`, which initialises the globals, runs the main commands and
/// exits with the value of the main return expression.
pub open spec fn codigo_programa(p: ProgramaS) -> Seq<char> {
    let (cf, l1) = codigo_funcoes(p.funcoes, 0);
    let (cc, l2) = codigo_cmds(p.principal, l1, Map::empty());
    "section .bss\n"@ + codigo_bss(p.globais) + "section .text\n"@ + "global _start\n"@ + cf
        + "\n_start:\n"@ + codigo_globais(p.globais) + cc + codigo_expr(p.retorno, Map::empty())
        + "mov rdi, rax\n"@ + "mov rax, 60\n"@ + "syscall\n"@
}

/// What code generation needs of a program: valid expressions, offsets that
/// fit in an `isize`, and label numbers that fit in a `usize`.
pub open spec fn programa_valido(p: ProgramaS) -> bool {
    &&& forall|j: int| 0 <= j < p.globais.len() ==> expr_valida(#[trigger] p.globais[j].1)
    &&& forall|j: int| 0 <= j < p.funcoes.len() ==> funcao_valida(#[trigger] p.funcoes[j])
    &&& cmds_validos(p.principal)
    &&& expr_valida(p.retorno)
    &&& 2 * rotulos_programa(p) <= usize::MAX
}

pub proof fn lemma_rotulos_funcoes(fs: Seq<FunDeclS>, l: int)
    ensures
        codigo_funcoes(fs, l).1 == l + 2 * rotulos_funcoes(fs),
    decreases fs.len(),
{
    if fs.len() > 0 {
        lemma_rotulos_funcoes(fs.drop_last(), l);
        lemma_rotulos_cmds(
            fs.last().comandos,
            codigo_funcoes(fs.drop_last(), l).1,
            mapa_funcao(fs.last()),
        );
    }
}

pub(crate) proof fn lemma_rotulos_funcoes_prefixo(fs: Seq<FunDeclS>, i: int)
    requires
        0 <= i <= fs.len(),
    ensures
        rotulos_funcoes(fs.take(i)) <= rotulos_funcoes(fs),
    decreases fs.len(),
{
    if i < fs.len() {
        lemma_rotulos_funcoes_prefixo(fs.drop_last(), i);
        assert(fs.drop_last().take(i) =~= fs.take(i));
    } else {
        assert(fs.take(i) =~= fs);
    }
}

/// Generates the assembly of a whole program.
pub fn gerar_codigo(prog: &Programa) -> (codigo: String)
    requires
        programa_valido(prog@),
    ensures
        codigo@ == codigo_programa(prog@),
{
    let ghost p = prog@;
    let mut codigo = String::new();
    let mut labels: usize = 0;
    codigo.append("section .bss\n");
    let ghost gs = p.globais;
    let ghost c0 = codigo@;
    assert(gs.take(0) =~= Seq::<(Seq<char>, ExprS)>::empty());
    let mut i: usize = 0;
    while i < prog.globais.len()
        invariant
            p == prog@,
            gs == p.globais,
            i <= prog.globais.len(),
            codigo@ == c0 + codigo_bss(gs.take(i as int)),
        decreases prog.globais.len() - i,
    {
        codigo.append(prog.globais[i].0.as_str());
        codigo.append(": resq 1\n");
        proof {
            assert(gs.take(i + 1).drop_last() =~= gs.take(i as int));
            assert(gs.take(i + 1).last() == gs[i as int]);
        }
        i = i + 1;
        assert(codigo@ =~= c0 + codigo_bss(gs.take(i as int)));
    }
    assert(gs.take(i as int) =~= gs);
    codigo.append("section .text\n");
    codigo.append("global _start\n");
    let ghost fs = p.funcoes;
    let ghost c1 = codigo@;
    assert(fs.take(0) =~= Seq::<FunDeclS>::empty());
    proof {
        lemma_rotulos_funcoes(fs, 0);
    }
    let mut k: usize = 0;
    while k < prog.funcoes.len()
        invariant
            p == prog@,
            fs == p.funcoes,
            programa_valido(p),
            k <= prog.funcoes.len(),
            codigo@ == c1 + codigo_funcoes(fs.take(k as int), 0).0,
            labels == codigo_funcoes(fs.take(k as int), 0).1,
        decreases prog.funcoes.len() - k,
    {
        proof {
            assert(fs.take(k + 1).drop_last() =~= fs.take(k as int));
            assert(fs.take(k + 1).last() == fs[k as int]);
            lemma_rotulos_funcoes(fs.take(k as int), 0);
            lemma_rotulos_funcoes_prefixo(fs, k + 1);
            assert(fs[k as int] == prog.funcoes@[k as int]@);
        }
        let parte = gerar_funcao(&prog.funcoes[k], &mut labels);
        codigo.append(parte.as_str());
        k = k + 1;
        assert(codigo@ =~= c1 + codigo_funcoes(fs.take(k as int), 0).0);
    }
    assert(fs.take(k as int) =~= fs);
    codigo.append("\n_start:\n");
    let vazio = Deslocamentos::new();
    let ghost c2 = codigo@;
    assert(gs.take(0) =~= Seq::<(Seq<char>, ExprS)>::empty());
    let mut j: usize = 0;
    while j < prog.globais.len()
        invariant
            p == prog@,
            gs == p.globais,
            programa_valido(p),
            vazio@ == Map::<Seq<char>, isize>::empty(),
            j <= prog.globais.len(),
            labels == codigo_funcoes(fs, 0).1,
            codigo@ == c2 + codigo_globais(gs.take(j as int)),
        decreases prog.globais.len() - j,
    {
        assert(gs[j as int].1 == prog.globais@[j as int].1@);
        let parte = gerar_expr(&prog.globais[j].1, &mut labels, &vazio);
        codigo.append(parte.as_str());
        codigo.append("mov [");
        codigo.append(prog.globais[j].0.as_str());
        codigo.append("], rax\n");
        proof {
            assert(gs.take(j + 1).drop_last() =~= gs.take(j as int));
            assert(gs.take(j + 1).last() == gs[j as int]);
        }
        j = j + 1;
        assert(codigo@ =~= c2 + codigo_globais(gs.take(j as int)));
    }
    assert(gs.take(j as int) =~= gs);
    gerar_cmds(&prog.principal, &mut codigo, &mut labels, &vazio);
    let codigo_retorno = gerar_expr(&prog.retorno, &mut labels, &vazio);
    codigo.append(codigo_retorno.as_str());
    codigo.append("mov rdi, rax\n");
    codigo.append("mov rax, 60\n");
    codigo.append("syscall\n");
    assert(codigo@ =~= codigo_programa(p));
    codigo
}

} // verus!
