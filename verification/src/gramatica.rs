//! What the parser reads from a text: the grammar of Fun, stated over the
//! characters of the input and a position in them.
//!
//! Every function here takes the whole input `s` and a position `p` and says
//! what is read from `p` on: the value and the position after it, or the
//! error message and the position at which reading stopped, or that an
//! integer constant does not fit in an `i32`.
use vstd::prelude::*;
use crate::ast::{CmdS, ExprS, FunDeclS, ProgramaS};
use crate::caracteres::{eh_alfanum, eh_digito, eh_espaco, eh_letra, valor_digito};

verus! {

/// The outcome of reading from a position.
pub enum Saida<T> {
    /// A value was read; reading ended at the position.
    Lido(T, int),
    /// Reading failed with the message; it stopped at the position.
    Erro(Seq<char>, int),
    /// An integer constant does not fit in an `i32`.
    Estouro,
}

/// The binary operators that the grammar produces.
pub open spec fn operador_valido(op: Seq<char>) -> bool {
    ||| op == seq!['+']
    ||| op == seq!['-']
    ||| op == seq!['*']
    ||| op == seq!['/']
    ||| op == seq!['=', '=']
    ||| op == seq!['<']
    ||| op == seq!['>']
}

/// The first position at or after `p` that does not hold whitespace.
pub open spec fn pula_espacos(s: Seq<char>, p: int) -> int
    decreases s.len() - p,
{
    if 0 <= p < s.len() && eh_espaco(s[p]) {
        pula_espacos(s, p + 1)
    } else {
        p
    }
}

pub proof fn lemma_pula_espacos(s: Seq<char>, p: int)
    requires
        0 <= p <= s.len(),
    ensures
        p <= pula_espacos(s, p) <= s.len(),
        forall|i: int| p <= i < pula_espacos(s, p) ==> eh_espaco(#[trigger] s[i]),
        pula_espacos(s, p) < s.len() ==> !eh_espaco(s[pula_espacos(s, p)]),
    decreases s.len() - p,
{
    if p < s.len() && eh_espaco(s[p]) {
        lemma_pula_espacos(s, p + 1);
    }
}

/// The next character that is not whitespace, if any, without reading it.
pub open spec fn espia(s: Seq<char>, p: int) -> Option<char> {
    let q = pula_espacos(s, p);
    if 0 <= q < s.len() {
        Some(s[q])
    } else {
        None
    }
}

/// Reads the next character that is not whitespace, and the whitespace before it.
pub open spec fn proximo(s: Seq<char>, p: int) -> (Option<char>, int) {
    let q = pula_espacos(s, p);
    if 0 <= q < s.len() {
        (Some(s[q]), q + 1)
    } else {
        (None, q)
    }
}

pub proof fn lemma_proximo(s: Seq<char>, p: int)
    requires
        0 <= p <= s.len(),
    ensures
        p <= proximo(s, p).1 <= s.len(),
        proximo(s, p).0 is Some ==> p < proximo(s, p).1,
        proximo(s, p).0 == espia(s, p),
{
    lemma_pula_espacos(s, p);
}

/// Reads the keyword `kw` after whitespace, where it is not the start of a
/// longer identifier; the position is unchanged when it is not there.
pub open spec fn palavra(s: Seq<char>, p: int, kw: Seq<char>) -> (bool, int) {
    let q = pula_espacos(s, p);
    let f = q + kw.len();
    if 0 <= q && f <= s.len() && s.subrange(q, f) == kw && !(f < s.len() && eh_alfanum(s[f])) {
        (true, f)
    } else {
        (false, p)
    }
}

pub proof fn lemma_palavra(s: Seq<char>, p: int, kw: Seq<char>)
    requires
        0 <= p <= s.len(),
        kw.len() > 0,
    ensures
        palavra(s, p, kw).0 ==> p < palavra(s, p, kw).1 <= s.len(),
        !palavra(s, p, kw).0 ==> palavra(s, p, kw).1 == p,
{
    lemma_pula_espacos(s, p);
}

/// `'c'`: the character between quotes.
pub open spec fn entre_aspas(c: Seq<char>) -> Seq<char> {
    seq!['\''] + c + seq!['\'']
}

/// Reads the character `ch`.
pub open spec fn espera(s: Seq<char>, p: int, ch: char) -> Saida<()> {
    let (o, q) = proximo(s, p);
    match o {
        Some(c) => if c == ch {
            Saida::Lido((), q)
        } else {
            Saida::Erro(
                "Esperado "@ + entre_aspas(seq![ch]) + ", mas encontrou "@ + entre_aspas(seq![c]),
                q,
            )
        },
        None => Saida::Erro("Esperado "@ + entre_aspas(seq![ch]) + ", mas fim da entrada"@, q),
    }
}

pub proof fn lemma_espera(s: Seq<char>, p: int, ch: char)
    requires
        0 <= p <= s.len(),
    ensures
        espera(s, p, ch) matches Saida::Lido(_, q) ==> p < q <= s.len(),
        espera(s, p, ch) matches Saida::Erro(_, q) ==> p <= q <= s.len(),
        espera(s, p, ch) !is Estouro,
{
    lemma_proximo(s, p);
}

/// Reads the keyword `kw`, which must be there.
pub open spec fn espera_palavra(s: Seq<char>, p: int, kw: Seq<char>) -> Saida<()> {
    let (b, q) = palavra(s, p, kw);
    if b {
        Saida::Lido((), q)
    } else {
        Saida::Erro("Esperado "@ + entre_aspas(kw), p)
    }
}

/// The letters and digits that continue an identifier from `p`, each after
/// any whitespace, appended to `acc`.
pub open spec fn resto_nome(s: Seq<char>, p: int, acc: Seq<char>) -> (Seq<char>, int)
    decreases s.len() - p,
{
    let q = pula_espacos(s, p);
    if p <= q < s.len() && eh_alfanum(s[q]) {
        resto_nome(s, q + 1, acc.push(s[q]))
    } else {
        (acc, p)
    }
}

pub proof fn lemma_resto_nome(s: Seq<char>, p: int, acc: Seq<char>)
    requires
        0 <= p <= s.len(),
    ensures
        p <= resto_nome(s, p, acc).1 <= s.len(),
        resto_nome(s, p, acc).0.len() >= acc.len(),
        resto_nome(s, p, acc).0.subrange(0, acc.len() as int) == acc,
        forall|i: int|
            acc.len() <= i < resto_nome(s, p, acc).0.len() ==> eh_alfanum(
                #[trigger] resto_nome(s, p, acc).0[i],
            ),
    decreases s.len() - p,
{
    lemma_pula_espacos(s, p);
    let q = pula_espacos(s, p);
    if p <= q < s.len() && eh_alfanum(s[q]) {
        lemma_resto_nome(s, q + 1, acc.push(s[q]));
        let r = resto_nome(s, q + 1, acc.push(s[q])).0;
        assert(r[acc.len() as int] == r.subrange(0, acc.len() + 1int)[acc.len() as int]);
        assert(r.subrange(0, acc.len() as int) == r.subrange(0, acc.len() + 1int).subrange(
            0,
            acc.len() as int,
        ));
    } else {
        assert(acc.subrange(0, acc.len() as int) =~= acc);
    }
}

/// Reads an identifier: a letter, then letters and digits. At the end of the
/// input the identifier is empty.
pub open spec fn nome(s: Seq<char>, p: int) -> Saida<Seq<char>> {
    let q = pula_espacos(s, p);
    if 0 <= q < s.len() {
        if eh_letra(s[q]) {
            let (n, r) = resto_nome(s, q + 1, seq![s[q]]);
            Saida::Lido(n, r)
        } else {
            Saida::Erro("Esperado identificador"@, p)
        }
    } else {
        Saida::Lido(Seq::empty(), p)
    }
}

pub proof fn lemma_nome(s: Seq<char>, p: int)
    requires
        0 <= p <= s.len(),
    ensures
        nome(s, p) matches Saida::Lido(_, q) ==> p <= q <= s.len(),
        nome(s, p) matches Saida::Erro(_, q) ==> q == p,
        nome(s, p) !is Estouro,
{
    lemma_pula_espacos(s, p);
    let q = pula_espacos(s, p);
    if 0 <= q < s.len() && eh_letra(s[q]) {
        lemma_resto_nome(s, q + 1, seq![s[q]]);
    }
}

/// The value of the digits from `p` on, each after any whitespace, read
/// after the value `acc`.
pub open spec fn resto_digitos(s: Seq<char>, p: int, acc: int) -> (int, int)
    decreases s.len() - p,
{
    let q = pula_espacos(s, p);
    if p <= q < s.len() && eh_digito(s[q]) {
        resto_digitos(s, q + 1, acc * 10 + valor_digito(s[q]))
    } else {
        (acc, p)
    }
}

pub proof fn lemma_resto_digitos(s: Seq<char>, p: int, acc: int)
    requires
        0 <= p <= s.len(),
        acc >= 0,
    ensures
        p <= resto_digitos(s, p, acc).1 <= s.len(),
        resto_digitos(s, p, acc).0 >= acc,
    decreases s.len() - p,
{
    lemma_pula_espacos(s, p);
    let q = pula_espacos(s, p);
    if p <= q < s.len() && eh_digito(s[q]) {
        lemma_resto_digitos(s, q + 1, acc * 10 + valor_digito(s[q]));
    }
}

/// Reads an integer constant.
pub open spec fn constante(s: Seq<char>, p: int) -> Saida<ExprS> {
    let (v, q) = resto_digitos(s, p, 0);
    if v > i32::MAX {
        Saida::Estouro
    } else {
        Saida::Lido(ExprS::Const(v as i32), q)
    }
}

/// Whether a position read by a part of the grammar lies between `p` and the end.
pub open spec fn entre(p: int, q: int, s: Seq<char>) -> bool {
    p <= q <= s.len()
}

/// Reads an expression: additive expressions joined, from the left, by
/// `==`, `<` and `>`.
pub open spec fn expr(s: Seq<char>, p: int) -> Saida<ExprS>
    decreases s.len() - p, 8int,
{
    match exp_a(s, p) {
        Saida::Lido(e, q) => if entre(p, q, s) {
            resto_expr(s, q, e)
        } else {
            Saida::Estouro
        },
        Saida::Erro(m, q) => Saida::Erro(m, q),
        Saida::Estouro => Saida::Estouro,
    }
}

/// The comparisons that follow the expression `acc` at `p`.
pub open spec fn resto_expr(s: Seq<char>, p: int, acc: ExprS) -> Saida<ExprS>
    decreases s.len() - p, 7int,
{
    if !(0 <= p <= s.len()) {
        Saida::Estouro
    } else {
        match espia(s, p) {
            Some(c) => if c == '=' {
                let p1 = proximo(s, p).1;
                let (c2, p2) = proximo(s, p1);
                if c2 == Some('=') {
                    proof {
                        lemma_proximo(s, p);
                        lemma_proximo(s, p1);
                    }
                    mais_comparacao(s, p, p2, seq!['=', '='], acc)
                } else {
                    Saida::Erro("Erro: operador = mal formado"@, p2)
                }
            } else if c == '<' || c == '>' {
                proof {
                    lemma_proximo(s, p);
                }
                mais_comparacao(s, p, proximo(s, p).1, seq![c], acc)
            } else {
                Saida::Lido(acc, p)
            },
            None => Saida::Lido(acc, p),
        }
    }
}

/// After the operator `op` read between `p` and `p1`: the right operand and
/// the comparisons after it.
pub open spec fn mais_comparacao(s: Seq<char>, p: int, p1: int, op: Seq<char>, acc: ExprS) -> Saida<
    ExprS,
>
    decreases s.len() - p, 6int,
{
    if !(p < p1 <= s.len()) {
        Saida::Estouro
    } else {
        match exp_a(s, p1) {
            Saida::Lido(d, q) => if entre(p1, q, s) {
                resto_expr(
                    s,
                    q,
                    ExprS::OpBin { operador: op, esq: Box::new(acc), dir: Box::new(d) },
                )
            } else {
                Saida::Estouro
            },
            Saida::Erro(m, q) => Saida::Erro(m, q),
            Saida::Estouro => Saida::Estouro,
        }
    }
}

/// Reads an additive expression: terms joined, from the left, by `+` and `-`.
pub open spec fn exp_a(s: Seq<char>, p: int) -> Saida<ExprS>
    decreases s.len() - p, 5int,
{
    match exp_m(s, p) {
        Saida::Lido(e, q) => if entre(p, q, s) {
            resto_a(s, q, e)
        } else {
            Saida::Estouro
        },
        Saida::Erro(m, q) => Saida::Erro(m, q),
        Saida::Estouro => Saida::Estouro,
    }
}

/// The `+` and `-` terms that follow `acc` at `p`.
pub open spec fn resto_a(s: Seq<char>, p: int, acc: ExprS) -> Saida<ExprS>
    decreases s.len() - p, 4int,
{
    if !(0 <= p <= s.len()) {
        Saida::Estouro
    } else {
        match espia(s, p) {
            Some(c) => if c == '+' || c == '-' {
                let p1 = proximo(s, p).1;
                proof {
                    lemma_proximo(s, p);
                }
                match exp_m(s, p1) {
                    Saida::Lido(d, q) => if entre(p1, q, s) {
                        resto_a(
                            s,
                            q,
                            ExprS::OpBin { operador: seq![c], esq: Box::new(acc), dir: Box::new(d) },
                        )
                    } else {
                        Saida::Estouro
                    },
                    Saida::Erro(m, q) => Saida::Erro(m, q),
                    Saida::Estouro => Saida::Estouro,
                }
            } else {
                Saida::Lido(acc, p)
            },
            None => Saida::Lido(acc, p),
        }
    }
}

/// Reads a multiplicative expression: primaries joined, from the left, by `*` and `/`.
pub open spec fn exp_m(s: Seq<char>, p: int) -> Saida<ExprS>
    decreases s.len() - p, 3int,
{
    match prim(s, p) {
        Saida::Lido(e, q) => if entre(p, q, s) {
            resto_m(s, q, e)
        } else {
            Saida::Estouro
        },
        Saida::Erro(m, q) => Saida::Erro(m, q),
        Saida::Estouro => Saida::Estouro,
    }
}

/// The `*` and `/` factors that follow `acc` at `p`.
pub open spec fn resto_m(s: Seq<char>, p: int, acc: ExprS) -> Saida<ExprS>
    decreases s.len() - p, 2int,
{
    if !(0 <= p <= s.len()) {
        Saida::Estouro
    } else {
        match espia(s, p) {
            Some(c) => if c == '*' || c == '/' {
                let p1 = proximo(s, p).1;
                proof {
                    lemma_proximo(s, p);
                }
                match prim(s, p1) {
                    Saida::Lido(d, q) => if entre(p1, q, s) {
                        resto_m(
                            s,
                            q,
                            ExprS::OpBin { operador: seq![c], esq: Box::new(acc), dir: Box::new(d) },
                        )
                    } else {
                        Saida::Estouro
                    },
                    Saida::Erro(m, q) => Saida::Erro(m, q),
                    Saida::Estouro => Saida::Estouro,
                }
            } else {
                Saida::Lido(acc, p)
            },
            None => Saida::Lido(acc, p),
        }
    }
}

/// Reads a primary expression: a constant, a variable, a call, or an
/// expression between parentheses.
pub open spec fn prim(s: Seq<char>, p: int) -> Saida<ExprS>
    decreases s.len() - p, 1int,
{
    if !(0 <= p <= s.len()) {
        Saida::Estouro
    } else {
        match espia(s, p) {
            Some(c) => if eh_digito(c) {
                constante(s, p)
            } else if eh_letra(c) {
                match nome(s, p) {
                    Saida::Lido(n, p1) => {
                        proof {
                            lemma_nome(s, p);
                            lemma_pula_espacos(s, p);
                        }
                        if espia(s, p1) == Some('(') {
                            let p2 = proximo(s, p1).1;
                            proof {
                                lemma_proximo(s, p1);
                            }
                            chamada(s, p, p2, n)
                        } else {
                            Saida::Lido(ExprS::Var(n), p1)
                        }
                    },
                    Saida::Erro(m, q) => Saida::Erro(m, q),
                    Saida::Estouro => Saida::Estouro,
                }
            } else if c == '(' {
                let p1 = proximo(s, p).1;
                proof {
                    lemma_proximo(s, p);
                }
                match expr(s, p1) {
                    Saida::Lido(e, q) => match espera(s, q, ')') {
                        Saida::Lido(_, r) => Saida::Lido(e, r),
                        Saida::Erro(m, r) => Saida::Erro(m, r),
                        Saida::Estouro => Saida::Estouro,
                    },
                    Saida::Erro(m, q) => Saida::Erro(m, q),
                    Saida::Estouro => Saida::Estouro,
                }
            } else {
                Saida::Erro("Token inesperado: "@ + entre_aspas(seq![c]), p)
            },
            None => Saida::Erro("Fim inesperado"@, p),
        }
    }
}

/// The arguments of a call of `n`, after its `(` ends at `p1`, and the `)`.
pub open spec fn chamada(s: Seq<char>, p: int, p1: int, n: Seq<char>) -> Saida<ExprS>
    decreases s.len() - p, 0int,
{
    if !(p < p1 <= s.len()) {
        Saida::Estouro
    } else if espia(s, p1) != Some(')') {
        match expr(s, p1) {
            Saida::Lido(a, q) => if entre(p1, q, s) {
                match resto_args(s, q, seq![a]) {
                    Saida::Lido(args, r) => match espera(s, r, ')') {
                        Saida::Lido(_, t) => Saida::Lido(ExprS::Call { nome: n, args }, t),
                        Saida::Erro(m, t) => Saida::Erro(m, t),
                        Saida::Estouro => Saida::Estouro,
                    },
                    Saida::Erro(m, r) => Saida::Erro(m, r),
                    Saida::Estouro => Saida::Estouro,
                }
            } else {
                Saida::Estouro
            },
            Saida::Erro(m, q) => Saida::Erro(m, q),
            Saida::Estouro => Saida::Estouro,
        }
    } else {
        match espera(s, p1, ')') {
            Saida::Lido(_, t) => Saida::Lido(ExprS::Call { nome: n, args: Seq::empty() }, t),
            Saida::Erro(m, t) => Saida::Erro(m, t),
            Saida::Estouro => Saida::Estouro,
        }
    }
}

/// The arguments after `acc`, each after a `,`.
pub open spec fn resto_args(s: Seq<char>, p: int, acc: Seq<ExprS>) -> Saida<Seq<ExprS>>
    decreases s.len() - p, 0int,
{
    if !(0 <= p <= s.len()) {
        Saida::Estouro
    } else if espia(s, p) == Some(',') {
        let p1 = proximo(s, p).1;
        proof {
            lemma_proximo(s, p);
        }
        match expr(s, p1) {
            Saida::Lido(a, q) => if entre(p1, q, s) {
                resto_args(s, q, acc.push(a))
            } else {
                Saida::Estouro
            },
            Saida::Erro(m, q) => Saida::Erro(m, q),
            Saida::Estouro => Saida::Estouro,
        }
    } else {
        Saida::Lido(acc, p)
    }
}

/// Whether a position read by a part of the grammar lies after `p` and not
/// after the end.
pub open spec fn avanca(p: int, q: int, s: Seq<char>) -> bool {
    p < q <= s.len()
}

/// Reads a command: `if`, `while` or an assignment.
pub open spec fn cmd(s: Seq<char>, p: int) -> Saida<CmdS>
    decreases s.len() - p, 0int,
{
    if !(0 <= p <= s.len()) {
        Saida::Estouro
    } else if palavra(s, p, "if"@).0 {
        let p1 = palavra(s, p, "if"@).1;
        match expr(s, p1) {
            Saida::Lido(c, q1) => match espera(s, q1, '{') {
                Saida::Lido(_, q2) => if avanca(p, q2, s) {
                    match bloco(s, q2, Seq::empty()) {
                        Saida::Lido(entao, q3) => match espera(s, q3, '}') {
                            Saida::Lido(_, q4) => match espera_palavra(s, q4, "else"@) {
                                Saida::Lido(_, q5) => match espera(s, q5, '{') {
                                    Saida::Lido(_, q6) => if avanca(p, q6, s) {
                                        match bloco(s, q6, Seq::empty()) {
                                            Saida::Lido(senao, q7) => match espera(s, q7, '}') {
                                                Saida::Lido(_, q8) => Saida::Lido(
                                                    CmdS::If { cond: c, then_cmds: entao, else_cmds: senao },
                                                    q8,
                                                ),
                                                Saida::Erro(m, r) => Saida::Erro(m, r),
                                                Saida::Estouro => Saida::Estouro,
                                            },
                                            Saida::Erro(m, r) => Saida::Erro(m, r),
                                            Saida::Estouro => Saida::Estouro,
                                        }
                                    } else {
                                        Saida::Estouro
                                    },
                                    Saida::Erro(m, r) => Saida::Erro(m, r),
                                    Saida::Estouro => Saida::Estouro,
                                },
                                Saida::Erro(m, r) => Saida::Erro(m, r),
                                Saida::Estouro => Saida::Estouro,
                            },
                            Saida::Erro(m, r) => Saida::Erro(m, r),
                            Saida::Estouro => Saida::Estouro,
                        },
                        Saida::Erro(m, r) => Saida::Erro(m, r),
                        Saida::Estouro => Saida::Estouro,
                    }
                } else {
                    Saida::Estouro
                },
                Saida::Erro(m, r) => Saida::Erro(m, r),
                Saida::Estouro => Saida::Estouro,
            },
            Saida::Erro(m, r) => Saida::Erro(m, r),
            Saida::Estouro => Saida::Estouro,
        }
    } else if palavra(s, p, "while"@).0 {
        let p1 = palavra(s, p, "while"@).1;
        match expr(s, p1) {
            Saida::Lido(c, q1) => match espera(s, q1, '{') {
                Saida::Lido(_, q2) => if avanca(p, q2, s) {
                    match bloco(s, q2, Seq::empty()) {
                        Saida::Lido(corpo, q3) => match espera(s, q3, '}') {
                            Saida::Lido(_, q4) => Saida::Lido(CmdS::While { cond: c, body: corpo }, q4),
                            Saida::Erro(m, r) => Saida::Erro(m, r),
                            Saida::Estouro => Saida::Estouro,
                        },
                        Saida::Erro(m, r) => Saida::Erro(m, r),
                        Saida::Estouro => Saida::Estouro,
                    }
                } else {
                    Saida::Estouro
                },
                Saida::Erro(m, r) => Saida::Erro(m, r),
                Saida::Estouro => Saida::Estouro,
            },
            Saida::Erro(m, r) => Saida::Erro(m, r),
            Saida::Estouro => Saida::Estouro,
        }
    } else {
        match nome(s, p) {
            Saida::Lido(n, q1) => match espera(s, q1, '=') {
                Saida::Lido(_, q2) => match expr(s, q2) {
                    Saida::Lido(e, q3) => match espera(s, q3, ';') {
                        Saida::Lido(_, q4) => Saida::Lido(CmdS::Atrib { nome: n, expr: e }, q4),
                        Saida::Erro(m, r) => Saida::Erro(m, r),
                        Saida::Estouro => Saida::Estouro,
                    },
                    Saida::Erro(m, r) => Saida::Erro(m, r),
                    Saida::Estouro => Saida::Estouro,
                },
                Saida::Erro(m, r) => Saida::Erro(m, r),
                Saida::Estouro => Saida::Estouro,
            },
            Saida::Erro(m, r) => Saida::Erro(m, r),
            Saida::Estouro => Saida::Estouro,
        }
    }
}

/// The commands from `p` up to a `}`, which is not read, after those in `acc`.
pub open spec fn bloco(s: Seq<char>, p: int, acc: Seq<CmdS>) -> Saida<Seq<CmdS>>
    decreases s.len() - p, 1int,
{
    if !(0 <= p <= s.len()) {
        Saida::Estouro
    } else if espia(s, p) != Some('}') {
        match cmd(s, p) {
            Saida::Lido(c, q) => if avanca(p, q, s) {
                bloco(s, q, acc.push(c))
            } else {
                Saida::Estouro
            },
            Saida::Erro(m, r) => Saida::Erro(m, r),
            Saida::Estouro => Saida::Estouro,
        }
    } else {
        Saida::Lido(acc, p)
    }
}

/// The commands from `p` up to the keyword `return`, which is read, after those in `acc`.
pub open spec fn corpo(s: Seq<char>, p: int, acc: Seq<CmdS>) -> Saida<Seq<CmdS>>
    decreases s.len() - p,
{
    if !(0 <= p <= s.len()) {
        Saida::Estouro
    } else if palavra(s, p, "return"@).0 {
        Saida::Lido(acc, palavra(s, p, "return"@).1)
    } else {
        match cmd(s, p) {
            Saida::Lido(c, q) => if avanca(p, q, s) {
                corpo(s, q, acc.push(c))
            } else {
                Saida::Estouro
            },
            Saida::Erro(m, r) => Saida::Erro(m, r),
            Saida::Estouro => Saida::Estouro,
        }
    }
}

/// A declaration `var nome = expr;` after the keyword `var`, which ends at `p`.
pub open spec fn definicao(s: Seq<char>, p: int) -> Saida<(Seq<char>, ExprS)> {
    match nome(s, p) {
        Saida::Lido(n, q1) => match espera(s, q1, '=') {
            Saida::Lido(_, q2) => match expr(s, q2) {
                Saida::Lido(e, q3) => match espera(s, q3, ';') {
                    Saida::Lido(_, q4) => Saida::Lido((n, e), q4),
                    Saida::Erro(m, r) => Saida::Erro(m, r),
                    Saida::Estouro => Saida::Estouro,
                },
                Saida::Erro(m, r) => Saida::Erro(m, r),
                Saida::Estouro => Saida::Estouro,
            },
            Saida::Erro(m, r) => Saida::Erro(m, r),
            Saida::Estouro => Saida::Estouro,
        },
        Saida::Erro(m, r) => Saida::Erro(m, r),
        Saida::Estouro => Saida::Estouro,
    }
}

/// The local declarations `var ..;` from `p` on, after those in `acc`.
pub open spec fn resto_vars(s: Seq<char>, p: int, acc: Seq<(Seq<char>, ExprS)>) -> Saida<
    Seq<(Seq<char>, ExprS)>,
>
    decreases s.len() - p,
{
    if !(0 <= p <= s.len()) {
        Saida::Estouro
    } else if palavra(s, p, "var"@).0 {
        match definicao(s, palavra(s, p, "var"@).1) {
            Saida::Lido(d, q) => if avanca(p, q, s) {
                resto_vars(s, q, acc.push(d))
            } else {
                Saida::Estouro
            },
            Saida::Erro(m, r) => Saida::Erro(m, r),
            Saida::Estouro => Saida::Estouro,
        }
    } else {
        Saida::Lido(acc, p)
    }
}

/// The parameters after those in `acc`, each after a `,`.
pub open spec fn resto_params(s: Seq<char>, p: int, acc: Seq<Seq<char>>) -> Saida<Seq<Seq<char>>>
    decreases s.len() - p,
{
    if !(0 <= p <= s.len()) {
        Saida::Estouro
    } else if espia(s, p) == Some(',') {
        let p1 = proximo(s, p).1;
        proof {
            lemma_proximo(s, p);
            lemma_nome(s, p1);
        }
        match nome(s, p1) {
            Saida::Lido(n, q) => resto_params(s, q, acc.push(n)),
            Saida::Erro(m, r) => Saida::Erro(m, r),
            Saida::Estouro => Saida::Estouro,
        }
    } else {
        Saida::Lido(acc, p)
    }
}

/// The parameters of a function, after its `(`, which ends at `p`; the `)` is not read.
pub open spec fn params(s: Seq<char>, p: int) -> Saida<Seq<Seq<char>>> {
    if espia(s, p) != Some(')') {
        match nome(s, p) {
            Saida::Lido(n, q) => resto_params(s, q, seq![n]),
            Saida::Erro(m, r) => Saida::Erro(m, r),
            Saida::Estouro => Saida::Estouro,
        }
    } else {
        Saida::Lido(Seq::empty(), p)
    }
}

/// The return expression, its `;` and the closing `}` of a body.
pub open spec fn fecho(s: Seq<char>, p: int) -> Saida<ExprS> {
    match expr(s, p) {
        Saida::Lido(e, q1) => match espera(s, q1, ';') {
            Saida::Lido(_, q2) => match espera(s, q2, '}') {
                Saida::Lido(_, q3) => Saida::Lido(e, q3),
                Saida::Erro(m, r) => Saida::Erro(m, r),
                Saida::Estouro => Saida::Estouro,
            },
            Saida::Erro(m, r) => Saida::Erro(m, r),
            Saida::Estouro => Saida::Estouro,
        },
        Saida::Erro(m, r) => Saida::Erro(m, r),
        Saida::Estouro => Saida::Estouro,
    }
}

/// Reads a function definition after the keyword `fun`, which ends at `p`.
pub open spec fn fundecl(s: Seq<char>, p: int) -> Saida<FunDeclS> {
    match nome(s, p) {
        Saida::Lido(n, q1) => match espera(s, q1, '(') {
            Saida::Lido(_, q2) => match params(s, q2) {
                Saida::Lido(ps, q3) => match espera(s, q3, ')') {
                    Saida::Lido(_, q4) => match espera(s, q4, '{') {
                        Saida::Lido(_, q5) => match resto_vars(s, q5, Seq::empty()) {
                            Saida::Lido(vs, q6) => match corpo(s, q6, Seq::empty()) {
                                Saida::Lido(cs, q7) => match fecho(s, q7) {
                                    Saida::Lido(r, q8) => Saida::Lido(
                                        FunDeclS {
                                            nome: n,
                                            parametros: ps,
                                            variaveis: vs,
                                            comandos: cs,
                                            retorno: r,
                                        },
                                        q8,
                                    ),
                                    Saida::Erro(m, r) => Saida::Erro(m, r),
                                    Saida::Estouro => Saida::Estouro,
                                },
                                Saida::Erro(m, r) => Saida::Erro(m, r),
                                Saida::Estouro => Saida::Estouro,
                            },
                            Saida::Erro(m, r) => Saida::Erro(m, r),
                            Saida::Estouro => Saida::Estouro,
                        },
                        Saida::Erro(m, r) => Saida::Erro(m, r),
                        Saida::Estouro => Saida::Estouro,
                    },
                    Saida::Erro(m, r) => Saida::Erro(m, r),
                    Saida::Estouro => Saida::Estouro,
                },
                Saida::Erro(m, r) => Saida::Erro(m, r),
                Saida::Estouro => Saida::Estouro,
            },
            Saida::Erro(m, r) => Saida::Erro(m, r),
            Saida::Estouro => Saida::Estouro,
        },
        Saida::Erro(m, r) => Saida::Erro(m, r),
        Saida::Estouro => Saida::Estouro,
    }
}

/// The global declarations and functions from `p` up to the keyword `main`,
/// which is read, after those in `g` and `f`.
pub open spec fn topo(
    s: Seq<char>,
    p: int,
    g: Seq<(Seq<char>, ExprS)>,
    f: Seq<FunDeclS>,
) -> Saida<(Seq<(Seq<char>, ExprS)>, Seq<FunDeclS>)>
    decreases s.len() - p,
{
    if !(0 <= p <= s.len()) {
        Saida::Estouro
    } else if palavra(s, p, "main"@).0 {
        Saida::Lido((g, f), palavra(s, p, "main"@).1)
    } else if palavra(s, p, "var"@).0 {
        match definicao(s, palavra(s, p, "var"@).1) {
            Saida::Lido(d, q) => if avanca(p, q, s) {
                topo(s, q, g.push(d), f)
            } else {
                Saida::Estouro
            },
            Saida::Erro(m, r) => Saida::Erro(m, r),
            Saida::Estouro => Saida::Estouro,
        }
    } else if palavra(s, p, "fun"@).0 {
        match fundecl(s, palavra(s, p, "fun"@).1) {
            Saida::Lido(d, q) => if avanca(p, q, s) {
                topo(s, q, g, f.push(d))
            } else {
                Saida::Estouro
            },
            Saida::Erro(m, r) => Saida::Erro(m, r),
            Saida::Estouro => Saida::Estouro,
        }
    } else {
        Saida::Erro("Esperado 'fun', 'var' ou 'main'"@, p)
    }
}

/// Reads a whole program from `p`.
pub open spec fn programa(s: Seq<char>, p: int) -> Saida<ProgramaS> {
    match topo(s, p, Seq::empty(), Seq::empty()) {
        Saida::Lido((g, f), q1) => match espera(s, q1, '{') {
            Saida::Lido(_, q2) => match corpo(s, q2, Seq::empty()) {
                Saida::Lido(cs, q3) => match fecho(s, q3) {
                    Saida::Lido(r, q4) => Saida::Lido(
                        ProgramaS { globais: g, funcoes: f, principal: cs, retorno: r },
                        q4,
                    ),
                    Saida::Erro(m, r) => Saida::Erro(m, r),
                    Saida::Estouro => Saida::Estouro,
                },
                Saida::Erro(m, r) => Saida::Erro(m, r),
                Saida::Estouro => Saida::Estouro,
            },
            Saida::Erro(m, r) => Saida::Erro(m, r),
            Saida::Estouro => Saida::Estouro,
        },
        Saida::Erro(m, r) => Saida::Erro(m, r),
        Saida::Estouro => Saida::Estouro,
    }
}

} // verus!
