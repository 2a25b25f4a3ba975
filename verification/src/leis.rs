//! Laws of the library, over the grammar and the code generator.
//!
//! The central one: the parser reads back what a printer writes. The printer
//! here writes every binary operation between parentheses, so that the text
//! of an expression fixes its tree whatever the precedences.
use vstd::prelude::*;
use crate::ast::{CmdS, ExprS};
use crate::caracteres::{eh_alfanum, eh_digito, eh_espaco, eh_letra, valor_digito};
use crate::gramatica::{
    Saida,
    bloco,
    cmd,
    corpo,
    espera_palavra,
    palavra,
    chamada,
    constante,
    espera,
    espia,
    exp_a,
    exp_m,
    expr,
    mais_comparacao,
    proximo,
    resto_a,
    resto_args,
    resto_expr,
    resto_m,
    lemma_pula_espacos,
    nome,
    operador_valido,
    prim,
    pula_espacos,
    resto_digitos,
    resto_nome,
};
use crate::texto::{char_digito, decimal};

verus! {

/// `x` stands in `s` from position `p` on.
pub open spec fn em(s: Seq<char>, p: int, x: Seq<char>) -> bool {
    0 <= p && p + x.len() <= s.len() && s.subrange(p, p + x.len()) == x
}

/// An identifier: a letter, then letters and digits.
pub open spec fn identificador(n: Seq<char>) -> bool {
    &&& n.len() > 0
    &&& eh_letra(n[0])
    &&& forall|i: int| 0 < i < n.len() ==> eh_alfanum(#[trigger] n[i])
}

/// The value of a sequence of decimal digits.
pub open spec fn valor_decimal(ds: Seq<char>) -> int
    decreases ds.len(),
{
    if ds.len() == 0 {
        0
    } else {
        valor_decimal(ds.drop_last()) * 10 + valor_digito(ds.last())
    }
}

/// At `q` there is neither whitespace nor a letter or digit, or the input ends.
pub open spec fn nao_alfanum(s: Seq<char>, q: int) -> bool {
    q >= s.len() || (!eh_espaco(s[q]) && !eh_alfanum(s[q]))
}

pub proof fn lemma_em_concat(s: Seq<char>, p: int, a: Seq<char>, b: Seq<char>)
    requires
        em(s, p, a + b),
    ensures
        em(s, p, a),
        em(s, p + a.len(), b),
{
    let ab = s.subrange(p, p + a.len() + b.len());
    assert forall|i: int| 0 <= i < a.len() implies s.subrange(p, p + a.len())[i] == a[i] by {
        assert(ab[i] == (a + b)[i]);
    }
    assert(s.subrange(p, p + a.len()) =~= a);
    assert forall|i: int| 0 <= i < b.len() implies s.subrange(
        p + a.len(),
        p + a.len() + b.len(),
    )[i] == b[i] by {
        assert(ab[a.len() + i] == (a + b)[a.len() + i]);
    }
    assert(s.subrange(p + a.len(), p + a.len() + b.len()) =~= b);
}

pub proof fn lemma_em_indice(s: Seq<char>, p: int, x: Seq<char>, i: int)
    requires
        em(s, p, x),
        0 <= i < x.len(),
    ensures
        s[p + i] == x[i],
{
    assert(s.subrange(p, p + x.len())[i] == s[p + i]);
}

pub proof fn lemma_pula_nada(s: Seq<char>, p: int)
    requires
        0 <= p <= s.len(),
        p < s.len() ==> !eh_espaco(s[p]),
    ensures
        pula_espacos(s, p) == p,
{
}

proof fn lemma_resto_nome_le(s: Seq<char>, p: int, n: Seq<char>, i: int)
    requires
        em(s, p, n),
        1 <= i <= n.len(),
        forall|j: int| 0 < j < n.len() ==> eh_alfanum(#[trigger] n[j]),
        nao_alfanum(s, p + n.len()),
    ensures
        resto_nome(s, p + i, n.take(i)) == (n, p + n.len()),
    decreases n.len() - i,
{
    if i < n.len() {
        lemma_em_indice(s, p, n, i);
        lemma_pula_nada(s, p + i);
        assert(n.take(i).push(n[i]) =~= n.take(i + 1));
        lemma_resto_nome_le(s, p, n, i + 1);
    } else {
        lemma_pula_nada(s, p + i);
        assert(n.take(i) =~= n);
    }
}

/// An identifier in the input, after any whitespace, is read whole.
pub proof fn lemma_le_nome(s: Seq<char>, p: int, p0: int, n: Seq<char>)
    requires
        0 <= p <= p0,
        pula_espacos(s, p) == p0,
        identificador(n),
        em(s, p0, n),
        nao_alfanum(s, p0 + n.len()),
    ensures
        nome(s, p) == Saida::Lido(n, p0 + n.len()),
{
    lemma_em_indice(s, p0, n, 0);
    lemma_resto_nome_le(s, p0, n, 1);
    assert(seq![s[p0]] =~= n.take(1));
}

proof fn lemma_char_digito(d: nat)
    requires
        d < 10,
    ensures
        eh_digito(char_digito(d)),
        valor_digito(char_digito(d)) == d,
{
}

/// The numeral of `n` is made of digits and has the value `n`.
pub proof fn lemma_decimal(n: nat)
    ensures
        decimal(n).len() > 0,
        forall|i: int| 0 <= i < decimal(n).len() ==> eh_digito(#[trigger] decimal(n)[i]),
        valor_decimal(decimal(n)) == n,
    decreases n,
{
    if n < 10 {
        lemma_char_digito(n);
        assert(seq![char_digito(n)].drop_last() =~= Seq::<char>::empty());
        assert(valor_decimal(Seq::<char>::empty()) == 0);
        assert(valor_decimal(decimal(n)) == valor_decimal(Seq::<char>::empty()) * 10
            + valor_digito(char_digito(n)));
    } else {
        lemma_decimal(n / 10);
        lemma_char_digito(n % 10);
        let d = decimal(n / 10);
        assert(d.push(char_digito(n % 10)).drop_last() =~= d);
        assert(valor_decimal(decimal(n)) == valor_decimal(d) * 10 + valor_digito(
            char_digito(n % 10),
        ));
        assert forall|i: int| 0 <= i < decimal(n).len() implies eh_digito(
            #[trigger] decimal(n)[i],
        ) by {
            if i < d.len() {
                assert(decimal(n)[i] == d[i]);
            }
        }
    }
}

proof fn lemma_resto_digitos_le(s: Seq<char>, p: int, ds: Seq<char>, i: int)
    requires
        em(s, p, ds),
        0 <= i <= ds.len(),
        forall|j: int| 0 <= j < ds.len() ==> eh_digito(#[trigger] ds[j]),
        nao_alfanum(s, p + ds.len()),
    ensures
        resto_digitos(s, p + i, valor_decimal(ds.take(i))) == (valor_decimal(ds), p + ds.len()),
    decreases ds.len() - i,
{
    if i < ds.len() {
        lemma_em_indice(s, p, ds, i);
        lemma_pula_nada(s, p + i);
        assert(ds.take(i + 1).drop_last() =~= ds.take(i));
        assert(ds.take(i + 1).last() == ds[i]);
        lemma_resto_digitos_le(s, p, ds, i + 1);
    } else {
        lemma_pula_nada(s, p + i);
        assert(ds.take(i) =~= ds);
    }
}

/// The numeral of a constant is read as that constant.
pub proof fn lemma_le_constante(s: Seq<char>, p: int, v: i32)
    requires
        v >= 0,
        em(s, p, decimal(v as nat)),
        nao_alfanum(s, p + decimal(v as nat).len()),
    ensures
        constante(s, p) == Saida::Lido(ExprS::Const(v), p + decimal(v as nat).len()),
{
    let ds = decimal(v as nat);
    lemma_decimal(v as nat);
    assert(ds.take(0) =~= Seq::<char>::empty());
    lemma_resto_digitos_le(s, p, ds, 0);
}

/// A fully parenthesised text of an expression: every binary operation is
/// written between parentheses, arguments are separated by commas, and there
/// is no whitespace.
pub open spec fn imprime_expr(e: ExprS) -> Seq<char>
    decreases e,
{
    match e {
        ExprS::Const(v) => decimal(v as nat),
        ExprS::Var(n) => n,
        ExprS::OpBin { operador, esq, dir } => seq!['('] + imprime_expr(*esq) + operador
            + imprime_expr(*dir) + seq![')'],
        ExprS::Call { nome, args } => nome + seq!['('] + imprime_args(args) + seq![')'],
    }
}

/// The arguments of a call, separated by commas.
pub open spec fn imprime_args(args: Seq<ExprS>) -> Seq<char>
    decreases args,
{
    if args.len() == 0 {
        Seq::empty()
    } else {
        imprime_expr(args[0]) + imprime_resto_args(args.drop_first())
    }
}

/// Arguments after the first, each after a comma.
pub open spec fn imprime_resto_args(rs: Seq<ExprS>) -> Seq<char>
    decreases rs,
{
    if rs.len() == 0 {
        Seq::empty()
    } else {
        seq![','] + imprime_expr(rs[0]) + imprime_resto_args(rs.drop_first())
    }
}

/// The expressions that the printer writes as text that the grammar reads:
/// constants are not negative, names are identifiers, and the operators are
/// those of the language.
pub open spec fn imprimivel(e: ExprS) -> bool
    decreases e,
{
    match e {
        ExprS::Const(v) => v >= 0,
        ExprS::Var(n) => identificador(n),
        ExprS::OpBin { operador, esq, dir } => operador_valido(operador) && imprimivel(*esq)
            && imprimivel(*dir),
        ExprS::Call { nome, args } => identificador(nome) && imprimiveis(args),
    }
}

pub open spec fn imprimiveis(s: Seq<ExprS>) -> bool
    decreases s,
{
    if s.len() == 0 {
        true
    } else {
        imprimivel(s[0]) && imprimiveis(s.drop_first())
    }
}

/// A character that can follow a primary expression without joining it.
pub open spec fn separa(s: Seq<char>, q: int) -> bool {
    nao_alfanum(s, q) && (q < s.len() ==> s[q] != '(')
}

/// A character of an operator.
pub open spec fn eh_char_operador(c: char) -> bool {
    c == '+' || c == '-' || c == '*' || c == '/' || c == '=' || c == '<' || c == '>'
}

/// A character that can follow an expression without joining it.
pub open spec fn termina(s: Seq<char>, q: int) -> bool {
    separa(s, q) && (q < s.len() ==> !eh_char_operador(s[q]))
}

pub proof fn lemma_olha(s: Seq<char>, q: int)
    requires
        0 <= q <= s.len(),
        q < s.len() ==> !eh_espaco(s[q]),
    ensures
        espia(s, q) == (if q < s.len() {
            Some(s[q])
        } else {
            None::<char>
        }),
        q < s.len() ==> proximo(s, q) == (Some(s[q]), q + 1),
{
    lemma_pula_nada(s, q);
}

proof fn lemma_primeiro(e: ExprS)
    requires
        imprimivel(e),
    ensures
        imprime_expr(e).len() > 0,
        eh_digito(imprime_expr(e)[0]) || eh_letra(imprime_expr(e)[0]) || imprime_expr(e)[0]
            == '(',
{
    match e {
        ExprS::Const(v) => {
            lemma_decimal(v as nat);
        },
        ExprS::Var(n) => {},
        ExprS::OpBin { operador, esq, dir } => {},
        ExprS::Call { nome, args } => {},
    }
}

/// The text of a primary expression, followed by a character that does not
/// join it, is read back as the expression.
pub proof fn lemma_prim_imprime(s: Seq<char>, p: int, e: ExprS)
    requires
        imprimivel(e),
        em(s, p, imprime_expr(e)),
        separa(s, p + imprime_expr(e).len()),
    ensures
        prim(s, p) == Saida::Lido(e, p + imprime_expr(e).len()),
    decreases e, 4int,
{
    let q = p + imprime_expr(e).len();
    lemma_primeiro(e);
    lemma_em_indice(s, p, imprime_expr(e), 0);
    lemma_olha(s, p);
    match e {
        ExprS::Const(v) => {
            lemma_decimal(v as nat);
            lemma_le_constante(s, p, v);
            assert(imprime_expr(e) == decimal(v as nat));
            assert(eh_digito(s[p]));
            assert(espia(s, p) == Some(s[p]));
            assert(constante(s, p) == Saida::Lido(e, q));
            assert(prim(s, p) == Saida::Lido(e, q));
        },
        ExprS::Var(n) => {
            lemma_le_nome(s, p, p, n);
            lemma_olha(s, q);
            assert(prim(s, p) == Saida::Lido(e, q));
        },
        ExprS::OpBin { operador, esq, dir } => {
            let a = seq!['('];
            let pl = imprime_expr(*esq);
            let pr = imprime_expr(*dir);
            lemma_em_concat(s, p, a + pl + operador + pr, seq![')']);
            lemma_em_concat(s, p, a + pl + operador, pr);
            lemma_em_concat(s, p, a + pl, operador);
            lemma_em_concat(s, p, a, pl);
            assert(a + pl + operador + pr =~= a + (pl + operador + pr));
            lemma_em_indice(s, q - 1, seq![')'], 0);
            lemma_em_concat(s, p, a, pl + operador + pr);
            lemma_opbin_interno(s, p + 1, e);
            lemma_em_indice(s, q - 1, seq![')'], 0);
            lemma_olha(s, q - 1);
            assert(prim(s, p) == Saida::Lido(e, q));
        },
        ExprS::Call { nome: n, args } => {
            let pa = imprime_args(args);
            lemma_em_concat(s, p, n + seq!['('] + pa, seq![')']);
            lemma_em_concat(s, p, n + seq!['('], pa);
            lemma_em_concat(s, p, n, seq!['(']);
            let p1 = p + n.len();
            let p2 = p1 + 1;
            lemma_em_indice(s, p1, seq!['('], 0);
            lemma_le_nome(s, p, p, n);
            lemma_olha(s, p1);
            lemma_em_indice(s, q - 1, seq![')'], 0);
            lemma_olha(s, q - 1);
            lemma_em_indice(s, p, n, 0);
            assert(eh_letra(s[p]));
            assert(espia(s, p) == Some(s[p]));
            assert(nome(s, p) == Saida::Lido(n, p1));
            assert(espia(s, p1) == Some('('));
            assert(proximo(s, p1).1 == p2);
            if args.len() == 0 {
                lemma_olha(s, p2);
                assert(args =~= Seq::<ExprS>::empty());
            } else {
                lemma_chamada_args(s, p2, args);
            }
            assert(chamada(s, p, p2, n) == Saida::Lido(e, q));
            assert(prim(s, p) == Saida::Lido(e, q));
        },
    }
}

/// The text of the arguments of a call, after its `(` and before its `)`,
/// is read back as the arguments.
proof fn lemma_chamada_args(s: Seq<char>, p2: int, args: Seq<ExprS>)
    requires
        args.len() > 0,
        imprimiveis(args),
        em(s, p2, imprime_args(args)),
        p2 + imprime_args(args).len() < s.len(),
        s[p2 + imprime_args(args).len()] == ')',
    ensures
        espia(s, p2) != Some(')'),
        expr(s, p2) == Saida::Lido(args[0], p2 + imprime_expr(args[0]).len()),
        resto_args(s, p2 + imprime_expr(args[0]).len(), seq![args[0]]) == Saida::Lido(
            args,
            p2 + imprime_args(args).len(),
        ),
    decreases args, 2int,
{
    let a0 = imprime_expr(args[0]);
    let rest = imprime_resto_args(args.drop_first());
    lemma_em_concat(s, p2, a0, rest);
    lemma_primeiro(args[0]);
    lemma_em_indice(s, p2, a0, 0);
    lemma_olha(s, p2);
    let q0 = p2 + a0.len();
    if args.len() > 1 {
        lemma_em_indice(s, q0, rest, 0);
    }
    lemma_expr_imprime(s, p2, args[0]);
    lemma_resto_args_imprime(s, q0, args.drop_first(), seq![args[0]]);
    assert(seq![args[0]] + args.drop_first() =~= args);
}

/// The text of the arguments after the first, each after a comma, is read
/// back as those arguments.
proof fn lemma_resto_args_imprime(s: Seq<char>, q: int, rs: Seq<ExprS>, acc: Seq<ExprS>)
    requires
        imprimiveis(rs),
        em(s, q, imprime_resto_args(rs)),
        q + imprime_resto_args(rs).len() < s.len(),
        s[q + imprime_resto_args(rs).len()] == ')',
    ensures
        resto_args(s, q, acc) == Saida::Lido(acc + rs, q + imprime_resto_args(rs).len()),
    decreases rs, 1int,
{
    if rs.len() == 0 {
        lemma_olha(s, q);
        assert(acc + rs =~= acc);
    } else {
        let a = imprime_expr(rs[0]);
        let rest = imprime_resto_args(rs.drop_first());
        lemma_em_concat(s, q, seq![','] + a, rest);
        lemma_em_concat(s, q, seq![','], a);
        lemma_em_indice(s, q, seq![','], 0);
        lemma_olha(s, q);
        let q1 = q + 1 + a.len();
        if rs.len() > 1 {
            lemma_em_indice(s, q1, rest, 0);
        }
        lemma_primeiro(rs[0]);
        lemma_expr_imprime(s, q + 1, rs[0]);
        lemma_resto_args_imprime(s, q1, rs.drop_first(), acc.push(rs[0]));
        assert(acc.push(rs[0]) + rs.drop_first() =~= acc + rs);
    }
}

/// The text of an expression, followed by a character that does not join
/// it, is read back as the expression.
pub proof fn lemma_expr_imprime(s: Seq<char>, p: int, e: ExprS)
    requires
        imprimivel(e),
        em(s, p, imprime_expr(e)),
        termina(s, p + imprime_expr(e).len()),
    ensures
        expr(s, p) == Saida::Lido(e, p + imprime_expr(e).len()),
    decreases e, 5int,
{
    let q = p + imprime_expr(e).len();
    lemma_prim_imprime(s, p, e);
    lemma_olha(s, q);
}

/// Inside the parentheses of a binary operation: the left operand at `p`,
/// the operator, the right operand, then `)`.
proof fn lemma_opbin_interno(s: Seq<char>, p: int, e: ExprS)
    requires
        e is OpBin,
        imprimivel(e),
        em(s, p, imprime_expr(*e->esq) + e->operador + imprime_expr(*e->dir)),
        p + imprime_expr(*e->esq).len() + e->operador.len() + imprime_expr(*e->dir).len() < s.len(),
        s[p + imprime_expr(*e->esq).len() + e->operador.len() + imprime_expr(*e->dir).len()] == ')',
    ensures
        expr(s, p) == Saida::Lido(
            e,
            p + imprime_expr(*e->esq).len() + e->operador.len() + imprime_expr(*e->dir).len(),
        ),
    decreases e, 3int,
{
    let op = e->operador;
    let esq = *e->esq;
    let dir = *e->dir;
    let pl = imprime_expr(esq);
    let pr = imprime_expr(dir);
    lemma_em_concat(s, p, pl + op, pr);
    lemma_em_concat(s, p, pl, op);
    let ql = p + pl.len();
    let qr0 = ql + op.len();
    let qr = qr0 + pr.len();
    assert(op.len() >= 1);
    lemma_em_indice(s, ql, op, 0);
    assert(s[ql] == op[0]);
    lemma_prim_imprime(s, p, esq);
    lemma_prim_imprime(s, qr0, dir);
    lemma_olha(s, ql);
    lemma_olha(s, qr);
    let resultado = ExprS::OpBin { operador: op, esq: Box::new(esq), dir: Box::new(dir) };
    assert(resultado == e);
    if op == seq!['*'] || op == seq!['/'] {
        assert(resto_m(s, qr, resultado) == Saida::Lido(resultado, qr));
        assert(resto_m(s, ql, esq) == Saida::Lido(resultado, qr));
        assert(exp_m(s, p) == Saida::Lido(resultado, qr));
        assert(resto_a(s, qr, resultado) == Saida::Lido(resultado, qr));
        assert(exp_a(s, p) == Saida::Lido(resultado, qr));
        assert(resto_expr(s, qr, resultado) == Saida::Lido(resultado, qr));
    } else if op == seq!['+'] || op == seq!['-'] {
        assert(resto_m(s, ql, esq) == Saida::Lido(esq, ql));
        assert(exp_m(s, p) == Saida::Lido(esq, ql));
        assert(resto_m(s, qr, dir) == Saida::Lido(dir, qr));
        assert(exp_m(s, qr0) == Saida::Lido(dir, qr));
        assert(resto_a(s, qr, resultado) == Saida::Lido(resultado, qr));
        assert(resto_a(s, ql, esq) == Saida::Lido(resultado, qr));
        assert(exp_a(s, p) == Saida::Lido(resultado, qr));
        assert(resto_expr(s, qr, resultado) == Saida::Lido(resultado, qr));
    } else {
        assert(resto_m(s, ql, esq) == Saida::Lido(esq, ql));
        assert(exp_m(s, p) == Saida::Lido(esq, ql));
        assert(resto_a(s, ql, esq) == Saida::Lido(esq, ql));
        assert(exp_a(s, p) == Saida::Lido(esq, ql));
        assert(resto_m(s, qr, dir) == Saida::Lido(dir, qr));
        assert(exp_m(s, qr0) == Saida::Lido(dir, qr));
        assert(resto_a(s, qr, dir) == Saida::Lido(dir, qr));
        assert(exp_a(s, qr0) == Saida::Lido(dir, qr));
        assert(resto_expr(s, qr, resultado) == Saida::Lido(resultado, qr));
        assert(mais_comparacao(s, ql, qr0, op, esq) == Saida::Lido(resultado, qr));
        if op == seq!['=', '='] {
            lemma_em_indice(s, ql, op, 1);
            lemma_olha(s, ql + 1);
        }
        assert(resto_expr(s, ql, esq) == Saida::Lido(resultado, qr));
    }
}

/// The parser reads back the text that `imprime_expr` writes of an
/// expression: the expression, and the position at the end of the text.
pub proof fn lei_expressao_impressa(e: ExprS)
    requires
        imprimivel(e),
    ensures
        expr(imprime_expr(e), 0) == Saida::Lido(e, imprime_expr(e).len() as int),
{
    let s = imprime_expr(e);
    assert(s.subrange(0, s.len() as int) =~= s);
    lemma_expr_imprime(s, 0, e);
}

/// An expression between parentheses, followed by a character that does not
/// join it, is read back as the expression.
pub proof fn lemma_expr_parenteses(s: Seq<char>, p: int, e: ExprS)
    requires
        imprimivel(e),
        em(s, p, seq!['('] + imprime_expr(e) + seq![')']),
        termina(s, p + imprime_expr(e).len() + 2),
    ensures
        expr(s, p) == Saida::Lido(e, p + imprime_expr(e).len() + 2),
{
    let pe = imprime_expr(e);
    let q = p + pe.len() + 2;
    lemma_em_concat(s, p, seq!['('] + pe, seq![')']);
    lemma_em_concat(s, p, seq!['('], pe);
    lemma_em_indice(s, p, seq!['('], 0);
    lemma_em_indice(s, q - 1, seq![')'], 0);
    lemma_olha(s, p);
    lemma_olha(s, q - 1);
    lemma_olha(s, q);
    lemma_expr_imprime(s, p + 1, e);
    assert(prim(s, p) == Saida::Lido(e, q));
}

/// The words that cannot name the variable of an assignment: a command that
/// begins with them would be read otherwise.
pub open spec fn reservada(n: Seq<char>) -> bool {
    ||| n == seq!['i', 'f']
    ||| n == seq!['w', 'h', 'i', 'l', 'e']
    ||| n == seq!['r', 'e', 't', 'u', 'r', 'n']
    ||| n == seq!['v', 'a', 'r']
}

/// A text of a command, without whitespace; conditions are written between
/// parentheses.
pub open spec fn imprime_cmd(c: CmdS) -> Seq<char>
    decreases c,
{
    match c {
        CmdS::Atrib { nome, expr } => nome + seq!['='] + imprime_expr(expr) + seq![';'],
        CmdS::If { cond, then_cmds, else_cmds } => seq!['i', 'f', '('] + imprime_expr(cond)
            + seq![')', '{'] + imprime_cmds(then_cmds) + seq!['}', 'e', 'l', 's', 'e', '{']
            + imprime_cmds(else_cmds) + seq!['}'],
        CmdS::While { cond, body } => seq!['w', 'h', 'i', 'l', 'e', '('] + imprime_expr(cond)
            + seq![')', '{'] + imprime_cmds(body) + seq!['}'],
    }
}

/// The texts of the commands, one after the other.
pub open spec fn imprime_cmds(s: Seq<CmdS>) -> Seq<char>
    decreases s,
{
    if s.len() == 0 {
        Seq::empty()
    } else {
        imprime_cmd(s[0]) + imprime_cmds(s.drop_first())
    }
}

/// The commands that the printer writes as text that the grammar reads:
/// their expressions are printable and the variables they assign are
/// identifiers other than the reserved words.
pub open spec fn cmd_imprimivel(c: CmdS) -> bool
    decreases c,
{
    match c {
        CmdS::Atrib { nome, expr } => identificador(nome) && !reservada(nome) && imprimivel(expr),
        CmdS::If { cond, then_cmds, else_cmds } => imprimivel(cond) && cmds_imprimiveis(then_cmds)
            && cmds_imprimiveis(else_cmds),
        CmdS::While { cond, body } => imprimivel(cond) && cmds_imprimiveis(body),
    }
}

pub open spec fn cmds_imprimiveis(s: Seq<CmdS>) -> bool
    decreases s,
{
    if s.len() == 0 {
        true
    } else {
        cmd_imprimivel(s[0]) && cmds_imprimiveis(s.drop_first())
    }
}

/// A keyword that stands at `p`, not followed by a letter or digit, is read.
pub proof fn lemma_palavra_sim(s: Seq<char>, p: int, kw: Seq<char>)
    requires
        kw.len() > 0,
        em(s, p, kw),
        !eh_espaco(kw[0]),
        !(p + kw.len() < s.len() && eh_alfanum(s[p + kw.len()])),
    ensures
        palavra(s, p, kw) == (true, p + kw.len()),
{
    lemma_em_indice(s, p, kw, 0);
    lemma_pula_nada(s, p);
}

/// A keyword that does not stand at `p` is not read.
pub proof fn lemma_palavra_nao(s: Seq<char>, p: int, kw: Seq<char>)
    requires
        0 <= p < s.len(),
        !eh_espaco(s[p]),
        !(em(s, p, kw) && !(p + kw.len() < s.len() && eh_alfanum(s[p + kw.len()]))),
    ensures
        palavra(s, p, kw) == (false, p),
{
    lemma_pula_nada(s, p);
}

/// An identifier followed by a character that is no letter or digit is not
/// a keyword of letters other than itself.
pub proof fn lemma_nome_nao_palavra(s: Seq<char>, p: int, n: Seq<char>, kw: Seq<char>)
    requires
        identificador(n),
        em(s, p, n),
        p + n.len() < s.len(),
        !eh_alfanum(s[p + n.len()]),
        kw.len() > 0,
        forall|i: int| 0 <= i < kw.len() ==> eh_letra(#[trigger] kw[i]),
        n != kw,
    ensures
        !(em(s, p, kw) && !(p + kw.len() < s.len() && eh_alfanum(s[p + kw.len()]))),
{
    if em(s, p, kw) && !(p + kw.len() < s.len() && eh_alfanum(s[p + kw.len()])) {
        if kw.len() < n.len() {
            lemma_em_indice(s, p, n, kw.len() as int);
        } else if kw.len() == n.len() {
            assert(n == kw);
        } else {
            lemma_em_indice(s, p, kw, n.len() as int);
        }
    }
}

pub proof fn lemma_cmd_primeiro(c: CmdS)
    requires
        cmd_imprimivel(c),
    ensures
        imprime_cmd(c).len() > 0,
        eh_letra(imprime_cmd(c)[0]),
{
}

/// The text of a command is read back as the command.
pub proof fn lemma_cmd_imprime(s: Seq<char>, p: int, c: CmdS)
    requires
        cmd_imprimivel(c),
        em(s, p, imprime_cmd(c)),
    ensures
        cmd(s, p) == Saida::Lido(c, p + imprime_cmd(c).len()),
    decreases c, 2int,
{
    match c {
        CmdS::Atrib { .. } => lemma_atrib_imprime(s, p, c),
        CmdS::If { .. } => lemma_if_imprime(s, p, c),
        CmdS::While { .. } => lemma_while_imprime(s, p, c),
    }
}

pub proof fn lemma_palavras()
    ensures
        "if"@ == seq!['i', 'f'],
        "while"@ == seq!['w', 'h', 'i', 'l', 'e'],
        "else"@ == seq!['e', 'l', 's', 'e'],
        "return"@ == seq!['r', 'e', 't', 'u', 'r', 'n'],
        "var"@ == seq!['v', 'a', 'r'],
        "fun"@ == seq!['f', 'u', 'n'],
        "main"@ == seq!['m', 'a', 'i', 'n'],
{
    reveal_strlit("if");
    reveal_strlit("while");
    reveal_strlit("else");
    reveal_strlit("return");
    reveal_strlit("var");
    reveal_strlit("fun");
    reveal_strlit("main");
    assert("if"@ =~= seq!['i', 'f']);
    assert("while"@ =~= seq!['w', 'h', 'i', 'l', 'e']);
    assert("else"@ =~= seq!['e', 'l', 's', 'e']);
    assert("return"@ =~= seq!['r', 'e', 't', 'u', 'r', 'n']);
    assert("var"@ =~= seq!['v', 'a', 'r']);
    assert("fun"@ =~= seq!['f', 'u', 'n']);
    assert("main"@ =~= seq!['m', 'a', 'i', 'n']);
}

proof fn lemma_atrib_imprime(s: Seq<char>, p: int, c: CmdS)
    requires
        c is Atrib,
        cmd_imprimivel(c),
        em(s, p, imprime_cmd(c)),
    ensures
        cmd(s, p) == Saida::Lido(c, p + imprime_cmd(c).len()),
{
    lemma_palavras();
    let q = p + imprime_cmd(c).len();
    lemma_cmd_primeiro(c);
    lemma_em_indice(s, p, imprime_cmd(c), 0);
    let n = c->Atrib_nome;
    let e = c->Atrib_expr;
    let pe = imprime_expr(e);
    lemma_em_concat(s, p, n + seq!['='] + pe, seq![';']);
    lemma_em_concat(s, p, n + seq!['='], pe);
    lemma_em_concat(s, p, n, seq!['=']);
    let q1 = p + n.len();
    lemma_em_indice(s, q1, seq!['='], 0);
    lemma_em_indice(s, q - 1, seq![';'], 0);
    lemma_nome_nao_palavra(s, p, n, "if"@);
    lemma_nome_nao_palavra(s, p, n, "while"@);
    lemma_palavra_nao(s, p, "if"@);
    lemma_palavra_nao(s, p, "while"@);
    lemma_le_nome(s, p, p, n);
    lemma_olha(s, q1);
    lemma_expr_imprime(s, q1 + 1, e);
    lemma_olha(s, q - 1);
}

proof fn lemma_if_imprime(s: Seq<char>, p: int, c: CmdS)
    requires
        c is If,
        cmd_imprimivel(c),
        em(s, p, imprime_cmd(c)),
    ensures
        cmd(s, p) == Saida::Lido(c, p + imprime_cmd(c).len()),
    decreases c, 1int,
{
    lemma_palavras();
    let cond = c->If_cond;
    let then_cmds = c->then_cmds;
    let else_cmds = c->else_cmds;
    let q = p + imprime_cmd(c).len();
    let a = seq!['i', 'f', '('];
    let pc = imprime_expr(cond);
    let b = seq![')', '{'];
    let pt = imprime_cmds(then_cmds);
    let m = seq!['}', 'e', 'l', 's', 'e', '{'];
    let pf = imprime_cmds(else_cmds);
    let z = seq!['}'];
    lemma_em_concat(s, p, a + pc + b + pt + m + pf, z);
    lemma_em_concat(s, p, a + pc + b + pt + m, pf);
    lemma_em_concat(s, p, a + pc + b + pt, m);
    lemma_em_concat(s, p, a + pc + b, pt);
    lemma_em_concat(s, p, a + pc, b);
    lemma_em_concat(s, p, a, pc);
    let p2 = p + 2;
    assert(seq!['i', 'f'] + seq!['('] =~= a);
    lemma_em_concat(s, p, seq!['i', 'f'], seq!['(']);
    lemma_em_indice(s, p2, seq!['('], 0);
    lemma_palavra_sim(s, p, "if"@);
    let q1 = p + 3 + pc.len();
    lemma_em_indice(s, q1, b, 0);
    lemma_em_indice(s, q1, b, 1);
    assert(seq!['('] + pc + seq![')'] =~= (a + pc + b).subrange(2, 4 + pc.len() as int));
    lemma_em_sub(s, p, a + pc + b, 2, 4 + pc.len() as int);
    lemma_expr_parenteses(s, p2, cond);
    lemma_olha(s, q1 + 1);
    let q2 = q1 + 2;
    let q3 = q2 + pt.len();
    lemma_em_indice(s, q3, m, 0);
    lemma_bloco_imprime(s, q2, then_cmds, Seq::empty());
    lemma_olha(s, q3);
    assert(seq!['e', 'l', 's', 'e'] =~= m.subrange(1, 5));
    lemma_em_sub(s, q3, m, 1, 5);
    lemma_em_indice(s, q3, m, 5);
    lemma_palavra_sim(s, q3 + 1, "else"@);
    lemma_olha(s, q3 + 5);
    let q6 = q3 + 6;
    let q7 = q6 + pf.len();
    lemma_em_indice(s, q7, z, 0);
    lemma_bloco_imprime(s, q6, else_cmds, Seq::empty());
    lemma_olha(s, q7);
    assert(Seq::<CmdS>::empty() + then_cmds =~= then_cmds);
    assert(Seq::<CmdS>::empty() + else_cmds =~= else_cmds);
}

proof fn lemma_while_imprime(s: Seq<char>, p: int, c: CmdS)
    requires
        c is While,
        cmd_imprimivel(c),
        em(s, p, imprime_cmd(c)),
    ensures
        cmd(s, p) == Saida::Lido(c, p + imprime_cmd(c).len()),
    decreases c, 1int,
{
    lemma_palavras();
    let cond = c->While_cond;
    let body = c->body;
    let q = p + imprime_cmd(c).len();
    let a = seq!['w', 'h', 'i', 'l', 'e', '('];
    let pc = imprime_expr(cond);
    let b = seq![')', '{'];
    let pb = imprime_cmds(body);
    let z = seq!['}'];
    lemma_em_concat(s, p, a + pc + b + pb, z);
    lemma_em_concat(s, p, a + pc + b, pb);
    lemma_em_concat(s, p, a + pc, b);
    lemma_em_concat(s, p, a, pc);
    let p2 = p + 5;
    assert(seq!['w', 'h', 'i', 'l', 'e'] + seq!['('] =~= a);
    lemma_em_concat(s, p, seq!['w', 'h', 'i', 'l', 'e'], seq!['(']);
    lemma_em_indice(s, p2, seq!['('], 0);
    lemma_em_indice(s, p, a, 1);
    lemma_palavra_nao(s, p, "if"@);
    lemma_palavra_sim(s, p, "while"@);
    let q1 = p + 6 + pc.len();
    lemma_em_indice(s, q1, b, 0);
    lemma_em_indice(s, q1, b, 1);
    assert(seq!['('] + pc + seq![')'] =~= (a + pc + b).subrange(5, 7 + pc.len() as int));
    lemma_em_sub(s, p, a + pc + b, 5, 7 + pc.len() as int);
    lemma_expr_parenteses(s, p2, cond);
    lemma_olha(s, q1 + 1);
    let q2 = q1 + 2;
    let q3 = q2 + pb.len();
    lemma_em_indice(s, q3, z, 0);
    lemma_bloco_imprime(s, q2, body, Seq::empty());
    lemma_olha(s, q3);
    assert(Seq::<CmdS>::empty() + body =~= body);
}

/// Part of a text that stands at `p` stands at its own place.
pub proof fn lemma_em_sub(s: Seq<char>, p: int, x: Seq<char>, i: int, j: int)
    requires
        em(s, p, x),
        0 <= i <= j <= x.len(),
    ensures
        em(s, p + i, x.subrange(i, j)),
{
    assert forall|k: int| 0 <= k < j - i implies s.subrange(p + i, p + j)[k] == x.subrange(i, j)[k] by {
        lemma_em_indice(s, p, x, i + k);
    }
    assert(s.subrange(p + i, p + j) =~= x.subrange(i, j));
}

/// The parser reads back the text that `imprime_cmd` writes of a command.
pub proof fn lei_comando_impresso(c: CmdS)
    requires
        cmd_imprimivel(c),
    ensures
        cmd(imprime_cmd(c), 0) == Saida::Lido(c, imprime_cmd(c).len() as int),
{
    let s = imprime_cmd(c);
    assert(s.subrange(0, s.len() as int) =~= s);
    lemma_cmd_imprime(s, 0, c);
}

/// The texts of commands, followed by `}`, are read back as a block.
pub proof fn lemma_bloco_imprime(s: Seq<char>, q: int, cs: Seq<CmdS>, acc: Seq<CmdS>)
    requires
        cmds_imprimiveis(cs),
        em(s, q, imprime_cmds(cs)),
        q + imprime_cmds(cs).len() < s.len(),
        s[q + imprime_cmds(cs).len()] == '}',
    ensures
        bloco(s, q, acc) == Saida::Lido(acc + cs, q + imprime_cmds(cs).len()),
    decreases cs, 0int,
{
    if cs.len() == 0 {
        lemma_olha(s, q);
        assert(acc + cs =~= acc);
    } else {
        let c0 = imprime_cmd(cs[0]);
        let rest = imprime_cmds(cs.drop_first());
        lemma_em_concat(s, q, c0, rest);
        lemma_cmd_primeiro(cs[0]);
        lemma_em_indice(s, q, c0, 0);
        lemma_olha(s, q);
        lemma_cmd_imprime(s, q, cs[0]);
        lemma_bloco_imprime(s, q + c0.len(), cs.drop_first(), acc.push(cs[0]));
        assert(acc.push(cs[0]) + cs.drop_first() =~= acc + cs);
    }
}

} // verus!
