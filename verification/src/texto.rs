//! Building text: appending characters and decimal numerals to a `String`.
use vstd::prelude::*;

verus! {

/// Appends `c` to `s`.
///
/// Trusted: calls `String::push`, which std documents as appending the
/// character to the end of the string.
#[verifier::external_body]
pub(crate) fn empurra(s: &mut String, c: char)
    ensures
        final(s)@ == old(s)@.push(c),
{
    s.push(c)
}

/// The character of a decimal digit `d < 10`.
pub open spec fn char_digito(d: nat) -> char {
    if d == 0 { '0' }
    else if d == 1 { '1' }
    else if d == 2 { '2' }
    else if d == 3 { '3' }
    else if d == 4 { '4' }
    else if d == 5 { '5' }
    else if d == 6 { '6' }
    else if d == 7 { '7' }
    else if d == 8 { '8' }
    else { '9' }
}

/// The decimal numeral of `n`, without leading zeros.
pub open spec fn decimal(n: nat) -> Seq<char>
    decreases n,
{
    if n < 10 {
        seq![char_digito(n)]
    } else {
        decimal(n / 10).push(char_digito(n % 10))
    }
}

/// The decimal numeral of an integer, with a leading `-` when negative.
pub open spec fn decimal_com_sinal(n: int) -> Seq<char> {
    if n < 0 {
        seq!['-'] + decimal((-n) as nat)
    } else {
        decimal(n as nat)
    }
}

fn digito_char(d: u64) -> (c: char)
    requires
        d < 10,
    ensures
        c == char_digito(d as nat),
{
    if d == 0 { '0' }
    else if d == 1 { '1' }
    else if d == 2 { '2' }
    else if d == 3 { '3' }
    else if d == 4 { '4' }
    else if d == 5 { '5' }
    else if d == 6 { '6' }
    else if d == 7 { '7' }
    else if d == 8 { '8' }
    else { '9' }
}

/// Appends the decimal numeral of `n` to `s`.
pub fn escreve_natural(s: &mut String, n: u64)
    ensures
        final(s)@ == old(s)@ + decimal(n as nat),
    decreases n,
{
    if n >= 10 {
        escreve_natural(s, n / 10);
    }
    let c = digito_char(n % 10);
    empurra(s, c);
    proof {
        if n < 10 {
            assert(decimal(n as nat) == seq![char_digito(n as nat)]);
        }
    }
    assert(final(s)@ =~= old(s)@ + decimal(n as nat));
}

/// Appends the decimal numeral of `n`, with its sign, to `s`.
pub fn escreve_inteiro(s: &mut String, n: i64)
    ensures
        final(s)@ == old(s)@ + decimal_com_sinal(n as int),
{
    if n < 0 {
        empurra(s, '-');
        let m: u64 = if n == i64::MIN { 9223372036854775808u64 } else { (-n) as u64 };
        escreve_natural(s, m);
        assert(final(s)@ =~= old(s)@ + decimal_com_sinal(n as int));
    } else {
        escreve_natural(s, n as u64);
    }
}

/// A decimal numeral is made of digits, at least one.
pub proof fn lemma_decimal_digitos(n: nat)
    ensures
        decimal(n).len() >= 1,
        forall|k: int| 0 <= k < decimal(n).len() ==> '0' <= #[trigger] decimal(n)[k] <= '9',
    decreases n,
{
    if n >= 10 {
        lemma_decimal_digitos(n / 10);
        let d = decimal(n / 10);
        assert forall|k: int| 0 <= k < decimal(n).len() implies '0' <= #[trigger] decimal(n)[k]
            <= '9' by {
            if k < d.len() {
                assert(decimal(n)[k] == d[k]);
            }
        }
    }
}

/// Different numbers have different decimal numerals.
pub proof fn lemma_decimal_injetivo(a: nat, b: nat)
    requires
        decimal(a) == decimal(b),
    ensures
        a == b,
    decreases a,
{
    lemma_decimal_digitos(a);
    lemma_decimal_digitos(b);
    if a >= 10 && b >= 10 {
        let da = decimal(a / 10);
        let db = decimal(b / 10);
        lemma_decimal_digitos(a / 10);
        lemma_decimal_digitos(b / 10);
        assert(decimal(a).last() == char_digito(a % 10));
        assert(decimal(b).last() == char_digito(b % 10));
        assert(decimal(a).drop_last() =~= da);
        assert(decimal(b).drop_last() =~= db);
        lemma_decimal_injetivo(a / 10, b / 10);
    } else if a >= 10 {
        lemma_decimal_digitos(a / 10);
    } else if b >= 10 {
        lemma_decimal_digitos(b / 10);
    } else {
        assert(decimal(a)[0] == char_digito(a));
        assert(decimal(b)[0] == char_digito(b));
    }
}

/// Different integers have different signed numerals; a signed numeral
/// starts with `-` or a digit, and has no `'\n'`.
pub proof fn lemma_decimal_com_sinal(v: int)
    ensures
        decimal_com_sinal(v).len() >= 1,
        decimal_com_sinal(v)[0] == '-' || '0' <= decimal_com_sinal(v)[0] <= '9',
        forall|k: int| 0 <= k < decimal_com_sinal(v).len() ==> #[trigger] decimal_com_sinal(v)[k] != '\n',
        forall|w: int| decimal_com_sinal(w) == decimal_com_sinal(v) ==> w == v,
{
    if v < 0 {
        lemma_decimal_digitos((-v) as nat);
    } else {
        lemma_decimal_digitos(v as nat);
    }
    let t = decimal_com_sinal(v);
    assert forall|k: int| 0 <= k < t.len() implies #[trigger] t[k] != '\n' by {
        if v < 0 && k > 0 {
            assert(t[k] == decimal((-v) as nat)[k - 1]);
        }
    }
    assert forall|w: int| decimal_com_sinal(w) == decimal_com_sinal(v) implies w == v by {
        if w < 0 {
            lemma_decimal_digitos((-w) as nat);
        } else {
            lemma_decimal_digitos(w as nat);
        }
        let u = decimal_com_sinal(w);
        if v < 0 && w < 0 {
            assert(u.drop_first() =~= decimal((-w) as nat));
            assert(t.drop_first() =~= decimal((-v) as nat));
            lemma_decimal_injetivo((-w) as nat, (-v) as nat);
        } else if v >= 0 && w >= 0 {
            lemma_decimal_injetivo(w as nat, v as nat);
        } else {
            assert(u[0] == t[0]);
        }
    }
}

} // verus!
