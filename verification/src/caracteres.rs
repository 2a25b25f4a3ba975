//! Classes of characters that the lexer distinguishes.
use vstd::prelude::*;

verus! {

/// Characters with the Unicode `White_Space` property.
pub open spec fn eh_espaco(c: char) -> bool {
    ||| '\u{9}' <= c <= '\u{d}'
    ||| c == ' '
    ||| c == '\u{85}'
    ||| c == '\u{a0}'
    ||| c == '\u{1680}'
    ||| '\u{2000}' <= c <= '\u{200a}'
    ||| c == '\u{2028}'
    ||| c == '\u{2029}'
    ||| c == '\u{202f}'
    ||| c == '\u{205f}'
    ||| c == '\u{3000}'
}

/// ASCII decimal digits.
pub open spec fn eh_digito(c: char) -> bool {
    '0' <= c <= '9'
}

/// ASCII letters.
pub open spec fn eh_letra(c: char) -> bool {
    ('a' <= c <= 'z') || ('A' <= c <= 'Z')
}

/// ASCII letters and digits.
pub open spec fn eh_alfanum(c: char) -> bool {
    eh_letra(c) || eh_digito(c)
}

/// The value of an ASCII decimal digit.
pub open spec fn valor_digito(c: char) -> int {
    c as int - '0' as int
}

/// Tests for a whitespace character, as `char::is_whitespace` does.
pub fn espaco(c: char) -> (r: bool)
    ensures
        r == eh_espaco(c),
{
    ('\u{9}' <= c && c <= '\u{d}') || c == ' ' || c == '\u{85}' || c == '\u{a0}' || c == '\u{1680}'
        || ('\u{2000}' <= c && c <= '\u{200a}') || c == '\u{2028}' || c == '\u{2029}' || c
        == '\u{202f}' || c == '\u{205f}' || c == '\u{3000}'
}

/// Tests for an ASCII decimal digit.
pub fn digito(c: char) -> (r: bool)
    ensures
        r == eh_digito(c),
{
    '0' <= c && c <= '9'
}

/// Tests for an ASCII letter.
pub fn letra(c: char) -> (r: bool)
    ensures
        r == eh_letra(c),
{
    ('a' <= c && c <= 'z') || ('A' <= c && c <= 'Z')
}

/// Tests for an ASCII letter or digit.
pub fn alfanum(c: char) -> (r: bool)
    ensures
        r == eh_alfanum(c),
{
    letra(c) || digito(c)
}

/// The value of an ASCII decimal digit.
pub fn valor_de_digito(c: char) -> (r: u32)
    requires
        eh_digito(c),
    ensures
        r == valor_digito(c),
        r < 10,
{
    (c as u32) - ('0' as u32)
}

} // verus!
