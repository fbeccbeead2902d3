//! The text of single Rust tokens: identifiers, integer literals and string
//! literals.
use vstd::prelude::*;

use crate::strings::push_char;

verus! {

pub open spec fn is_ascii_alpha(c: char) -> bool {
    ('a' <= c && c <= 'z') || ('A' <= c && c <= 'Z')
}

/// An identifier made of ASCII characters: a letter or underscore, then
/// letters, digits and underscores.
///
/// The code generator accepts names of this form. They are the names that
/// the schema's parsers read (see `types::lemma_name_is_ident` and
/// `consts::lemma_const_name_is_ident`); identifiers with other Unicode
/// characters, which `proc_macro2` would also take, never come from them.
pub open spec fn is_ascii_ident(s: Seq<char>) -> bool {
    &&& s.len() > 0
    &&& (is_ascii_alpha(s[0]) || s[0] == '_')
    &&& forall|i: int|
        1 <= i < s.len() ==> (is_ascii_alpha(#[trigger] s[i]) || ('0' <= s[i] && s[i] <= '9')
            || s[i] == '_')
}

pub open spec fn digit_char(d: nat) -> char {
    if d == 0 {
        '0'
    } else if d == 1 {
        '1'
    } else if d == 2 {
        '2'
    } else if d == 3 {
        '3'
    } else if d == 4 {
        '4'
    } else if d == 5 {
        '5'
    } else if d == 6 {
        '6'
    } else if d == 7 {
        '7'
    } else if d == 8 {
        '8'
    } else {
        '9'
    }
}

/// The decimal digits of `n`, without leading zeros.
pub open spec fn decimal_text(n: nat) -> Seq<char>
    decreases n,
{
    if n < 10 {
        seq![digit_char(n)]
    } else {
        decimal_text(n / 10) + seq![digit_char(n % 10)]
    }
}

/// `proc_macro2::Ident::new` at the call site, as text: the identifier
/// itself. The constructor accepts every ASCII identifier.
#[verifier::external_body]
pub(crate) fn ident(name: &str) -> (r: String)
    requires
        is_ascii_ident(name@),
    ensures
        r@ == name@,
{
    proc_macro2::Ident::new(name, proc_macro2::Span::call_site()).to_string()
}

/// `proc_macro2::Literal::u32_unsuffixed`, as text: the decimal digits of the
/// number.
#[verifier::external_body]
pub(crate) fn u32_literal(n: u32) -> (r: String)
    ensures
        r@ == decimal_text(n as nat),
{
    proc_macro2::Literal::u32_unsuffixed(n).to_string()
}

/// `proc_macro2::Literal::string`, as text: for an ASCII identifier, the
/// identifier between double quotes (other text gets escapes, which this
/// contract leaves unsaid).
#[verifier::external_body]
pub(crate) fn string_literal(s: &str) -> (r: String)
    ensures
        is_ascii_ident(s@) ==> r@ == seq!['"'] + s@ + seq!['"'],
{
    proc_macro2::Literal::string(s).to_string()
}

fn digit(d: usize) -> (c: char)
    requires
        d < 10,
    ensures
        c == digit_char(d as nat),
{
    if d == 0 {
        '0'
    } else if d == 1 {
        '1'
    } else if d == 2 {
        '2'
    } else if d == 3 {
        '3'
    } else if d == 4 {
        '4'
    } else if d == 5 {
        '5'
    } else if d == 6 {
        '6'
    } else if d == 7 {
        '7'
    } else if d == 8 {
        '8'
    } else {
        '9'
    }
}

/// Appends the decimal digits of `n`.
pub fn push_decimal(out: &mut String, n: usize)
    ensures
        final(out)@ == old(out)@ + decimal_text(n as nat),
    decreases n,
{
    if n >= 10 {
        push_decimal(out, n / 10);
        push_char(out, digit(n % 10));
        assert(final(out)@ =~= old(out)@ + decimal_text(n as nat));
    } else {
        push_char(out, digit(n));
        assert(final(out)@ =~= old(out)@ + decimal_text(n as nat));
    }
}

} // verus!
