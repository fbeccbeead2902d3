//! Character classes and scanning over a sequence of characters, and the
//! numeric value of a run of digits.
use vstd::prelude::*;

verus! {

/// The classes of characters that the grammars scan runs of.
#[derive(Clone, Copy, Debug, PartialEq, Eq, Structural)]
pub enum CharClass {
    /// `0`-`9`.
    Digit,
    /// `0`-`9`, `a`-`f`, `A`-`F`.
    HexDigit,
    /// A space or a tab.
    Space,
    /// A space, a tab, a carriage return or a line feed.
    Multispace,
    /// `A`-`Z`, `0`-`9` or `_`: what follows the first letter of a
    /// constant's name.
    UpperTail,
    /// Anything but a double quote or a backslash: the plain text of a string
    /// literal.
    StringText,
    /// `a`-`z`, `0`-`9` or `_`: what follows the first letter of a module
    /// name.
    LowerTail,
    /// `A`-`Z`, `a`-`z` or `0`-`9`: what follows the first letter of a type
    /// name.
    AlnumTail,
    /// Anything but a semicolon.
    NotSemicolon,
    /// Anything but a semicolon or a line break: what a literal can span.
    LiteralText,
}

pub open spec fn is_digit(c: char) -> bool {
    '0' <= c && c <= '9'
}

pub open spec fn is_hex_digit(c: char) -> bool {
    ('0' <= c && c <= '9') || ('a' <= c && c <= 'f') || ('A' <= c && c <= 'F')
}

pub open spec fn is_upper(c: char) -> bool {
    'A' <= c && c <= 'Z'
}

pub open spec fn is_lower(c: char) -> bool {
    'a' <= c && c <= 'z'
}

pub open spec fn is_sign(c: char) -> bool {
    c == '+' || c == '-'
}

pub open spec fn in_class(c: char, class: CharClass) -> bool {
    match class {
        CharClass::Digit => is_digit(c),
        CharClass::HexDigit => is_hex_digit(c),
        CharClass::Space => c == ' ' || c == '\t',
        CharClass::Multispace => c == ' ' || c == '\t' || c == '\r' || c == '\n',
        CharClass::UpperTail => is_upper(c) || is_digit(c) || c == '_',
        CharClass::StringText => c != '"' && c != '\\',
        CharClass::LowerTail => is_lower(c) || is_digit(c) || c == '_',
        CharClass::AlnumTail => is_upper(c) || is_lower(c) || is_digit(c),
        CharClass::NotSemicolon => c != ';',
        CharClass::LiteralText => c != ';' && c != '\n' && c != '\r',
    }
}

/// The end of the longest run of `class` characters that starts at `i`.
pub open spec fn class_end(s: Seq<char>, i: int, class: CharClass) -> int
    decreases s.len() - i,
{
    if 0 <= i < s.len() && in_class(s[i], class) {
        class_end(s, i + 1, class)
    } else {
        i
    }
}

/// The value of a decimal digit.
pub open spec fn digit_value(c: char) -> nat {
    (c as int - '0' as int) as nat
}

/// The value of a hexadecimal digit.
pub open spec fn hex_digit_value(c: char) -> nat {
    if '0' <= c && c <= '9' {
        (c as int - '0' as int) as nat
    } else if 'a' <= c && c <= 'f' {
        (c as int - 'a' as int + 10) as nat
    } else {
        (c as int - 'A' as int + 10) as nat
    }
}

/// The value of the decimal digits `s[i..j]`.
pub open spec fn decimal(s: Seq<char>, i: int, j: int) -> nat
    decreases j - i,
{
    if i < j {
        decimal(s, i, j - 1) * 10 + digit_value(s[j - 1])
    } else {
        0
    }
}

/// The value of the hexadecimal digits `s[i..j]`.
pub open spec fn hexadecimal(s: Seq<char>, i: int, j: int) -> nat
    decreases j - i,
{
    if i < j {
        hexadecimal(s, i, j - 1) * 16 + hex_digit_value(s[j - 1])
    } else {
        0
    }
}

/// Two hexadecimal digits that stand for the same value: the same character,
/// or a letter `a`-`f` and its uppercase form.
pub open spec fn same_hex_digit(c: char, d: char) -> bool {
    ||| c == d
    ||| 'a' <= c <= 'f' && d as int == c as int - 32
    ||| 'a' <= d <= 'f' && c as int == d as int - 32
}

/// The digits of one case in the order of their values: `0`-`9`, then
/// `a`-`f` (when `upper` is false) or `A`-`F` (when it is true).
pub open spec fn hex_digit_of_case(c: char, upper: bool) -> bool {
    ||| is_digit(c)
    ||| !upper && 'a' <= c <= 'f'
    ||| upper && 'A' <= c <= 'F'
}

/// The value of a hexadecimal digit is below sixteen; two digits have the
/// same value exactly when they are the same digit in either case (so a
/// lowercase letter has the value of its uppercase form); and within one
/// case, a later digit has a larger value.  Together these give `0`-`9` the
/// values 0-9 and the letters `a`-`f` and `A`-`F` the values 10-15.
pub proof fn lemma_hex_digit_value(c: char, d: char, upper: bool)
    requires
        is_hex_digit(c),
        is_hex_digit(d),
    ensures
        hex_digit_value(c) < 16,
        hex_digit_value(c) == hex_digit_value(d) <==> same_hex_digit(c, d),
        hex_digit_of_case(c, upper) && hex_digit_of_case(d, upper) && c < d ==> hex_digit_value(c)
            < hex_digit_value(d),
{
}

/// The value of a run of hexadecimal digits does not depend on the case of
/// its letters: digits that stand for the same values give the same number.
pub proof fn lemma_hexadecimal_case_insensitive(s: Seq<char>, t: Seq<char>, i: int, j: int)
    requires
        0 <= i <= j <= s.len(),
        j <= t.len(),
        forall|k: int|
            i <= k < j ==> is_hex_digit(#[trigger] s[k]) && is_hex_digit(t[k]) && same_hex_digit(
                s[k],
                t[k],
            ),
    ensures
        hexadecimal(s, i, j) == hexadecimal(t, i, j),
    decreases j - i,
{
    if i < j {
        lemma_hexadecimal_case_insensitive(s, t, i, j - 1);
        lemma_hex_digit_value(s[j - 1], t[j - 1], false);
    }
}

/// The decimal digits `0`-`9` have the values 0-9, in order.
pub proof fn lemma_digit_value(c: char, d: char)
    requires
        is_digit(c),
        is_digit(d),
    ensures
        digit_value(c) < 10,
        c < d ==> digit_value(c) < digit_value(d),
        digit_value(c) == digit_value(d) <==> c == d,
{
}

/// A run of hexadecimal digits is read most significant digit first: the
/// value of `s[i..j]` is that of `s[i..k]` shifted by the `j - k` digits
/// after it, plus the value of those digits.
pub proof fn lemma_hexadecimal_split(s: Seq<char>, i: int, k: int, j: int)
    requires
        i <= k <= j,
    ensures
        hexadecimal(s, i, j) == hexadecimal(s, i, k) * pow16((j - k) as nat) + hexadecimal(s, k, j),
    decreases j - k,
{
    if k < j {
        lemma_hexadecimal_split(s, i, k, j - 1);
        let a = hexadecimal(s, i, k);
        let b = hexadecimal(s, k, j - 1);
        let p = pow16((j - 1 - k) as nat);
        assert(pow16((j - k) as nat) == 16 * p);
        assert((a * p + b) * 16 == a * (16 * p) + b * 16) by (nonlinear_arith);
        assert(hexadecimal(s, i, j) == hexadecimal(s, i, j - 1) * 16 + hex_digit_value(s[j - 1]));
        assert(hexadecimal(s, k, j) == b * 16 + hex_digit_value(s[j - 1]));
    } else {
        assert(pow16(0) == 1);
        assert(hexadecimal(s, i, k) * 1 == hexadecimal(s, i, k));
    }
}

pub open spec fn all_in_class(s: Seq<char>, i: int, j: int, class: CharClass) -> bool {
    forall|k: int| i <= k < j ==> #[trigger] in_class(s[k], class)
}

/// A run ends where the class stops, and holds only characters of the class.
pub proof fn lemma_class_end(s: Seq<char>, i: int, class: CharClass)
    requires
        0 <= i <= s.len(),
    ensures
        i <= class_end(s, i, class) <= s.len(),
        all_in_class(s, i, class_end(s, i, class), class),
        class_end(s, i, class) == s.len() || !in_class(s[class_end(s, i, class)], class),
    decreases s.len() - i,
{
    if i < s.len() && in_class(s[i], class) {
        lemma_class_end(s, i + 1, class);
    }
}

/// A run of `class` characters that stops at `j` ends at `j`.
pub proof fn lemma_class_end_exact(s: Seq<char>, i: int, j: int, class: CharClass)
    requires
        0 <= i <= j <= s.len(),
        all_in_class(s, i, j, class),
        j == s.len() || !in_class(s[j], class),
    ensures
        class_end(s, i, class) == j,
    decreases j - i,
{
    if i < j {
        assert(in_class(s[i], class));
        lemma_class_end_exact(s, i + 1, j, class);
    }
}

/// Appending digits never makes a number smaller.
pub proof fn lemma_decimal_monotonic(s: Seq<char>, i: int, k: int, j: int)
    requires
        i <= k <= j,
    ensures
        decimal(s, i, k) <= decimal(s, i, j),
    decreases j - k,
{
    if k < j {
        lemma_decimal_monotonic(s, i, k, j - 1);
    }
}

pub fn char_in_class(c: char, class: CharClass) -> (r: bool)
    ensures
        r == in_class(c, class),
{
    match class {
        CharClass::Digit => '0' <= c && c <= '9',
        CharClass::HexDigit => ('0' <= c && c <= '9') || ('a' <= c && c <= 'f') || ('A' <= c
            && c <= 'F'),
        CharClass::Space => c == ' ' || c == '\t',
        CharClass::Multispace => c == ' ' || c == '\t' || c == '\r' || c == '\n',
        CharClass::UpperTail => ('A' <= c && c <= 'Z') || ('0' <= c && c <= '9') || c == '_',
        CharClass::StringText => c != '"' && c != '\\',
        CharClass::LowerTail => ('a' <= c && c <= 'z') || ('0' <= c && c <= '9') || c == '_',
        CharClass::AlnumTail => ('A' <= c && c <= 'Z') || ('a' <= c && c <= 'z') || ('0' <= c
            && c <= '9'),
        CharClass::NotSemicolon => c != ';',
        CharClass::LiteralText => c != ';' && c != '\n' && c != '\r',
    }
}

/// Returns the end of the run of `class` characters that starts at `i`.
pub fn scan(s: &[char], i: usize, class: CharClass) -> (j: usize)
    requires
        i <= s@.len(),
    ensures
        j == class_end(s@, i as int, class),
        i <= j <= s@.len(),
{
    let mut j = i;
    while j < s.len() && char_in_class(s[j], class)
        invariant
            i <= j <= s@.len(),
            class_end(s@, j as int, class) == class_end(s@, i as int, class),
        decreases s@.len() - j,
    {
        j = j + 1;
    }
    proof {
        lemma_class_end(s@, i as int, class);
    }
    j
}

/// The value of the decimal digits `s[i..j]`, or `None` when it does not fit
/// in a `u128`.
pub fn decimal_value(s: &[char], i: usize, j: usize) -> (r: Option<u128>)
    requires
        i <= j <= s@.len(),
        all_in_class(s@, i as int, j as int, CharClass::Digit),
    ensures
        r matches Some(v) ==> v == decimal(s@, i as int, j as int),
        r is None ==> decimal(s@, i as int, j as int) > u128::MAX,
{
    let mut acc: u128 = 0;
    let mut k = i;
    while k < j
        invariant
            i <= k <= j <= s@.len(),
            all_in_class(s@, i as int, j as int, CharClass::Digit),
            acc == decimal(s@, i as int, k as int),
        decreases j - k,
    {
        let c = s[k];
        assert(in_class(s@[k as int], CharClass::Digit));
        let d = (c as u32 - '0' as u32) as u128;
        if acc > 34028236692093846346337460743176821145u128 {
            proof {
                lemma_decimal_monotonic(s@, i as int, k as int + 1, j as int);
            }
            return None;
        }
        let ten = acc * 10;
        if ten > u128::MAX - d {
            proof {
                lemma_decimal_monotonic(s@, i as int, k as int + 1, j as int);
            }
            return None;
        }
        acc = ten + d;
        k = k + 1;
    }
    Some(acc)
}

pub open spec fn pow16(n: nat) -> nat
    decreases n,
{
    if n == 0 {
        1
    } else {
        16 * pow16((n - 1) as nat)
    }
}

/// The value of at most six hexadecimal digits `s[i..j]`.
pub fn hexadecimal_value(s: &[char], i: usize, j: usize) -> (r: u32)
    requires
        i <= j <= s@.len(),
        j - i <= 6,
        all_in_class(s@, i as int, j as int, CharClass::HexDigit),
    ensures
        r == hexadecimal(s@, i as int, j as int),
        r < 0x1000000,
{
    let mut acc: u32 = 0;
    let mut k = i;
    assert(pow16(6) == 0x1000000) by {
        reveal_with_fuel(pow16, 7);
    }
    proof {
        lemma_pow16_monotonic(0, (j - i) as nat);
        lemma_pow16_monotonic((j - i) as nat, 6);
    }
    while k < j
        invariant
            i <= k <= j <= s@.len(),
            j - i <= 6,
            pow16(6) == 0x1000000,
            all_in_class(s@, i as int, j as int, CharClass::HexDigit),
            acc == hexadecimal(s@, i as int, k as int),
            acc < pow16((k - i) as nat),
            pow16((k - i) as nat) <= pow16((j - i) as nat) <= 0x1000000,
        decreases j - k,
    {
        let c = s[k];
        assert(in_class(s@[k as int], CharClass::HexDigit));
        let d: u32 = if '0' <= c && c <= '9' {
            c as u32 - '0' as u32
        } else if 'a' <= c && c <= 'f' {
            c as u32 - 'a' as u32 + 10
        } else {
            c as u32 - 'A' as u32 + 10
        };
        acc = acc * 16 + d;
        k = k + 1;
        proof {
            lemma_pow16_monotonic((k - i) as nat, (j - i) as nat);
            lemma_pow16_monotonic((j - i) as nat, 6);
        }
    }
    acc
}

pub proof fn lemma_pow16_monotonic(a: nat, b: nat)
    requires
        a <= b,
    ensures
        pow16(a) <= pow16(b),
    decreases b - a,
{
    if a < b {
        lemma_pow16_monotonic(a, (b - 1) as nat);
    }
}

} // verus!
