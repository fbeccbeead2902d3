//! Literal values of a schema: booleans, integers, floating point numbers,
//! strings and byte lists.
//!
//! Every parser takes the input as a slice of characters and the position at
//! which to start, and on success returns the value with the position just
//! after what it consumed. Locations in errors are positions in that slice.
use vstd::prelude::*;
use vstd::utf8::is_scalar;
use std::ops::Range;

use crate::error::{char_miss, ErrMode, ErrorKind};
use crate::strings::{push_char, push_chars, string_of};
use crate::text::{
    all_in_class, class_end, decimal, decimal_value, hexadecimal, hexadecimal_value, in_class,
    is_digit, is_sign, lemma_class_end, lemma_class_end_exact, scan, CharClass,
};

verus! {

/// Why text could not be converted to an integer, named as
/// `std::num::IntErrorKind` names it.
#[derive(Clone, Copy, Debug, PartialEq, Eq, Structural)]
pub enum IntErrorKind {
    /// The text is empty.
    Empty,
    /// The text holds a character that is no digit.
    InvalidDigit,
    /// The value is too large for the integer type.
    PosOverflow,
    /// The value is too small for the integer type.
    NegOverflow,
    /// The value is zero where zero is not allowed.
    Zero,
}

/// An error of converting text to an integer, as `std::num::ParseIntError`
/// reports it: by its kind.
#[derive(Clone, Copy, Debug, PartialEq, Eq, Structural)]
pub struct ParseIntError {
    pub kind: IntErrorKind,
}

impl ParseIntError {
    /// The kind of the error.
    pub fn kind(&self) -> (k: &IntErrorKind)
        ensures
            *k == self.kind,
    {
        &self.kind
    }
}

/// Encountered an invalid literal declaration.
#[derive(Debug, PartialEq, Eq)]
pub struct ParseError {
    /// Source location of the whole literal.
    pub at: Range<usize>,
    /// Specific cause of the error.
    pub cause: Cause,
}

/// Specific reason why a literal declaration was invalid.
#[derive(Debug, PartialEq, Eq)]
pub enum Cause {
    /// Non-specific general parser error.
    Parser(ErrorKind),
    /// Found a reference value, which is not allowed.
    FoundReference {
        /// Source location of the character.
        at: usize,
    },
    /// Encountered an invalid integer literal.
    InvalidInt {
        /// Source location of the character.
        at: usize,
    },
    /// Failed to parse value as integer.
    ParseInt {
        /// Source location of the character.
        at: usize,
        /// Inner error that cause the failure.
        cause: ParseIntError,
    },
}

/// A literal value.
///
/// A floating point number is kept as the text that spells it.
#[derive(Debug, PartialEq, Eq)]
pub enum Literal {
    Bool(bool),
    Int(i128),
    Float(String),
    String(String),
    Bytes(Vec<u8>),
}

/// The mathematical value of a [`Literal`].
pub enum LiteralView {
    Bool(bool),
    Int(i128),
    Float(Seq<char>),
    String(Seq<char>),
    Bytes(Seq<u8>),
}

impl View for Literal {
    type V = LiteralView;

    open spec fn view(&self) -> LiteralView {
        match self {
            Literal::Bool(b) => LiteralView::Bool(*b),
            Literal::Int(i) => LiteralView::Int(*i),
            Literal::Float(t) => LiteralView::Float(t@),
            Literal::String(t) => LiteralView::String(t@),
            Literal::Bytes(b) => LiteralView::Bytes(b@),
        }
    }
}

/// A piece of the inside of a string literal.
pub enum Fragment {
    /// The plain characters at positions `start..end` of the input.
    Literal(usize, usize),
    /// The character that an escape sequence stands for.
    EscapedChar(char),
    /// A backslash followed by whitespace, which stands for nothing.
    EscapedWhitespace,
}

/// A spec-level parse outcome: the value and the position after it, or the
/// failure.
pub type SpecResult<T, E> = Result<(T, int), ErrMode<E>>;

/// An executable outcome agrees with a spec-level one: the same failure, or
/// a value whose view is the spec value at the same position.
pub open spec fn agrees<T: View>(r: Result<(T, usize), ErrMode<Cause>>, s: SpecResult<T::V, Cause>) -> bool {
    match (r, s) {
        (Ok((v, i)), Ok((w, j))) => v@ == w && i == j,
        (Err(e), Err(f)) => e == f,
        _ => false,
    }
}

/// An executable literal agrees with a spec-level one.
pub open spec fn literal_agrees(r: Result<(Literal, usize), ErrMode<ParseError>>, s: SpecResult<LiteralView, ParseError>) -> bool {
    match (r, s) {
        (Ok((v, i)), Ok((w, j))) => v@ == w && i == j,
        (Err(e), Err(f)) => e == f,
        _ => false,
    }
}

pub open spec fn sign_end(s: Seq<char>, p: int) -> int {
    if 0 <= p < s.len() && is_sign(s[p]) {
        p + 1
    } else {
        p
    }
}

pub open spec fn digits_end(s: Seq<char>, i: int) -> int {
    class_end(s, i, CharClass::Digit)
}

pub open spec fn ws_end(s: Seq<char>, i: int) -> int {
    class_end(s, i, CharClass::Multispace)
}

/// The characters `t` stand at position `p` of `s`.
pub open spec fn tag_at(s: Seq<char>, p: int, t: Seq<char>) -> bool {
    0 <= p && p + t.len() <= s.len() && s.subrange(p, p + t.len()) == t
}

pub open spec fn spec_parse_true(s: Seq<char>, p: int) -> SpecResult<bool, Cause> {
    if tag_at(s, p, seq!['t', 'r', 'u', 'e']) {
        Ok((true, p + 4))
    } else {
        Err(ErrMode::Backtrack(Cause::Parser(ErrorKind::Tag)))
    }
}

pub open spec fn spec_parse_false(s: Seq<char>, p: int) -> SpecResult<bool, Cause> {
    if tag_at(s, p, seq!['f', 'a', 'l', 's', 'e']) {
        Ok((false, p + 5))
    } else {
        Err(ErrMode::Backtrack(Cause::Parser(ErrorKind::Tag)))
    }
}

/// A floating point number: an optional sign, digits, a dot, digits, and an
/// optional exponent made of `e` or `E`, an optional sign and digits. Once
/// the exponent's letter is read, its digits are required.
pub open spec fn spec_parse_float(s: Seq<char>, p: int) -> SpecResult<Seq<char>, Cause> {
    let q = sign_end(s, p);
    let a = digits_end(s, q);
    if a == q {
        Err(ErrMode::Backtrack(Cause::Parser(ErrorKind::Slice)))
    } else if !(a < s.len() && s[a] == '.') {
        Err(ErrMode::Backtrack(Cause::Parser(char_miss(s, a))))
    } else {
        let b = digits_end(s, a + 1);
        if b == a + 1 {
            Err(ErrMode::Backtrack(Cause::Parser(ErrorKind::Slice)))
        } else if b < s.len() && (s[b] == 'e' || s[b] == 'E') {
            let c = sign_end(s, b + 1);
            let d = digits_end(s, c);
            if d == c {
                Err(ErrMode::Cut(Cause::Parser(ErrorKind::Slice)))
            } else {
                Ok((s.subrange(p, d), d))
            }
        } else {
            Ok((s.subrange(p, b), b))
        }
    }
}

/// The value of an optional sign followed by the digits `s[q..a]`.
pub open spec fn signed_value(s: Seq<char>, p: int, q: int, a: int) -> int {
    if q > p && s[p] == '-' {
        -decimal(s, q, a)
    } else {
        decimal(s, q, a) as int
    }
}

/// An integer: an optional sign and digits. Without digits it is an invalid
/// integer after the sign; a value that does not fit in an `i128` fails to
/// convert, at the start.
pub open spec fn spec_parse_int(s: Seq<char>, p: int) -> SpecResult<i128, Cause> {
    let q = sign_end(s, p);
    let a = digits_end(s, q);
    if a == q {
        Err(ErrMode::Backtrack(Cause::InvalidInt { at: q as usize }))
    } else {
        let v = signed_value(s, p, q, a);
        if i128::MIN <= v <= i128::MAX {
            Ok((v as i128, a))
        } else {
            Err(
                ErrMode::Backtrack(
                    Cause::ParseInt { at: p as usize, cause: ParseIntError { kind: overflow_kind(v) } },
                ),
            )
        }
    }
}

/// The kind of error of a value out of the `i128` range: too large or too
/// small.
pub open spec fn overflow_kind(v: int) -> IntErrorKind {
    if v > i128::MAX {
        IntErrorKind::PosOverflow
    } else {
        IntErrorKind::NegOverflow
    }
}

/// Text made of an optional sign and at least one decimal digit.
pub open spec fn is_int_text(t: Seq<char>) -> bool {
    let q = sign_end(t, 0);
    q < t.len() && all_in_class(t, q, t.len() as int, CharClass::Digit)
}

/// The value of such text.
pub open spec fn int_text_value(t: Seq<char>) -> int {
    signed_value(t, 0, sign_end(t, 0), t.len() as int)
}

/// The character that a backslash followed by `c` stands for, for the
/// escapes that are one character long.
pub open spec fn simple_escape(c: char) -> Option<char> {
    if c == 'n' {
        Some('\n')
    } else if c == 'r' {
        Some('\r')
    } else if c == 't' {
        Some('\t')
    } else if c == 'b' {
        Some('\u{08}')
    } else if c == 'f' {
        Some('\u{0c}')
    } else if c == '\\' {
        Some('\\')
    } else if c == '\0' {
        Some('\0')
    } else if c == '/' {
        Some('/')
    } else if c == '"' {
        Some('"')
    } else {
        None
    }
}

/// The end of the hexadecimal digits of a unicode escape that start at `i`:
/// at most six of them are taken.
pub open spec fn hex_end(s: Seq<char>, i: int) -> int {
    let e = class_end(s, i, CharClass::HexDigit);
    if e - i > 6 {
        i + 6
    } else {
        e
    }
}

/// `u{` one to six hexadecimal digits `}` at `u`, naming a unicode scalar
/// value. Once `u` is read, the braces and digits are required; a number that
/// is no scalar value can be backtracked from.
pub open spec fn spec_parse_string_unicode(s: Seq<char>, u: int) -> SpecResult<char, Cause> {
    if !(0 <= u < s.len() && s[u] == 'u') {
        Err(ErrMode::Backtrack(Cause::Parser(char_miss(s, u))))
    } else if !(u + 1 < s.len() && s[u + 1] == '{') {
        Err(ErrMode::Cut(Cause::Parser(char_miss(s, u + 1))))
    } else {
        let h = hex_end(s, u + 2);
        if h == u + 2 {
            Err(ErrMode::Cut(Cause::Parser(ErrorKind::Slice)))
        } else if !(h < s.len() && s[h] == '}') {
            Err(ErrMode::Cut(Cause::Parser(char_miss(s, h))))
        } else {
            let v = hexadecimal(s, u + 2, h);
            if is_scalar(v as u32) {
                Ok(((v as u32) as char, h + 1))
            } else {
                Err(ErrMode::Backtrack(Cause::Parser(ErrorKind::Verify)))
            }
        }
    }
}

/// A backslash followed by a one-character escape or a unicode escape.
pub open spec fn spec_parse_string_escaped_char(s: Seq<char>, i: int) -> SpecResult<char, Cause> {
    if !(0 <= i < s.len() && s[i] == '\\') {
        Err(ErrMode::Backtrack(Cause::Parser(char_miss(s, i))))
    } else if i + 1 >= s.len() {
        Err(ErrMode::Backtrack(Cause::Parser(ErrorKind::Token)))
    } else {
        match simple_escape(s[i + 1]) {
            Some(c) => Ok((c, i + 2)),
            None => if s[i + 1] == 'u' {
                spec_parse_string_unicode(s, i + 1)
            } else {
                Err(ErrMode::Backtrack(Cause::Parser(ErrorKind::Fail)))
            },
        }
    }
}

/// A backslash followed by at least one whitespace character; returns the
/// end of the whitespace.
pub open spec fn spec_parse_string_escaped_whitespace(s: Seq<char>, i: int) -> Result<
    int,
    ErrMode<Cause>,
> {
    if !(0 <= i < s.len() && s[i] == '\\') {
        Err(ErrMode::Backtrack(Cause::Parser(char_miss(s, i))))
    } else {
        let e = ws_end(s, i + 1);
        if e == i + 1 {
            Err(ErrMode::Backtrack(Cause::Parser(ErrorKind::Slice)))
        } else {
            Ok(e)
        }
    }
}

/// One or more characters that are neither a double quote nor a backslash;
/// returns their end.
pub open spec fn spec_parse_string_literal(s: Seq<char>, i: int) -> Result<int, ErrMode<Cause>> {
    let e = class_end(s, i, CharClass::StringText);
    if e == i {
        Err(ErrMode::Backtrack(Cause::Parser(ErrorKind::Slice)))
    } else {
        Ok(e)
    }
}

/// A piece of a string: plain text, an escaped character or escaped
/// whitespace, tried in that order; gives the characters it stands for.
pub open spec fn spec_parse_fragment(s: Seq<char>, i: int) -> SpecResult<Seq<char>, Cause> {
    match spec_parse_string_literal(s, i) {
        Ok(e) => Ok((s.subrange(i, e), e)),
        Err(_) => match spec_parse_string_escaped_char(s, i) {
            Ok((c, j)) => Ok((seq![c], j)),
            Err(ErrMode::Cut(c)) => Err(ErrMode::Cut(c)),
            Err(ErrMode::Backtrack(_)) => match spec_parse_string_escaped_whitespace(s, i) {
                Ok(e) => Ok((Seq::empty(), e)),
                Err(m) => Err(m),
            },
        },
    }
}

/// The inside of a string from `i` on: as many fragments as parse. Gives the
/// characters and the position after the last fragment, or the cause of an
/// unrecoverable failure in a fragment.
pub open spec fn spec_string_body(s: Seq<char>, i: int) -> Result<(Seq<char>, int), Cause>
    decreases s.len() - i,
{
    match spec_parse_fragment(s, i) {
        Ok((t, j)) => if i < j <= s.len() {
            match spec_string_body(s, j) {
                Ok((r, k)) => Ok((t + r, k)),
                Err(c) => Err(c),
            }
        } else {
            Ok((Seq::empty(), i))
        },
        Err(ErrMode::Backtrack(_)) => Ok((Seq::empty(), i)),
        Err(ErrMode::Cut(c)) => Err(c),
    }
}

/// A string: a double quote, fragments, and a closing double quote, which is
/// required once the opening one is read.
pub open spec fn spec_parse_string(s: Seq<char>, p: int) -> SpecResult<Seq<char>, Cause> {
    if !(0 <= p < s.len() && s[p] == '"') {
        Err(ErrMode::Backtrack(Cause::Parser(char_miss(s, p))))
    } else {
        match spec_string_body(s, p + 1) {
            Err(c) => Err(ErrMode::Cut(c)),
            Ok((t, k)) => if k < s.len() && s[k] == '"' {
                Ok((t, k + 1))
            } else {
                Err(ErrMode::Cut(Cause::Parser(char_miss(s, k))))
            },
        }
    }
}

/// A decimal number that fits in a `u8`.
pub open spec fn spec_parse_u8(s: Seq<char>, i: int) -> SpecResult<u8, Cause> {
    let e = digits_end(s, i);
    if e == i {
        Err(ErrMode::Backtrack(Cause::Parser(ErrorKind::Slice)))
    } else if decimal(s, i, e) <= 255 {
        Ok((decimal(s, i, e) as u8, e))
    } else {
        Err(ErrMode::Backtrack(Cause::Parser(ErrorKind::Verify)))
    }
}

/// A `u8` with the whitespace around it.
pub open spec fn spec_parse_ws_u8(s: Seq<char>, i: int) -> SpecResult<u8, Cause> {
    match spec_parse_u8(s, ws_end(s, i)) {
        Ok((b, e)) => Ok((b, ws_end(s, e))),
        Err(m) => Err(m),
    }
}

/// The further elements of a byte list from `i` on: each a comma and a
/// `u8`, with whitespace around both. The list ends before the first comma
/// that is not followed by a `u8`.
pub open spec fn spec_bytes_rest(s: Seq<char>, i: int) -> (Seq<u8>, int)
    decreases s.len() - i,
{
    let c = ws_end(s, i);
    if 0 <= c < s.len() && s[c] == ',' {
        match spec_parse_ws_u8(s, c + 1) {
            Ok((b, e)) => if i < e <= s.len() {
                let (r, k) = spec_bytes_rest(s, e);
                (seq![b] + r, k)
            } else {
                (Seq::empty(), i)
            },
            Err(_) => (Seq::empty(), i),
        }
    } else {
        (Seq::empty(), i)
    }
}

/// The position of the closing bracket of a byte list whose elements end at
/// `k`: whitespace and one optional comma may come first.
pub open spec fn bytes_close(s: Seq<char>, k: int) -> int {
    let k1 = ws_end(s, k);
    if 0 <= k1 < s.len() && s[k1] == ',' {
        ws_end(s, k1 + 1)
    } else {
        k1
    }
}

/// A byte list: `[`, one or more `u8` separated by commas, an optional
/// trailing comma and `]`, with whitespace allowed around every element,
/// comma and the closing bracket. After the opening bracket nothing can be
/// backtracked from.
pub open spec fn spec_parse_bytes(s: Seq<char>, p: int) -> SpecResult<Seq<u8>, Cause> {
    if !(0 <= p < s.len() && s[p] == '[') {
        Err(ErrMode::Backtrack(Cause::Parser(char_miss(s, p))))
    } else {
        match spec_parse_ws_u8(s, p + 1) {
            Err(m) => Err(ErrMode::Cut(m.inner())),
            Ok((b, e)) => {
                let (r, k) = spec_bytes_rest(s, e);
                let m = bytes_close(s, k);
                if m < s.len() && s[m] == ']' {
                    Ok((seq![b] + r, ws_end(s, m + 1)))
                } else {
                    Err(ErrMode::Cut(Cause::Parser(char_miss(s, m))))
                }
            },
        }
    }
}

/// Where the text of a literal that starts at `p` ends: at the first
/// semicolon or line break, or at the end of the input.
pub open spec fn literal_end(s: Seq<char>, p: int) -> int {
    class_end(s, p, CharClass::LiteralText)
}

/// The error that a failure of a literal's parts becomes: the cause with the
/// range of the whole literal.
pub open spec fn error_at(s: Seq<char>, p: int, cause: Cause) -> ParseError {
    ParseError { at: Range { start: p as usize, end: literal_end(s, p) as usize }, cause }
}

pub open spec fn located<T>(r: SpecResult<T, Cause>, s: Seq<char>, p: int) -> SpecResult<T, ParseError> {
    match r {
        Ok(v) => Ok(v),
        Err(ErrMode::Backtrack(c)) => Err(ErrMode::Backtrack(error_at(s, p, c))),
        Err(ErrMode::Cut(c)) => Err(ErrMode::Cut(error_at(s, p, c))),
    }
}

/// A literal, chosen by its first character: `t` and `f` for booleans, a sign
/// or a digit for numbers (a float first, else an integer, and no backtracking
/// once either fails), `"` for strings and `[` for byte lists. A reference,
/// `&` followed by a literal, is refused as such, with the range of both.
/// Anything else is refused. Other errors cover the whole literal, up to the
/// next semicolon or line break.
pub open spec fn spec_parse(s: Seq<char>, p: int) -> SpecResult<LiteralView, ParseError>
    decreases s.len() - p,
{
    if !(0 <= p < s.len()) {
        Err(ErrMode::Backtrack(error_at(s, p, Cause::Parser(ErrorKind::Token))))
    } else {
        let c = s[p];
        if c == 't' {
            match spec_parse_true(s, p) {
                Ok((b, e)) => Ok((LiteralView::Bool(b), e)),
                Err(m) => located::<LiteralView>(Err(m), s, p),
            }
        } else if c == 'f' {
            match spec_parse_false(s, p) {
                Ok((b, e)) => Ok((LiteralView::Bool(b), e)),
                Err(m) => located::<LiteralView>(Err(m), s, p),
            }
        } else if is_sign(c) || is_digit(c) {
            match spec_parse_float(s, p) {
                Ok((t, e)) => Ok((LiteralView::Float(t), e)),
                Err(ErrMode::Cut(x)) => Err(ErrMode::Cut(error_at(s, p, x))),
                Err(ErrMode::Backtrack(_)) => match spec_parse_int(s, p) {
                    Ok((v, e)) => Ok((LiteralView::Int(v), e)),
                    Err(m) => Err(ErrMode::Cut(error_at(s, p, m.inner()))),
                },
            }
        } else if c == '"' {
            match spec_parse_string(s, p) {
                Ok((t, e)) => Ok((LiteralView::String(t), e)),
                Err(m) => located::<LiteralView>(Err(m), s, p),
            }
        } else if c == '[' {
            match spec_parse_bytes(s, p) {
                Ok((b, e)) => Ok((LiteralView::Bytes(b), e)),
                Err(m) => located::<LiteralView>(Err(m), s, p),
            }
        } else if c == '&' {
            match spec_parse(s, p + 1) {
                Ok((_, e)) => Err(
                    ErrMode::Cut(
                        ParseError {
                            at: Range { start: p as usize, end: e as usize },
                            cause: Cause::FoundReference { at: p as usize },
                        },
                    ),
                ),
                Err(_) => Err(ErrMode::Backtrack(error_at(s, p, Cause::Parser(ErrorKind::Fail)))),
            }
        } else {
            Err(ErrMode::Backtrack(error_at(s, p, Cause::Parser(ErrorKind::Fail))))
        }
    }
}


/// `char::from_u32`: the character with the given code point, or `None` when
/// the value is not a unicode scalar value.
#[verifier::external_body]
pub(crate) fn char_from_u32(v: u32) -> (r: Option<char>)
    ensures
        r is Some <==> is_scalar(v),
        r matches Some(c) ==> c as u32 == v,
{
    char::from_u32(v)
}

/// The position after an optional sign at `p`.
pub fn skip_sign(s: &[char], p: usize) -> (q: usize)
    requires
        p <= s@.len(),
    ensures
        q == sign_end(s@, p as int),
        p <= q <= s@.len(),
{
    if p < s.len() && (s[p] == '+' || s[p] == '-') {
        p + 1
    } else {
        p
    }
}

/// Parses the boolean `true`.
pub fn parse_true(s: &[char], p: usize) -> (r: Result<(bool, usize), ErrMode<Cause>>)
    requires
        p <= s@.len(),
    ensures
        agrees(r, spec_parse_true(s@, p as int)),
        r matches Ok((_, e)) ==> p < e <= s@.len(),
{
    let ghost t = seq!['t', 'r', 'u', 'e'];
    if s.len() - p >= 4 && s[p] == 't' && s[p + 1] == 'r' && s[p + 2] == 'u' && s[p + 3] == 'e' {
        assert(s@.subrange(p as int, p + 4) =~= t);
        Ok((true, p + 4))
    } else {
        proof {
            if tag_at(s@, p as int, t) {
                assert(s@.subrange(p as int, p + 4)[0] == t[0]);
                assert(s@.subrange(p as int, p + 4)[1] == t[1]);
                assert(s@.subrange(p as int, p + 4)[2] == t[2]);
                assert(s@.subrange(p as int, p + 4)[3] == t[3]);
            }
        }
        Err(ErrMode::Backtrack(Cause::Parser(ErrorKind::Tag)))
    }
}

/// Parses the boolean `false`.
pub fn parse_false(s: &[char], p: usize) -> (r: Result<(bool, usize), ErrMode<Cause>>)
    requires
        p <= s@.len(),
    ensures
        agrees(r, spec_parse_false(s@, p as int)),
        r matches Ok((_, e)) ==> p < e <= s@.len(),
{
    let ghost t = seq!['f', 'a', 'l', 's', 'e'];
    if s.len() - p >= 5 && s[p] == 'f' && s[p + 1] == 'a' && s[p + 2] == 'l' && s[p + 3] == 's'
        && s[p + 4] == 'e' {
        assert(s@.subrange(p as int, p + 5) =~= t);
        Ok((false, p + 5))
    } else {
        proof {
            if tag_at(s@, p as int, t) {
                assert(s@.subrange(p as int, p + 5)[0] == t[0]);
                assert(s@.subrange(p as int, p + 5)[1] == t[1]);
                assert(s@.subrange(p as int, p + 5)[2] == t[2]);
                assert(s@.subrange(p as int, p + 5)[3] == t[3]);
                assert(s@.subrange(p as int, p + 5)[4] == t[4]);
            }
        }
        Err(ErrMode::Backtrack(Cause::Parser(ErrorKind::Tag)))
    }
}

/// Recognizes a floating point number and returns its text.
pub fn parse_float(s: &[char], p: usize) -> (r: Result<(String, usize), ErrMode<Cause>>)
    requires
        p <= s@.len(),
    ensures
        agrees(r, spec_parse_float(s@, p as int)),
        r matches Ok((_, e)) ==> p < e <= s@.len(),
{
    let q = skip_sign(s, p);
    let a = scan(s, q, CharClass::Digit);
    if a == q {
        return Err(ErrMode::Backtrack(Cause::Parser(ErrorKind::Slice)));
    }
    if !(a < s.len() && s[a] == '.') {
        return Err(ErrMode::Backtrack(Cause::Parser(crate::error::char_miss_kind(s, a))));
    }
    let b = scan(s, a + 1, CharClass::Digit);
    if b == a + 1 {
        return Err(ErrMode::Backtrack(Cause::Parser(ErrorKind::Slice)));
    }
    if b < s.len() && (s[b] == 'e' || s[b] == 'E') {
        let c = skip_sign(s, b + 1);
        let d = scan(s, c, CharClass::Digit);
        if d == c {
            return Err(ErrMode::Cut(Cause::Parser(ErrorKind::Slice)));
        }
        Ok((string_of(s, p, d), d))
    } else {
        Ok((string_of(s, p, b), b))
    }
}

/// Parses an integer that fits in an `i128`.
pub fn parse_int(s: &[char], p: usize) -> (r: Result<(i128, usize), ErrMode<Cause>>)
    requires
        p <= s@.len(),
    ensures
        agrees(r, spec_parse_int(s@, p as int)),
        r matches Ok((_, e)) ==> p < e <= s@.len(),
{
    let q = skip_sign(s, p);
    let a = scan(s, q, CharClass::Digit);
    if a == q {
        return Err(ErrMode::Backtrack(Cause::InvalidInt { at: q }));
    }
    proof {
        lemma_class_end(s@, q as int, CharClass::Digit);
    }
    let text = string_of(s, p, a);
    proof {
        lemma_int_text(s@, p as int, a as int);
    }
    match parse_i128(text.as_str()) {
        Ok(v) => Ok((v, a)),
        Err(kind) => Err(ErrMode::Backtrack(Cause::ParseInt { at: p, cause: ParseIntError { kind } })),
    }
}

/// `str::parse::<i128>` on an optional sign followed by decimal digits: the
/// value they spell, or, exactly when that value does not fit in an `i128`,
/// the kind of the error, which is `PosOverflow` for a value too large and
/// `NegOverflow` for one too small. Kinds that `std` may add later are given
/// as `InvalidDigit`; none of them arises on such text.
#[verifier::external_body]
fn parse_i128(text: &str) -> (r: Result<i128, IntErrorKind>)
    requires
        is_int_text(text@),
    ensures
        r is Ok <==> i128::MIN <= int_text_value(text@) <= i128::MAX,
        r matches Ok(v) ==> v == int_text_value(text@),
        r matches Err(k) ==> k == overflow_kind(int_text_value(text@)),
{
    match text.parse::<i128>() {
        Ok(v) => Ok(v),
        Err(e) => Err(match e.kind() {
            std::num::IntErrorKind::Empty => IntErrorKind::Empty,
            std::num::IntErrorKind::InvalidDigit => IntErrorKind::InvalidDigit,
            std::num::IntErrorKind::PosOverflow => IntErrorKind::PosOverflow,
            std::num::IntErrorKind::NegOverflow => IntErrorKind::NegOverflow,
            std::num::IntErrorKind::Zero => IntErrorKind::Zero,
            _ => IntErrorKind::InvalidDigit,
        }),
    }
}

/// The digits `s[i..j]` have the same value when read out of a part of `s`
/// that holds them.
pub proof fn lemma_decimal_shift(s: Seq<char>, p: int, a: int, i: int, j: int)
    requires
        0 <= p <= i <= j <= a <= s.len(),
    ensures
        decimal(s.subrange(p, a), i - p, j - p) == decimal(s, i, j),
    decreases j - i,
{
    if i < j {
        lemma_decimal_shift(s, p, a, i, j - 1);
        assert(s.subrange(p, a)[j - 1 - p] == s[j - 1]);
    }
}

/// The text of an integer read at `p` is integer text, with the value of
/// the integer.
pub proof fn lemma_int_text(s: Seq<char>, p: int, a: int)
    requires
        0 <= p <= sign_end(s, p) < a <= s.len(),
        all_in_class(s, sign_end(s, p), a, CharClass::Digit),
    ensures
        is_int_text(s.subrange(p, a)),
        int_text_value(s.subrange(p, a)) == signed_value(s, p, sign_end(s, p), a),
{
    let t = s.subrange(p, a);
    let q = sign_end(s, p);
    assert(t[0] == s[p]);
    assert(sign_end(t, 0) == q - p);
    assert forall|k: int| q - p <= k < t.len() implies #[trigger] in_class(t[k], CharClass::Digit) by {
        assert(t[k] == s[p + k]);
    }
    lemma_decimal_shift(s, p, a, q, a);
}

/// The character that a backslash followed by `c` stands for, for the
/// one-character escapes.
pub fn simple_escape_of(c: char) -> (r: Option<char>)
    ensures
        r == simple_escape(c),
{
    if c == 'n' {
        Some('\n')
    } else if c == 'r' {
        Some('\r')
    } else if c == 't' {
        Some('\t')
    } else if c == 'b' {
        Some('\u{08}')
    } else if c == 'f' {
        Some('\u{0c}')
    } else if c == '\\' {
        Some('\\')
    } else if c == '\0' {
        Some('\0')
    } else if c == '/' {
        Some('/')
    } else if c == '"' {
        Some('"')
    } else {
        None
    }
}

/// Parses a unicode escape `u{...}` (the part after the backslash).
pub fn parse_string_unicode(s: &[char], u: usize) -> (r: Result<(char, usize), ErrMode<Cause>>)
    requires
        u <= s@.len(),
    ensures
        agrees(r, spec_parse_string_unicode(s@, u as int)),
{
    if !(u < s.len() && s[u] == 'u') {
        return Err(ErrMode::Backtrack(Cause::Parser(crate::error::char_miss_kind(s, u))));
    }
    if !(u + 1 < s.len() && s[u + 1] == '{') {
        return Err(ErrMode::Cut(Cause::Parser(crate::error::char_miss_kind(s, u + 1))));
    }
    let e = scan(s, u + 2, CharClass::HexDigit);
    proof {
        lemma_class_end(s@, u + 2, CharClass::HexDigit);
    }
    let h = if e - (u + 2) > 6 {
        u + 8
    } else {
        e
    };
    if h == u + 2 {
        return Err(ErrMode::Cut(Cause::Parser(ErrorKind::Slice)));
    }
    if !(h < s.len() && s[h] == '}') {
        return Err(ErrMode::Cut(Cause::Parser(crate::error::char_miss_kind(s, h))));
    }
    assert(all_in_class(s@, u + 2, h as int, CharClass::HexDigit));
    let v = hexadecimal_value(s, u + 2, h);
    match char_from_u32(v) {
        Some(c) => {
            proof {
                vstd::utf8::char_u32_cast(c, v);
            }
            Ok((c, h + 1))
        },
        None => Err(ErrMode::Backtrack(Cause::Parser(ErrorKind::Verify))),
    }
}

/// Parses an escaped character: a backslash and a one-character or unicode
/// escape.
pub fn parse_string_escaped_char(s: &[char], i: usize) -> (r: Result<
    (char, usize),
    ErrMode<Cause>,
>)
    requires
        i <= s@.len(),
    ensures
        agrees(r, spec_parse_string_escaped_char(s@, i as int)),
{
    if !(i < s.len() && s[i] == '\\') {
        return Err(ErrMode::Backtrack(Cause::Parser(crate::error::char_miss_kind(s, i))));
    }
    if i + 1 >= s.len() {
        return Err(ErrMode::Backtrack(Cause::Parser(ErrorKind::Token)));
    }
    let c = s[i + 1];
    match simple_escape_of(c) {
        Some(e) => Ok((e, i + 2)),
        None => if c == 'u' {
            parse_string_unicode(s, i + 1)
        } else {
            Err(ErrMode::Backtrack(Cause::Parser(ErrorKind::Fail)))
        },
    }
}

/// Parses a backslash followed by whitespace; returns the end of the
/// whitespace.
pub fn parse_string_escaped_whitespace(s: &[char], i: usize) -> (r: Result<usize, ErrMode<Cause>>)
    requires
        i <= s@.len(),
    ensures
        match (r, spec_parse_string_escaped_whitespace(s@, i as int)) {
            (Ok(e), Ok(f)) => e == f,
            (Err(e), Err(f)) => e == f,
            _ => false,
        },
{
    if !(i < s.len() && s[i] == '\\') {
        return Err(ErrMode::Backtrack(Cause::Parser(crate::error::char_miss_kind(s, i))));
    }
    let e = scan(s, i + 1, CharClass::Multispace);
    if e == i + 1 {
        Err(ErrMode::Backtrack(Cause::Parser(ErrorKind::Slice)))
    } else {
        Ok(e)
    }
}

/// Parses plain string text; returns its end.
pub fn parse_string_literal(s: &[char], i: usize) -> (r: Result<usize, ErrMode<Cause>>)
    requires
        i <= s@.len(),
    ensures
        match (r, spec_parse_string_literal(s@, i as int)) {
            (Ok(e), Ok(f)) => e == f,
            (Err(e), Err(f)) => e == f,
            _ => false,
        },
{
    let e = scan(s, i, CharClass::StringText);
    if e == i {
        Err(ErrMode::Backtrack(Cause::Parser(ErrorKind::Slice)))
    } else {
        Ok(e)
    }
}

/// The characters that a fragment stands for.
pub open spec fn fragment_text(s: Seq<char>, f: Fragment) -> Seq<char> {
    match f {
        Fragment::Literal(a, b) => s.subrange(a as int, b as int),
        Fragment::EscapedChar(c) => seq![c],
        Fragment::EscapedWhitespace => Seq::empty(),
    }
}

/// Which kind of fragment stands at `i`: plain text where there is any, else
/// an escaped character where one parses, else escaped whitespace.
pub open spec fn fragment_kind(s: Seq<char>, i: int, f: Fragment) -> bool {
    match f {
        Fragment::Literal(a, b) => a == i && a <= b <= s.len() && spec_parse_string_literal(s, i) == Ok::<
            int,
            ErrMode<Cause>,
        >(b as int),
        Fragment::EscapedChar(c) => spec_parse_string_literal(s, i) is Err && (
        spec_parse_string_escaped_char(s, i) matches Ok((d, _)) && c == d),
        Fragment::EscapedWhitespace => spec_parse_string_literal(s, i) is Err
            && spec_parse_string_escaped_char(s, i) is Err
            && spec_parse_string_escaped_whitespace(s, i) is Ok,
    }
}

/// A successful fragment consumes at least one character.
pub proof fn lemma_fragment_progress(s: Seq<char>, i: int)
    requires
        0 <= i <= s.len(),
    ensures
        spec_parse_fragment(s, i) matches Ok((_, j)) ==> i < j <= s.len(),
{
    lemma_class_end(s, i, CharClass::StringText);
    if i + 1 <= s.len() {
        lemma_class_end(s, i + 1, CharClass::Multispace);
    }
    if i + 3 <= s.len() {
        lemma_class_end(s, i + 3, CharClass::HexDigit);
    }
}

/// Parses one fragment of a string.
pub fn parse_fragment(s: &[char], i: usize) -> (r: Result<(Fragment, usize), ErrMode<Cause>>)
    requires
        i <= s@.len(),
    ensures
        match (r, spec_parse_fragment(s@, i as int)) {
            (Ok((f, j)), Ok((t, k))) => fragment_text(s@, f) == t && j == k && fragment_kind(s@, i as int, f),
            (Err(e), Err(f)) => e == f,
            _ => false,
        },
{
    match parse_string_literal(s, i) {
        Ok(e) => {
            proof {
                lemma_class_end(s@, i as int, CharClass::StringText);
            }
            return Ok((Fragment::Literal(i, e), e));
        },
        Err(_) => {},
    }
    match parse_string_escaped_char(s, i) {
        Ok((c, j)) => {
            return Ok((Fragment::EscapedChar(c), j));
        },
        Err(ErrMode::Cut(c)) => {
            return Err(ErrMode::Cut(c));
        },
        Err(ErrMode::Backtrack(_)) => {},
    }
    match parse_string_escaped_whitespace(s, i) {
        Ok(e) => Ok((Fragment::EscapedWhitespace, e)),
        Err(m) => Err(m),
    }
}

/// Parses a string literal and returns the characters it stands for.
pub fn parse_string(s: &[char], p: usize) -> (r: Result<(String, usize), ErrMode<Cause>>)
    requires
        p <= s@.len(),
    ensures
        agrees(r, spec_parse_string(s@, p as int)),
        r matches Ok((_, e)) ==> p < e <= s@.len(),
{
    if !(p < s.len() && s[p] == '"') {
        return Err(ErrMode::Backtrack(Cause::Parser(crate::error::char_miss_kind(s, p))));
    }
    let mut acc = String::new();
    let mut i = p + 1;
    loop
        invariant_except_break
            p + 1 <= i <= s@.len(),
            p < s@.len() && s@[p as int] == '"',
            match spec_string_body(s@, i as int) {
                Ok((t, k)) => spec_string_body(s@, p + 1) == Ok::<(Seq<char>, int), Cause>((acc@ + t, k)),
                Err(c) => spec_string_body(s@, p + 1) == Err::<(Seq<char>, int), Cause>(c),
            },
        ensures
            p + 1 <= i <= s@.len(),
            spec_string_body(s@, p + 1) == Ok::<(Seq<char>, int), Cause>((acc@, i as int)),
        decreases s@.len() - i,
    {
        proof {
            lemma_fragment_progress(s@, i as int);
        }
        match parse_fragment(s, i) {
            Ok((f, j)) => {
                let ghost old_acc = acc@;
                match f {
                    Fragment::Literal(a, b) => push_chars(&mut acc, s, a, b),
                    Fragment::EscapedChar(c) => push_char(&mut acc, c),
                    Fragment::EscapedWhitespace => {},
                }
                assert(acc@ == old_acc + fragment_text(s@, f));
                proof {
                    match spec_string_body(s@, j as int) {
                        Ok((t, k)) => {
                            assert(old_acc + (fragment_text(s@, f) + t) =~= acc@ + t);
                        },
                        Err(_) => {},
                    }
                }
                i = j;
            },
            Err(ErrMode::Backtrack(_)) => {
                assert(acc@ + Seq::<char>::empty() =~= acc@);
                break;
            },
            Err(ErrMode::Cut(c)) => {
                assert(spec_string_body(s@, i as int) == Err::<(Seq<char>, int), Cause>(c));
                return Err(ErrMode::Cut(c));
            },
        }
    }
    if i < s.len() && s[i] == '"' {
        Ok((acc, i + 1))
    } else {
        Err(ErrMode::Cut(Cause::Parser(crate::error::char_miss_kind(s, i))))
    }
}


/// Parses a decimal number that fits in a `u8`.
pub fn parse_u8(s: &[char], i: usize) -> (r: Result<(u8, usize), ErrMode<Cause>>)
    requires
        i <= s@.len(),
    ensures
        agrees(r, spec_parse_u8(s@, i as int)),
{
    let e = scan(s, i, CharClass::Digit);
    if e == i {
        return Err(ErrMode::Backtrack(Cause::Parser(ErrorKind::Slice)));
    }
    proof {
        lemma_class_end(s@, i as int, CharClass::Digit);
    }
    match decimal_value(s, i, e) {
        Some(v) => if v <= 255 {
            Ok((v as u8, e))
        } else {
            Err(ErrMode::Backtrack(Cause::Parser(ErrorKind::Verify)))
        },
        None => Err(ErrMode::Backtrack(Cause::Parser(ErrorKind::Verify))),
    }
}

/// Parses a `u8` and the whitespace around it.
pub fn parse_ws_u8(s: &[char], i: usize) -> (r: Result<(u8, usize), ErrMode<Cause>>)
    requires
        i <= s@.len(),
    ensures
        agrees(r, spec_parse_ws_u8(s@, i as int)),
        r matches Ok((_, e)) ==> i < e <= s@.len(),
{
    let c = scan(s, i, CharClass::Multispace);
    proof {
        lemma_class_end(s@, c as int, CharClass::Digit);
    }
    match parse_u8(s, c) {
        Ok((b, e)) => Ok((b, scan(s, e, CharClass::Multispace))),
        Err(m) => Err(m),
    }
}

/// Parses a byte list.
pub fn parse_bytes(s: &[char], p: usize) -> (r: Result<(Vec<u8>, usize), ErrMode<Cause>>)
    requires
        p <= s@.len(),
    ensures
        agrees(r, spec_parse_bytes(s@, p as int)),
        r matches Ok((_, e)) ==> p < e <= s@.len(),
{
    if !(p < s.len() && s[p] == '[') {
        return Err(ErrMode::Backtrack(Cause::Parser(crate::error::char_miss_kind(s, p))));
    }
    let (first, e0) = match parse_ws_u8(s, p + 1) {
        Ok(v) => v,
        Err(m) => {
            return Err(m.cut());
        },
    };
    let mut acc: Vec<u8> = Vec::new();
    acc.push(first);
    let mut i = e0;
    loop
        invariant_except_break
            e0 <= i <= s@.len(),
            seq![first] + spec_bytes_rest(s@, e0 as int).0 == acc@ + spec_bytes_rest(s@, i as int).0,
            spec_bytes_rest(s@, e0 as int).1 == spec_bytes_rest(s@, i as int).1,
        ensures
            e0 <= i <= s@.len(),
            seq![first] + spec_bytes_rest(s@, e0 as int).0 == acc@,
            spec_bytes_rest(s@, e0 as int).1 == i,
        decreases s@.len() - i,
    {
        let c = scan(s, i, CharClass::Multispace);
        if c < s.len() && s[c] == ',' {
            match parse_ws_u8(s, c + 1) {
                Ok((b, e)) => {
                    let ghost old_acc = acc@;
                    acc.push(b);
                    assert(old_acc + (seq![b] + spec_bytes_rest(s@, e as int).0) =~= acc@ + spec_bytes_rest(s@, e as int).0);
                    i = e;
                },
                Err(_) => {
                    assert(acc@ + Seq::<u8>::empty() =~= acc@);
                    break;
                },
            }
        } else {
            assert(acc@ + Seq::<u8>::empty() =~= acc@);
            break;
        }
    }
    let k1 = scan(s, i, CharClass::Multispace);
    let m = if k1 < s.len() && s[k1] == ',' {
        scan(s, k1 + 1, CharClass::Multispace)
    } else {
        k1
    };
    if m < s.len() && s[m] == ']' {
        Ok((acc, scan(s, m + 1, CharClass::Multispace)))
    } else {
        Err(ErrMode::Cut(Cause::Parser(crate::error::char_miss_kind(s, m))))
    }
}

/// Parses a literal value at position `p`.
pub fn parse(s: &[char], p: usize) -> (r: Result<(Literal, usize), ErrMode<ParseError>>)
    requires
        p <= s@.len(),
    ensures
        literal_agrees(r, spec_parse(s@, p as int)),
        r matches Ok((_, e)) ==> p < e <= s@.len(),
    decreases s@.len() - p,
{
    if p >= s.len() {
        return Err(locate(ErrMode::Backtrack(Cause::Parser(ErrorKind::Token)), s, p));
    }
    let c = s[p];
    if c == 't' {
        match parse_true(s, p) {
            Ok((b, e)) => Ok((Literal::Bool(b), e)),
            Err(m) => Err(locate(m, s, p)),
        }
    } else if c == 'f' {
        match parse_false(s, p) {
            Ok((b, e)) => Ok((Literal::Bool(b), e)),
            Err(m) => Err(locate(m, s, p)),
        }
    } else if c == '+' || c == '-' || ('0' <= c && c <= '9') {
        match parse_float(s, p) {
            Ok((t, e)) => Ok((Literal::Float(t), e)),
            Err(ErrMode::Cut(x)) => Err(locate(ErrMode::Cut(x), s, p)),
            Err(ErrMode::Backtrack(_)) => match parse_int(s, p) {
                Ok((v, e)) => Ok((Literal::Int(v), e)),
                Err(m) => Err(locate(m.cut(), s, p)),
            },
        }
    } else if c == '"' {
        match parse_string(s, p) {
            Ok((t, e)) => Ok((Literal::String(t), e)),
            Err(m) => Err(locate(m, s, p)),
        }
    } else if c == '[' {
        match parse_bytes(s, p) {
            Ok((b, e)) => Ok((Literal::Bytes(b), e)),
            Err(m) => Err(locate(m, s, p)),
        }
    } else if c == '&' {
        match parse(s, p + 1) {
            Ok((_, e)) => Err(
                ErrMode::Cut(ParseError { at: p..e, cause: Cause::FoundReference { at: p } }),
            ),
            Err(_) => Err(locate(ErrMode::Backtrack(Cause::Parser(ErrorKind::Fail)), s, p)),
        }
    } else {
        Err(locate(ErrMode::Backtrack(Cause::Parser(ErrorKind::Fail)), s, p))
    }
}

/// Gives a failure of a literal's part the range of the whole literal that
/// starts at `p`, keeping its mode.
pub fn locate(m: ErrMode<Cause>, s: &[char], p: usize) -> (r: ErrMode<ParseError>)
    requires
        p <= s@.len(),
    ensures
        r == (match m {
            ErrMode::Backtrack(c) => ErrMode::Backtrack(error_at(s@, p as int, c)),
            ErrMode::Cut(c) => ErrMode::Cut(error_at(s@, p as int, c)),
        }),
{
    let end = scan(s, p, CharClass::LiteralText);
    match m {
        ErrMode::Backtrack(c) => ErrMode::Backtrack(ParseError { at: p..end, cause: c }),
        ErrMode::Cut(c) => ErrMode::Cut(ParseError { at: p..end, cause: c }),
    }
}


/// `true` and `false` are read as the booleans they name.
pub proof fn lemma_parse_bool(s: Seq<char>, p: int)
    ensures
        tag_at(s, p, seq!['t', 'r', 'u', 'e']) ==> spec_parse(s, p) == Ok::<(LiteralView, int), ErrMode<ParseError>>((LiteralView::Bool(true), p + 4)),
        tag_at(s, p, seq!['f', 'a', 'l', 's', 'e']) ==> spec_parse(s, p) == Ok::<(LiteralView, int), ErrMode<ParseError>>((LiteralView::Bool(false), p + 5)),
{
    if tag_at(s, p, seq!['t', 'r', 'u', 'e']) {
        assert(s[p] == s.subrange(p, p + 4)[0]);
    }
    if tag_at(s, p, seq!['f', 'a', 'l', 's', 'e']) {
        assert(s[p] == s.subrange(p, p + 5)[0]);
    }
}

/// An optional sign and decimal digits that do not go on as a floating point
/// number are read as the integer they spell, when it fits in an `i128`; when
/// it does not, the literal is refused, without backtracking, as an integer
/// that fails to convert at its start, too large or too small, the error
/// covering the literal.
pub proof fn lemma_parse_integer(s: Seq<char>, p: int, a: int)
    requires
        0 <= p < a <= s.len() <= usize::MAX,
        sign_end(s, p) < a,
        all_in_class(s, sign_end(s, p), a, CharClass::Digit),
        a == s.len() || !is_digit(s[a]),
        !(a + 1 < s.len() && s[a] == '.' && is_digit(s[a + 1])),
    ensures
        i128::MIN <= signed_value(s, p, sign_end(s, p), a) <= i128::MAX ==> spec_parse(s, p)
            == Ok::<(LiteralView, int), ErrMode<ParseError>>(
            (LiteralView::Int(signed_value(s, p, sign_end(s, p), a) as i128), a),
        ),
        !(i128::MIN <= signed_value(s, p, sign_end(s, p), a) <= i128::MAX) ==> spec_parse(s, p)
            == Err::<(LiteralView, int), ErrMode<ParseError>>(
            ErrMode::Cut(
                error_at(
                    s,
                    p,
                    Cause::ParseInt {
                        at: p as usize,
                        cause: ParseIntError {
                            kind: overflow_kind(signed_value(s, p, sign_end(s, p), a)),
                        },
                    },
                ),
            ),
        ),
{
    let q = sign_end(s, p);
    lemma_class_end_exact(s, q, a, CharClass::Digit);
    if a < s.len() && s[a] == '.' {
        lemma_class_end(s, a + 1, CharClass::Digit);
        if a + 1 < s.len() {
            assert(!in_class(s[a + 1], CharClass::Digit));
            lemma_class_end_exact(s, a + 1, a + 1, CharClass::Digit);
        }
    }
    if q > p {
        assert(is_sign(s[p]));
    } else {
        assert(in_class(s[p], CharClass::Digit));
    }
}

/// A reference, `&` followed by a literal, is refused without backtracking as
/// a reference at the ampersand, the error covering the ampersand and the
/// literal.
pub proof fn lemma_parse_reference(s: Seq<char>, p: int)
    requires
        0 <= p < s.len() <= usize::MAX,
        s[p] == '&',
    ensures
        spec_parse(s, p + 1) matches Ok((_, e)) ==> spec_parse(s, p) == Err::<(LiteralView, int), ErrMode<ParseError>>(
            ErrMode::Cut(ParseError {
                at: Range { start: p as usize, end: e as usize },
                cause: Cause::FoundReference { at: p as usize },
            }),
        ),
{
}

/// A string whose text holds neither a double quote nor a backslash is read
/// as that text.
pub proof fn lemma_parse_plain_string(s: Seq<char>, p: int, e: int)
    requires
        0 <= p < e < s.len(),
        s[p] == '"',
        s[e] == '"',
        all_in_class(s, p + 1, e, CharClass::StringText),
    ensures
        spec_parse(s, p) == Ok::<(LiteralView, int), ErrMode<ParseError>>(
            (LiteralView::String(s.subrange(p + 1, e)), e + 1),
        ),
{
    lemma_class_end_exact(s, p + 1, e, CharClass::StringText);
    lemma_class_end_exact(s, e, e, CharClass::StringText);
    assert(spec_string_body(s, e) == Ok::<(Seq<char>, int), Cause>((Seq::empty(), e)));
    if p + 1 < e {
        assert(s.subrange(p + 1, e) + Seq::<char>::empty() =~= s.subrange(p + 1, e));
    } else {
        assert(s.subrange(p + 1, e) =~= Seq::<char>::empty());
    }
}

/// A string holding one escape of a single character is read as the
/// character that the escape stands for.
pub proof fn lemma_parse_simple_escape(s: Seq<char>, p: int)
    requires
        0 <= p,
        p + 3 < s.len(),
        s[p] == '"',
        s[p + 1] == '\\',
        simple_escape(s[p + 2]) is Some,
        s[p + 3] == '"',
    ensures
        spec_parse(s, p) == Ok::<(LiteralView, int), ErrMode<ParseError>>(
            (LiteralView::String(seq![simple_escape(s[p + 2])->0]), p + 4),
        ),
{
    lemma_class_end_exact(s, p + 1, p + 1, CharClass::StringText);
    lemma_class_end_exact(s, p + 3, p + 3, CharClass::StringText);
    let c = simple_escape(s[p + 2])->0;
    assert(spec_parse_fragment(s, p + 1) == Ok::<(Seq<char>, int), ErrMode<Cause>>((seq![c], p + 3)));
    assert(spec_string_body(s, p + 3) == Ok::<(Seq<char>, int), Cause>((Seq::empty(), p + 3)));
    assert(seq![c] + Seq::<char>::empty() =~= seq![c]);
}

/// A floating point number is kept as exactly the text it spans.
pub proof fn lemma_parse_float_text(s: Seq<char>, p: int)
    ensures
        spec_parse(s, p) matches Ok((LiteralView::Float(t), e)) ==> t == s.subrange(p, e),
{
}

/// A successful literal spans at least one character of the input.
pub proof fn lemma_parse_progress(s: Seq<char>, p: int)
    requires
        0 <= p <= s.len(),
    ensures
        spec_parse(s, p) matches Ok((_, e)) ==> p < e <= s.len(),
{
    lemma_class_end(s, sign_end(s, p), CharClass::Digit);
    if 0 <= p < s.len() && s[p] == '"' {
        lemma_string_body_bounds(s, p + 1);
    }
    if 0 <= p < s.len() && s[p] == '[' {
        lemma_class_end(s, p + 1, CharClass::Multispace);
        lemma_class_end(s, ws_end(s, p + 1), CharClass::Digit);
        let e0 = ws_end(s, ws_end(s, p + 1));
        if let Ok((_, e)) = spec_parse_ws_u8(s, p + 1) {
            lemma_class_end(s, digits_end(s, ws_end(s, p + 1)), CharClass::Multispace);
            lemma_bytes_rest_bounds(s, e);
            let k = spec_bytes_rest(s, e).1;
            lemma_class_end(s, k, CharClass::Multispace);
            let k1 = ws_end(s, k);
            if k1 < s.len() && s[k1] == ',' {
                lemma_class_end(s, k1 + 1, CharClass::Multispace);
            }
            let m = bytes_close(s, k);
            if m < s.len() && s[m] == ']' {
                lemma_class_end(s, m + 1, CharClass::Multispace);
            }
        }
    }
    if 0 <= p < s.len() {
        let q = sign_end(s, p);
        let a = digits_end(s, q);
        if a < s.len() && s[a] == '.' {
            lemma_class_end(s, a + 1, CharClass::Digit);
            let b = digits_end(s, a + 1);
            if b < s.len() {
                lemma_class_end(s, sign_end(s, b + 1), CharClass::Digit);
            }
        }
    }
}

/// The body of a string ends within the input, no earlier than it starts.
pub proof fn lemma_string_body_bounds(s: Seq<char>, i: int)
    requires
        0 <= i <= s.len(),
    ensures
        spec_string_body(s, i) matches Ok((_, k)) ==> i <= k <= s.len(),
    decreases s.len() - i,
{
    lemma_fragment_progress(s, i);
    if let Ok((_, j)) = spec_parse_fragment(s, i) {
        if i < j <= s.len() {
            lemma_string_body_bounds(s, j);
        }
    }
}

/// Further elements of a byte list end within the input, no earlier than
/// they start.
pub proof fn lemma_bytes_rest_bounds(s: Seq<char>, i: int)
    requires
        0 <= i <= s.len(),
    ensures
        i <= spec_bytes_rest(s, i).1 <= s.len(),
    decreases s.len() - i,
{
    let c = ws_end(s, i);
    if 0 <= c < s.len() && s[c] == ',' {
        if let Ok((_, e)) = spec_parse_ws_u8(s, c + 1) {
            if i < e <= s.len() {
                lemma_bytes_rest_bounds(s, e);
            }
        }
    }
}

} // verus!
