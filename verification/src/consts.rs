//! Constant declarations: `const NAME: type = literal;`.
//!
//! Locations in errors are character positions in the input slice.
use vstd::prelude::*;
use std::ops::Range;

use crate::ast::{Comment, Const, Name};
use crate::error::{char_miss, char_miss_kind, ErrMode, ErrorKind};
use crate::literals::{self, agrees, tag_at, LiteralView};
use crate::text::{class_end, in_class, is_upper, lemma_class_end, scan, CharClass};
use crate::tokens::{is_ascii_alpha, is_ascii_ident};
use crate::types::{self, name_tree, tree_of, NameTree, TypeTree};

verus! {

/// Encountered an invalid `const` declaration.
#[derive(Debug, PartialEq, Eq)]
pub struct ParseError {
    /// Source location of the whole const.
    pub at: Range<usize>,
    /// Specific cause of the error.
    pub cause: Cause,
}

/// Specific reason why a `const` declaration was invalid.
#[derive(Debug, PartialEq, Eq)]
pub enum Cause {
    /// Non-specific general parser error, with its location.
    Parser(ErrorKind, usize),
    /// Encountered an unexpected character.
    UnexpectedChar {
        /// Source location of the character.
        at: usize,
        /// The character that was expected instead.
        expected: char,
    },
    /// Defined name is not considered valid.
    InvalidName {
        /// Source location of the character.
        at: usize,
    },
    /// Invalid type declaration.
    Type(types::ParseError),
    /// Invalid const value literal.
    Literal(literals::ParseError),
}

/// The mathematical value of a [`Const`].
pub struct ConstView {
    pub name: NameTree,
    pub ty: TypeTree,
    pub value: LiteralView,
}

/// The view of a constant declaration; its comment is empty when it comes
/// from the parser.
pub open spec fn const_view(c: Const) -> ConstView {
    ConstView { name: name_tree(c.name), ty: tree_of(c.ty), value: c.value@ }
}

/// A constant's name: an uppercase letter, then uppercase letters, digits and
/// underscores. Anything else is an invalid name at `p`.
pub open spec fn spec_parse_name(s: Seq<char>, p: int) -> literals::SpecResult<NameTree, Cause> {
    if 0 <= p < s.len() && is_upper(s[p]) {
        let e = class_end(s, p + 1, CharClass::UpperTail);
        Ok((NameTree { text: s.subrange(p, e), start: p, end: e }, e))
    } else {
        Err(ErrMode::Backtrack(Cause::InvalidName { at: p as usize }))
    }
}

pub open spec fn space_end(s: Seq<char>, i: int) -> int {
    class_end(s, i, CharClass::Space)
}

pub open spec fn kw_const() -> Seq<char> {
    seq!['c', 'o', 'n', 's', 't']
}

/// The range that an error of a declaration starting at `p` covers: up to
/// and including the next semicolon, or to the end of the input.
pub open spec fn error_range(s: Seq<char>, p: int) -> Range<usize> {
    let e = class_end(s, p, CharClass::NotSemicolon);
    Range { start: p as usize, end: (if e < s.len() { e + 1 } else { e }) as usize }
}

/// The declaration without its error range.
pub open spec fn spec_const_body(s: Seq<char>, p: int) -> literals::SpecResult<ConstView, Cause> {
    if !tag_at(s, p, kw_const()) {
        Err(ErrMode::Backtrack(Cause::Parser(ErrorKind::Tag, p as usize)))
    } else if space_end(s, p + 5) == p + 5 {
        Err(ErrMode::Backtrack(Cause::Parser(ErrorKind::Slice, (p + 5) as usize)))
    } else {
        let n = space_end(s, p + 5);
        match spec_parse_name(s, n) {
            Err(m) => Err(ErrMode::Cut(m.inner())),
            Ok((name, ne)) => if !(ne < s.len() && s[ne] == ':') {
                Err(ErrMode::Cut(Cause::Parser(char_miss(s, ne), ne as usize)))
            } else {
                let a = space_end(s, ne + 1);
                match types::spec_parse_type(s, a) {
                    None => Err(ErrMode::Cut(Cause::Type(types::type_error(a as usize).inner()))),
                    Some((ty, te)) => {
                        let b = space_end(s, te);
                        if !(b < s.len() && s[b] == '=') {
                            Err(ErrMode::Cut(Cause::Parser(char_miss(s, b), b as usize)))
                        } else {
                            let c = space_end(s, b + 1);
                            match literals::spec_parse(s, c) {
                                Err(m) => Err(ErrMode::Cut(Cause::Literal(m.inner()))),
                                Ok((value, le)) => if le < s.len() && s[le] == ';' {
                                    Ok((ConstView { name, ty, value }, le + 1))
                                } else {
                                    Err(
                                        ErrMode::Cut(
                                            Cause::UnexpectedChar { at: le as usize, expected: ';' },
                                        ),
                                    )
                                },
                            }
                        }
                    },
                }
            },
        }
    }
}

/// A constant declaration: `const`, at least one space or tab, the name, `:`,
/// the type, `=`, the literal and `;`, with spaces or tabs allowed after the
/// colon and around `=`. After the keyword and its spaces nothing can be
/// backtracked from. Every error covers the declaration up to its semicolon.
pub open spec fn spec_parse(s: Seq<char>, p: int) -> literals::SpecResult<ConstView, ParseError> {
    match spec_const_body(s, p) {
        Ok(v) => Ok(v),
        Err(ErrMode::Backtrack(c)) => Err(ErrMode::Backtrack(ParseError { at: error_range(s, p), cause: c })),
        Err(ErrMode::Cut(c)) => Err(ErrMode::Cut(ParseError { at: error_range(s, p), cause: c })),
    }
}


fn kw_const_str() -> (r: &'static str)
    ensures
        r@ == kw_const(),
{
    proof {
        reveal_strlit("const");
    }
    assert("const"@ =~= kw_const());
    "const"
}

/// Parses a constant's name.
pub fn parse_name(s: &[char], p: usize) -> (r: Result<(Name, usize), ErrMode<Cause>>)
    requires
        p <= s@.len(),
    ensures
        match (r, spec_parse_name(s@, p as int)) {
            (Ok((n, e)), Ok((t, f))) => name_tree(n) == t && e == f,
            (Err(x), Err(y)) => x == y,
            _ => false,
        },
        r matches Ok((_, e)) ==> p < e <= s@.len(),
{
    if p < s.len() && 'A' <= s[p] && s[p] <= 'Z' {
        let e = scan(s, p + 1, CharClass::UpperTail);
        let value = crate::strings::string_of(s, p, e);
        Ok((Name { value, span: p..e }, e))
    } else {
        Err(ErrMode::Backtrack(Cause::InvalidName { at: p }))
    }
}

/// The range that an error of a declaration starting at `p` covers.
pub fn error_range_of(s: &[char], p: usize) -> (r: Range<usize>)
    requires
        p <= s@.len(),
    ensures
        r == error_range(s@, p as int),
{
    let e = scan(s, p, CharClass::NotSemicolon);
    if e < s.len() {
        p..e + 1
    } else {
        p..e
    }
}

fn body(s: &[char], p: usize) -> (r: Result<(Const, usize), ErrMode<Cause>>)
    requires
        p <= s@.len(),
    ensures
        match (r, spec_const_body(s@, p as int)) {
            (Ok((c, e)), Ok((v, f))) => const_view(c) == v && c.comment.0@.len() == 0 && e == f,
            (Err(x), Err(y)) => x == y,
            _ => false,
        },
{
    let len = s.len();
    let k = kw_const_str();
    if !crate::types::tag(s, p, k) {
        return Err(ErrMode::Backtrack(Cause::Parser(ErrorKind::Tag, p)));
    }
    let n = scan(s, p + 5, CharClass::Space);
    if n == p + 5 {
        return Err(ErrMode::Backtrack(Cause::Parser(ErrorKind::Slice, p + 5)));
    }
    let (name, ne) = match parse_name(s, n) {
        Ok(v) => v,
        Err(m) => {
            return Err(m.cut());
        },
    };
    if !(ne < s.len() && s[ne] == ':') {
        return Err(ErrMode::Cut(Cause::Parser(char_miss_kind(s, ne), ne)));
    }
    let a = scan(s, ne + 1, CharClass::Space);
    let (ty, te) = match types::parse(s, a) {
        Ok(v) => v,
        Err(m) => {
            return Err(ErrMode::Cut(Cause::Type(m.into_inner())));
        },
    };
    let b = scan(s, te, CharClass::Space);
    if !(b < s.len() && s[b] == '=') {
        return Err(ErrMode::Cut(Cause::Parser(char_miss_kind(s, b), b)));
    }
    let c = scan(s, b + 1, CharClass::Space);
    let (value, le) = match literals::parse(s, c) {
        Ok(v) => v,
        Err(m) => {
            return Err(ErrMode::Cut(Cause::Literal(m.into_inner())));
        },
    };
    if le < s.len() && s[le] == ';' {
        Ok((Const { comment: Comment::new(), name, ty, value }, le + 1))
    } else {
        Err(ErrMode::Cut(Cause::UnexpectedChar { at: le, expected: ';' }))
    }
}

/// Parses a constant declaration at position `p`.
pub fn parse(s: &[char], p: usize) -> (r: Result<(Const, usize), ErrMode<ParseError>>)
    requires
        p <= s@.len(),
    ensures
        match (r, spec_parse(s@, p as int)) {
            (Ok((c, e)), Ok((v, f))) => const_view(c) == v && c.comment.0@.len() == 0 && e == f,
            (Err(x), Err(y)) => x == y,
            _ => false,
        },
{
    match body(s, p) {
        Ok(v) => Ok(v),
        Err(ErrMode::Backtrack(cause)) => Err(ErrMode::Backtrack(ParseError { at: error_range_of(s, p), cause })),
        Err(ErrMode::Cut(cause)) => Err(ErrMode::Cut(ParseError { at: error_range_of(s, p), cause })),
    }
}


/// A declaration that parses starts with `const`, ends right after a
/// semicolon, and is named by an uppercase letter followed by uppercase
/// letters, digits and underscores.
pub proof fn lemma_const_shape(s: Seq<char>, p: int)
    requires
        0 <= p <= s.len(),
    ensures
        spec_parse(s, p) matches Ok((v, e)) ==> {
            &&& tag_at(s, p, kw_const())
            &&& p < e <= s.len()
            &&& s[e - 1] == ';'
            &&& v.name.text.len() > 0
            &&& is_upper(v.name.text[0])
            &&& forall|i: int| 1 <= i < v.name.text.len() ==> in_class(#[trigger] v.name.text[i], CharClass::UpperTail)
        },
{
    if let Ok((v, e)) = spec_parse(s, p) {
        let n = space_end(s, p + 5);
        lemma_class_end(s, p + 5, CharClass::Space);
        lemma_class_end(s, n + 1, CharClass::UpperTail);
        let ne = class_end(s, n + 1, CharClass::UpperTail);
        lemma_class_end(s, ne + 1, CharClass::Space);
        let a = space_end(s, ne + 1);
        types::lemma_parse_type_progress(s, a);
        let te = types::spec_parse_type(s, a).unwrap().1;
        lemma_class_end(s, te, CharClass::Space);
        let b = space_end(s, te);
        lemma_class_end(s, b + 1, CharClass::Space);
        let c = space_end(s, b + 1);
        literals::lemma_parse_progress(s, c);
        assert forall|i: int| 1 <= i < v.name.text.len() implies in_class(#[trigger] v.name.text[i], CharClass::UpperTail) by {
            assert(v.name.text[i] == s[n + i]);
        }
    }
}

/// The name of a constant is an ASCII identifier, so code can be generated
/// for it.
pub proof fn lemma_const_name_is_ident(s: Seq<char>, p: int)
    requires
        0 <= p <= s.len(),
    ensures
        spec_parse_name(s, p) matches Ok((n, _)) ==> is_ascii_ident(n.text),
{
    if let Ok((n, e)) = spec_parse_name(s, p) {
        lemma_class_end(s, p + 1, CharClass::UpperTail);
        assert forall|i: int| 1 <= i < n.text.len() implies (is_ascii_alpha(#[trigger] n.text[i]) || ('0' <= n.text[i] && n.text[i] <= '9') || n.text[i] == '_') by {
            assert(n.text[i] == s[p + i]);
            assert(in_class(s[p + i], CharClass::UpperTail));
        }
    }
}

/// The range of an error starts at the declaration and ends after its first
/// semicolon, or at the end of the input when there is none.
pub proof fn lemma_error_range(s: Seq<char>, p: int)
    requires
        0 <= p <= s.len() <= usize::MAX,
    ensures
        error_range(s, p).start == p,
        p <= error_range(s, p).end <= s.len(),
        forall|i: int| p <= i < error_range(s, p).end - 1 ==> s[i] != ';',
        error_range(s, p).end == s.len() || s[error_range(s, p).end - 1] == ';',
{
    lemma_class_end(s, p, CharClass::NotSemicolon);
    let e = class_end(s, p, CharClass::NotSemicolon);
    assert forall|i: int| p <= i < error_range(s, p).end - 1 implies s[i] != ';' by {
        assert(in_class(s[i], CharClass::NotSemicolon));
    }
}

} // verus!
