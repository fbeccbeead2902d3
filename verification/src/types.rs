//! Type references of a schema.
//!
//! ```text
//! type     := basic | generic | tuple | array | external
//! basic    := bool | u8 | u16 | u32 | u64 | u128 | i8 | i16 | i32 | i64 | i128
//!           | f32 | f64 | string | &string | bytes | &bytes | box<string> | box<bytes>
//! generic  := (vec | hash_set | option | non_zero) < type >  |  hash_map< type , type >
//! tuple    := ( )  |  ( type (, type)* )
//! array    := [ type ; u32 ]
//! external := (module ::)* Name [< type (, type)* >]
//! ```
//!
//! Whitespace may stand around every type inside brackets. Alternatives are
//! tried in order, and a failed alternative is backtracked from. Locations
//! are character positions in the input slice.
use vstd::prelude::*;
use std::ops::Range;

use crate::ast::{DataType, ExternalType, Name, Type};
use crate::definition::{rust_type, Opts};
use crate::error::{ErrMode, ErrorKind};
use crate::literals::{digits_end, tag_at, ws_end};
use crate::text::{class_end, decimal, decimal_value, in_class, is_lower, is_upper, lemma_class_end, scan, CharClass};

verus! {

/// Encountered an invalid type reference.
#[derive(Debug, PartialEq, Eq)]
pub struct ParseError {
    /// Source location of the type.
    pub at: Range<usize>,
    /// Specific cause of the error.
    pub cause: Cause,
}

/// Specific reason why a type reference was invalid.
#[derive(Debug, PartialEq, Eq)]
pub enum Cause {
    /// Non-specific general parser error, with its location.
    Parser(ErrorKind, usize),
}

/// A name with the positions it spans.
pub struct NameTree {
    pub text: Seq<char>,
    pub start: int,
    pub end: int,
}

/// A type with the positions it spans.
pub struct TypeTree {
    pub value: DataTree,
    pub start: int,
    pub end: int,
}

/// The mathematical form of a [`DataType`].
pub enum DataTree {
    Bool,
    U8,
    U16,
    U32,
    U64,
    U128,
    I8,
    I16,
    I32,
    I64,
    I128,
    F32,
    F64,
    String,
    StringRef,
    Bytes,
    BytesRef,
    Vec(Box<TypeTree>),
    HashMap(Box<TypeTree>, Box<TypeTree>),
    HashSet(Box<TypeTree>),
    Option(Box<TypeTree>),
    NonZero(Box<TypeTree>),
    BoxString,
    BoxBytes,
    Tuple(Seq<TypeTree>),
    Array(Box<TypeTree>, u32),
    External(Seq<NameTree>, NameTree, Seq<TypeTree>),
}

pub open spec fn name_tree(n: Name) -> NameTree {
    NameTree { text: n.value@, start: n.span.start as int, end: n.span.end as int }
}

pub open spec fn tree_of(t: Type) -> TypeTree
    decreases t, 0nat,
{
    TypeTree { value: data_tree_of(t.value), start: t.span.start as int, end: t.span.end as int }
}

pub open spec fn data_tree_of(d: DataType) -> DataTree
    decreases d, 0nat,
{
    match d {
        DataType::Bool => DataTree::Bool,
        DataType::U8 => DataTree::U8,
        DataType::U16 => DataTree::U16,
        DataType::U32 => DataTree::U32,
        DataType::U64 => DataTree::U64,
        DataType::U128 => DataTree::U128,
        DataType::I8 => DataTree::I8,
        DataType::I16 => DataTree::I16,
        DataType::I32 => DataTree::I32,
        DataType::I64 => DataTree::I64,
        DataType::I128 => DataTree::I128,
        DataType::F32 => DataTree::F32,
        DataType::F64 => DataTree::F64,
        DataType::String => DataTree::String,
        DataType::StringRef => DataTree::StringRef,
        DataType::Bytes => DataTree::Bytes,
        DataType::BytesRef => DataTree::BytesRef,
        DataType::Vec(b) => DataTree::Vec(Box::new(tree_of(*b))),
        DataType::HashMap(kv) => DataTree::HashMap(Box::new(tree_of(kv.0)), Box::new(tree_of(kv.1))),
        DataType::HashSet(b) => DataTree::HashSet(Box::new(tree_of(*b))),
        DataType::Option(b) => DataTree::Option(Box::new(tree_of(*b))),
        DataType::NonZero(b) => DataTree::NonZero(Box::new(tree_of(*b))),
        DataType::BoxString => DataTree::BoxString,
        DataType::BoxBytes => DataTree::BoxBytes,
        DataType::Tuple(ts) => DataTree::Tuple(trees_of(ts@, ts@.len() as int)),
        DataType::Array(b, n) => DataTree::Array(Box::new(tree_of(*b)), n),
        DataType::External(e) => DataTree::External(
            e.path@.map_values(|n: Name| name_tree(n)),
            name_tree(e.name),
            trees_of(e.generics@, e.generics@.len() as int),
        ),
    }
}

/// The trees of the first `n` types of `ts`.
pub open spec fn trees_of(ts: Seq<Type>, n: int) -> Seq<TypeTree>
    decreases ts, n,
{
    if 0 < n <= ts.len() {
        trees_of(ts, n - 1).push(tree_of(ts[n - 1]))
    } else {
        Seq::empty()
    }
}

/// The keywords of the basic types, in the order they are tried.
pub open spec fn basic_keyword(i: int) -> Seq<char> {
    if i == 0 {
        seq!['b', 'o', 'o', 'l']
    } else if i == 1 {
        seq!['u', '8']
    } else if i == 2 {
        seq!['u', '1', '6']
    } else if i == 3 {
        seq!['u', '3', '2']
    } else if i == 4 {
        seq!['u', '6', '4']
    } else if i == 5 {
        seq!['u', '1', '2', '8']
    } else if i == 6 {
        seq!['i', '8']
    } else if i == 7 {
        seq!['i', '1', '6']
    } else if i == 8 {
        seq!['i', '3', '2']
    } else if i == 9 {
        seq!['i', '6', '4']
    } else if i == 10 {
        seq!['i', '1', '2', '8']
    } else if i == 11 {
        seq!['f', '3', '2']
    } else if i == 12 {
        seq!['f', '6', '4']
    } else if i == 13 {
        seq!['s', 't', 'r', 'i', 'n', 'g']
    } else if i == 14 {
        seq!['&', 's', 't', 'r', 'i', 'n', 'g']
    } else if i == 15 {
        seq!['b', 'y', 't', 'e', 's']
    } else if i == 16 {
        seq!['&', 'b', 'y', 't', 'e', 's']
    } else if i == 17 {
        seq!['b', 'o', 'x', '<', 's', 't', 'r', 'i', 'n', 'g', '>']
    } else {
        seq!['b', 'o', 'x', '<', 'b', 'y', 't', 'e', 's', '>']
    }
}

/// The basic type of each keyword.
pub open spec fn basic_tree(i: int) -> DataTree {
    if i == 0 {
        DataTree::Bool
    } else if i == 1 {
        DataTree::U8
    } else if i == 2 {
        DataTree::U16
    } else if i == 3 {
        DataTree::U32
    } else if i == 4 {
        DataTree::U64
    } else if i == 5 {
        DataTree::U128
    } else if i == 6 {
        DataTree::I8
    } else if i == 7 {
        DataTree::I16
    } else if i == 8 {
        DataTree::I32
    } else if i == 9 {
        DataTree::I64
    } else if i == 10 {
        DataTree::I128
    } else if i == 11 {
        DataTree::F32
    } else if i == 12 {
        DataTree::F64
    } else if i == 13 {
        DataTree::String
    } else if i == 14 {
        DataTree::StringRef
    } else if i == 15 {
        DataTree::Bytes
    } else if i == 16 {
        DataTree::BytesRef
    } else if i == 17 {
        DataTree::BoxString
    } else {
        DataTree::BoxBytes
    }
}

/// Each basic keyword names a type of its own: keywords at distinct places
/// give distinct types, and the keyword of `bool` and of each number type is
/// the name that Rust, and the generated code, give that type (`i32` gives
/// `i32`, `i64` gives `i64`, and so on).
pub proof fn lemma_basic_keywords_name_their_types(opts: Opts, i: int, j: int, d: DataType)
    requires
        0 <= i < 19,
        0 <= j < 19,
    ensures
        i != j ==> basic_tree(i) != basic_tree(j),
        i < 13 && data_tree_of(d) == basic_tree(i) ==> rust_type(opts, d) == basic_keyword(i),
{
    reveal_strlit("bool");
    reveal_strlit("u8");
    reveal_strlit("u16");
    reveal_strlit("u32");
    reveal_strlit("u64");
    reveal_strlit("u128");
    reveal_strlit("i8");
    reveal_strlit("i16");
    reveal_strlit("i32");
    reveal_strlit("i64");
    reveal_strlit("i128");
    reveal_strlit("f32");
    reveal_strlit("f64");
    if i < 13 && data_tree_of(d) == basic_tree(i) {
        assert(rust_type(opts, d) =~= basic_keyword(i));
    }
}

/// A keyword that is another one behind `&` names a borrowed form of the
/// same type: generated code holds both in the same Rust type.
pub proof fn lemma_borrowed_keywords(opts: Opts, i: int, j: int, di: DataType, dj: DataType)
    requires
        0 <= i < 19,
        0 <= j < 19,
        basic_keyword(j) == seq!['&'] + basic_keyword(i),
        data_tree_of(di) == basic_tree(i),
        data_tree_of(dj) == basic_tree(j),
    ensures
        rust_type(opts, di) == rust_type(opts, dj),
        di != dj,
{
    assert(basic_keyword(j)[0] == '&');
    assert(basic_keyword(j).len() == basic_keyword(i).len() + 1);
    assert(basic_keyword(j)[1] == basic_keyword(i)[0]);
    assert(j == 14 || j == 16);
    if j == 14 {
        assert(basic_keyword(j)[2] == basic_keyword(i)[1]);
        assert(i == 13);
    } else {
        assert(basic_keyword(j)[2] == basic_keyword(i)[1]);
        assert(i == 15);
    }
}

/// The first basic keyword from the `i`-th on that stands at `p`.
pub open spec fn spec_basic_from(s: Seq<char>, p: int, i: int) -> Option<(DataTree, int)>
    decreases 19 - i,
{
    if 0 <= i < 19 {
        if tag_at(s, p, basic_keyword(i)) {
            Some((basic_tree(i), p + basic_keyword(i).len()))
        } else {
            spec_basic_from(s, p, i + 1)
        }
    } else {
        None
    }
}

/// A name: an uppercase letter followed by letters and digits when `upper`,
/// else a lowercase letter followed by lowercase letters, digits and
/// underscores.
pub open spec fn spec_name(s: Seq<char>, p: int, upper: bool) -> Option<(NameTree, int)> {
    if 0 <= p < s.len() && (if upper {
        is_upper(s[p])
    } else {
        is_lower(s[p])
    }) {
        let e = class_end(
            s,
            p + 1,
            if upper {
                CharClass::AlnumTail
            } else {
                CharClass::LowerTail
            },
        );
        Some((NameTree { text: s.subrange(p, e), start: p, end: e }, e))
    } else {
        None
    }
}

/// A type with whitespace around it.
pub open spec fn spec_ws_type(s: Seq<char>, i: int) -> Option<(TypeTree, int)>
    decreases s.len() - i, 4nat,
{
    if 0 <= i <= s.len() {
        let a = ws_end(s, i);
        proof {
            lemma_class_end(s, i, CharClass::Multispace);
        }
        match spec_parse_type(s, a) {
            Some((t, e)) => if a < e <= s.len() {
                Some((t, ws_end(s, e)))
            } else {
                None
            },
            None => None,
        }
    } else {
        None
    }
}

/// Further list elements from `i` on: each a comma and a type. The list ends
/// before the first comma that no type follows.
pub open spec fn spec_types_rest(s: Seq<char>, i: int) -> (Seq<TypeTree>, int)
    decreases s.len() - i, 1nat,
{
    if 0 <= i < s.len() && s[i] == ',' {
        match spec_ws_type(s, i + 1) {
            Some((t, e)) => if i < e <= s.len() {
                let (r, k) = spec_types_rest(s, e);
                (seq![t] + r, k)
            } else {
                (Seq::empty(), i)
            },
            None => (Seq::empty(), i),
        }
    } else {
        (Seq::empty(), i)
    }
}

/// A type between `<` at `p - 1` and `>`.
pub open spec fn spec_angled(s: Seq<char>, p: int) -> Option<(TypeTree, int)>
    decreases s.len() - p, 5nat,
{
    match spec_ws_type(s, p) {
        Some((t, e)) => if 0 <= e < s.len() && s[e] == '>' {
            Some((t, e + 1))
        } else {
            None
        },
        None => None,
    }
}

pub open spec fn kw_vec() -> Seq<char> {
    seq!['v', 'e', 'c', '<']
}

pub open spec fn kw_hash_map() -> Seq<char> {
    seq!['h', 'a', 's', 'h', '_', 'm', 'a', 'p', '<']
}

pub open spec fn kw_hash_set() -> Seq<char> {
    seq!['h', 'a', 's', 'h', '_', 's', 'e', 't', '<']
}

pub open spec fn kw_option() -> Seq<char> {
    seq!['o', 'p', 't', 'i', 'o', 'n', '<']
}

pub open spec fn kw_non_zero() -> Seq<char> {
    seq!['n', 'o', 'n', '_', 'z', 'e', 'r', 'o', '<']
}

/// A generic built-in type.
pub open spec fn spec_parse_generic(s: Seq<char>, p: int) -> Option<(DataTree, int)>
    decreases s.len() - p, 2nat,
{
    if !(0 <= p <= s.len()) {
        None
    } else if tag_at(s, p, kw_vec()) {
        match spec_angled(s, p + 4) {
            Some((t, e)) => Some((DataTree::Vec(Box::new(t)), e)),
            None => None,
        }
    } else if tag_at(s, p, kw_hash_map()) {
        match spec_ws_type(s, p + 9) {
            Some((k, e)) => if p < e < s.len() && s[e] == ',' {
                match spec_angled(s, e + 1) {
                    Some((v, f)) => Some((DataTree::HashMap(Box::new(k), Box::new(v)), f)),
                    None => None,
                }
            } else {
                None
            },
            None => None,
        }
    } else if tag_at(s, p, kw_hash_set()) {
        match spec_angled(s, p + 9) {
            Some((t, e)) => Some((DataTree::HashSet(Box::new(t)), e)),
            None => None,
        }
    } else if tag_at(s, p, kw_option()) {
        match spec_angled(s, p + 7) {
            Some((t, e)) => Some((DataTree::Option(Box::new(t)), e)),
            None => None,
        }
    } else if tag_at(s, p, kw_non_zero()) {
        match spec_angled(s, p + 9) {
            Some((t, e)) => Some((DataTree::NonZero(Box::new(t)), e)),
            None => None,
        }
    } else {
        None
    }
}

/// A tuple type.
pub open spec fn spec_parse_tuple(s: Seq<char>, p: int) -> Option<(DataTree, int)>
    decreases s.len() - p, 2nat,
{
    if !(0 <= p < s.len() && s[p] == '(') {
        None
    } else {
        match spec_ws_type(s, p + 1) {
            None => if p + 1 < s.len() && s[p + 1] == ')' {
                Some((DataTree::Tuple(Seq::empty()), p + 2))
            } else {
                None
            },
            Some((t, e)) => if p < e <= s.len() {
                let (r, k) = spec_types_rest(s, e);
                if 0 <= k < s.len() && s[k] == ')' {
                    Some((DataTree::Tuple(seq![t] + r), k + 1))
                } else {
                    None
                }
            } else {
                None
            },
        }
    }
}

/// An array type with its length.
pub open spec fn spec_parse_array(s: Seq<char>, p: int) -> Option<(DataTree, int)>
    decreases s.len() - p, 2nat,
{
    if !(0 <= p < s.len() && s[p] == '[') {
        None
    } else {
        match spec_ws_type(s, p + 1) {
            Some((t, e)) => if 0 <= e < s.len() && s[e] == ';' {
                let a = ws_end(s, e + 1);
                let d = digits_end(s, a);
                if d > a && decimal(s, a, d) <= u32::MAX {
                    let f = ws_end(s, d);
                    if 0 <= f < s.len() && s[f] == ']' {
                        Some((DataTree::Array(Box::new(t), decimal(s, a, d) as u32), f + 1))
                    } else {
                        None
                    }
                } else {
                    None
                }
            } else {
                None
            },
            None => None,
        }
    }
}

/// Module names each followed by `::`, as many as stand from `i` on.
pub open spec fn spec_segments(s: Seq<char>, i: int) -> (Seq<NameTree>, int)
    decreases s.len() - i,
{
    match spec_name(s, i, false) {
        Some((n, e)) => if i < e && tag_at(s, e, seq![':', ':']) {
            let (r, k) = spec_segments(s, e + 2);
            (seq![n] + r, k)
        } else {
            (Seq::empty(), i)
        },
        None => (Seq::empty(), i),
    }
}

/// Type arguments `<type, ...>` at `e`.
pub open spec fn spec_type_args(s: Seq<char>, e: int) -> Option<(Seq<TypeTree>, int)>
    decreases s.len() - e, 2nat,
{
    if 0 <= e < s.len() && s[e] == '<' {
        match spec_ws_type(s, e + 1) {
            Some((t, f)) => if e < f <= s.len() {
                let (r, k) = spec_types_rest(s, f);
                if 0 <= k < s.len() && s[k] == '>' {
                    Some((seq![t] + r, k + 1))
                } else {
                    None
                }
            } else {
                None
            },
            None => None,
        }
    } else {
        None
    }
}

/// A type defined outside the built-in ones.
pub open spec fn spec_parse_external(s: Seq<char>, p: int) -> Option<(DataTree, int)>
    decreases s.len() - p, 2nat,
{
    if !(0 <= p <= s.len()) {
        None
    } else {
        let (path, q) = spec_segments(s, p);
        match spec_name(s, q, true) {
            Some((n, e)) => if p < e <= s.len() {
                match spec_type_args(s, e) {
                    Some((gs, f)) => Some((DataTree::External(path, n, gs), f)),
                    None => Some((DataTree::External(path, n, Seq::empty()), e)),
                }
            } else {
                None
            },
            None => None,
        }
    }
}

/// A type at `p`, with the position after it.
pub open spec fn spec_parse_type(s: Seq<char>, p: int) -> Option<(TypeTree, int)>
    decreases s.len() - p, 3nat,
{
    if !(0 <= p <= s.len()) {
        None
    } else {
        let r = match spec_basic_from(s, p, 0) {
            Some(v) => Some(v),
            None => match spec_parse_generic(s, p) {
                Some(v) => Some(v),
                None => match spec_parse_tuple(s, p) {
                    Some(v) => Some(v),
                    None => match spec_parse_array(s, p) {
                        Some(v) => Some(v),
                        None => spec_parse_external(s, p),
                    },
                },
            },
        };
        match r {
            Some((d, e)) => Some((TypeTree { value: d, start: p, end: e }, e)),
            None => None,
        }
    }
}


/// Whether the characters of `k` stand at position `p` of `s`.
pub fn tag(s: &[char], p: usize, k: &str) -> (r: bool)
    requires
        p <= s@.len(),
    ensures
        r == tag_at(s@, p as int, k@),
{
    let n = k.unicode_len();
    if s.len() - p < n {
        return false;
    }
    let mut j: usize = 0;
    while j < n
        invariant
            j <= n,
            n == k@.len(),
            p + n <= s@.len(),
            s@.len() == s.len(),
            forall|m: int| 0 <= m < j ==> s@[p + m] == k@[m],
        decreases n - j,
    {
        if s[p + j] != k.get_char(j) {
            assert(s@.subrange(p as int, p + n)[j as int] != k@[j as int]);
            return false;
        }
        j = j + 1;
    }
    assert(s@.subrange(p as int, p + n) =~= k@);
    true
}

/// The text of the `i`-th basic keyword.
fn basic_keyword_str(i: usize) -> (r: &'static str)
    requires
        i < 19,
    ensures
        r@ == basic_keyword(i as int),
{
    if i == 0 {
        proof {
            reveal_strlit("bool");
        }
        assert("bool"@ =~= basic_keyword(0));
        "bool"
    } else if i == 1 {
        proof {
            reveal_strlit("u8");
        }
        assert("u8"@ =~= basic_keyword(1));
        "u8"
    } else if i == 2 {
        proof {
            reveal_strlit("u16");
        }
        assert("u16"@ =~= basic_keyword(2));
        "u16"
    } else if i == 3 {
        proof {
            reveal_strlit("u32");
        }
        assert("u32"@ =~= basic_keyword(3));
        "u32"
    } else if i == 4 {
        proof {
            reveal_strlit("u64");
        }
        assert("u64"@ =~= basic_keyword(4));
        "u64"
    } else if i == 5 {
        proof {
            reveal_strlit("u128");
        }
        assert("u128"@ =~= basic_keyword(5));
        "u128"
    } else if i == 6 {
        proof {
            reveal_strlit("i8");
        }
        assert("i8"@ =~= basic_keyword(6));
        "i8"
    } else if i == 7 {
        proof {
            reveal_strlit("i16");
        }
        assert("i16"@ =~= basic_keyword(7));
        "i16"
    } else if i == 8 {
        proof {
            reveal_strlit("i32");
        }
        assert("i32"@ =~= basic_keyword(8));
        "i32"
    } else if i == 9 {
        proof {
            reveal_strlit("i64");
        }
        assert("i64"@ =~= basic_keyword(9));
        "i64"
    } else if i == 10 {
        proof {
            reveal_strlit("i128");
        }
        assert("i128"@ =~= basic_keyword(10));
        "i128"
    } else if i == 11 {
        proof {
            reveal_strlit("f32");
        }
        assert("f32"@ =~= basic_keyword(11));
        "f32"
    } else if i == 12 {
        proof {
            reveal_strlit("f64");
        }
        assert("f64"@ =~= basic_keyword(12));
        "f64"
    } else if i == 13 {
        proof {
            reveal_strlit("string");
        }
        assert("string"@ =~= basic_keyword(13));
        "string"
    } else if i == 14 {
        proof {
            reveal_strlit("&string");
        }
        assert("&string"@ =~= basic_keyword(14));
        "&string"
    } else if i == 15 {
        proof {
            reveal_strlit("bytes");
        }
        assert("bytes"@ =~= basic_keyword(15));
        "bytes"
    } else if i == 16 {
        proof {
            reveal_strlit("&bytes");
        }
        assert("&bytes"@ =~= basic_keyword(16));
        "&bytes"
    } else if i == 17 {
        proof {
            reveal_strlit("box<string>");
        }
        assert("box<string>"@ =~= basic_keyword(17));
        "box<string>"
    } else {
        proof {
            reveal_strlit("box<bytes>");
        }
        assert("box<bytes>"@ =~= basic_keyword(18));
        "box<bytes>"
    }
}

/// The basic type of the `i`-th keyword.
fn basic_data(i: usize) -> (d: DataType)
    requires
        i < 19,
    ensures
        data_tree_of(d) == basic_tree(i as int),
{
    if i == 0 {
        DataType::Bool
    } else if i == 1 {
        DataType::U8
    } else if i == 2 {
        DataType::U16
    } else if i == 3 {
        DataType::U32
    } else if i == 4 {
        DataType::U64
    } else if i == 5 {
        DataType::U128
    } else if i == 6 {
        DataType::I8
    } else if i == 7 {
        DataType::I16
    } else if i == 8 {
        DataType::I32
    } else if i == 9 {
        DataType::I64
    } else if i == 10 {
        DataType::I128
    } else if i == 11 {
        DataType::F32
    } else if i == 12 {
        DataType::F64
    } else if i == 13 {
        DataType::String
    } else if i == 14 {
        DataType::StringRef
    } else if i == 15 {
        DataType::Bytes
    } else if i == 16 {
        DataType::BytesRef
    } else if i == 17 {
        DataType::BoxString
    } else {
        DataType::BoxBytes
    }
}


fn kw_vec_str() -> (r: &'static str)
    ensures
        r@ == kw_vec(),
        r@.len() == 4,
{
    proof {
        reveal_strlit("vec<");
    }
    assert("vec<"@ =~= kw_vec());
    "vec<"
}

fn kw_hash_map_str() -> (r: &'static str)
    ensures
        r@ == kw_hash_map(),
        r@.len() == 9,
{
    proof {
        reveal_strlit("hash_map<");
    }
    assert("hash_map<"@ =~= kw_hash_map());
    "hash_map<"
}

fn kw_hash_set_str() -> (r: &'static str)
    ensures
        r@ == kw_hash_set(),
        r@.len() == 9,
{
    proof {
        reveal_strlit("hash_set<");
    }
    assert("hash_set<"@ =~= kw_hash_set());
    "hash_set<"
}

fn kw_option_str() -> (r: &'static str)
    ensures
        r@ == kw_option(),
        r@.len() == 7,
{
    proof {
        reveal_strlit("option<");
    }
    assert("option<"@ =~= kw_option());
    "option<"
}

fn kw_non_zero_str() -> (r: &'static str)
    ensures
        r@ == kw_non_zero(),
        r@.len() == 9,
{
    proof {
        reveal_strlit("non_zero<");
    }
    assert("non_zero<"@ =~= kw_non_zero());
    "non_zero<"
}

fn path_sep_str() -> (r: &'static str)
    ensures
        r@ == seq![':', ':'],
{
    proof {
        reveal_strlit("::");
    }
    assert("::"@ =~= seq![':', ':']);
    "::"
}

/// An executable parse of a type agrees with the spec-level one.
pub open spec fn type_agrees(r: Option<(Type, usize)>, t: Option<(TypeTree, int)>) -> bool {
    match (r, t) {
        (Some((x, e)), Some((y, f))) => tree_of(x) == y && e == f,
        (None, None) => true,
        _ => false,
    }
}

/// An executable parse of a type's shape agrees with the spec-level one.
pub open spec fn data_agrees(r: Option<(DataType, usize)>, t: Option<(DataTree, int)>) -> bool {
    match (r, t) {
        (Some((x, e)), Some((y, f))) => data_tree_of(x) == y && e == f,
        (None, None) => true,
        _ => false,
    }
}

/// Appending a type does not change the trees of the types before it.
pub proof fn lemma_trees_prefix(ts: Seq<Type>, x: Type, n: int)
    requires
        0 <= n <= ts.len(),
    ensures
        trees_of(ts.push(x), n) == trees_of(ts, n),
    decreases n,
{
    if n > 0 {
        lemma_trees_prefix(ts, x, n - 1);
        assert(ts.push(x)[n - 1] == ts[n - 1]);
    }
}

/// The trees of a sequence with one more type.
pub proof fn lemma_trees_push(ts: Seq<Type>, x: Type)
    ensures
        trees_of(ts.push(x), ts.len() + 1int) == trees_of(ts, ts.len() as int).push(tree_of(x)),
{
    lemma_trees_prefix(ts, x, ts.len() as int);
    assert(ts.push(x)[ts.len() as int] == x);
}

fn parse_basic(s: &[char], p: usize) -> (r: Option<(DataType, usize)>)
    requires
        p <= s@.len(),
    ensures
        data_agrees(r, spec_basic_from(s@, p as int, 0)),
        r matches Some((_, e)) ==> p < e <= s@.len(),
{
    let len = s.len();
    let mut i: usize = 0;
    while i < 19
        invariant
            i <= 19,
            p <= s@.len(),
            len == s@.len(),
            spec_basic_from(s@, p as int, 0) == spec_basic_from(s@, p as int, i as int),
        decreases 19 - i,
    {
        let k = basic_keyword_str(i);
        if tag(s, p, k) {
            let n = k.unicode_len();
            return Some((basic_data(i), p + n));
        }
        i = i + 1;
    }
    None
}

/// Parses a name; see [`spec_name`].
pub fn parse_name(s: &[char], p: usize, upper: bool) -> (r: Option<(Name, usize)>)
    requires
        p <= s@.len(),
    ensures
        match (r, spec_name(s@, p as int, upper)) {
            (Some((n, e)), Some((t, f))) => name_tree(n) == t && e == f,
            (None, None) => true,
            _ => false,
        },
        r matches Some((_, e)) ==> p < e <= s@.len(),
{
    if p < s.len() && (if upper {
        'A' <= s[p] && s[p] <= 'Z'
    } else {
        'a' <= s[p] && s[p] <= 'z'
    }) {
        let class = if upper {
            CharClass::AlnumTail
        } else {
            CharClass::LowerTail
        };
        let e = scan(s, p + 1, class);
        let value = crate::strings::string_of(s, p, e);
        Some((Name { value, span: p..e }, e))
    } else {
        None
    }
}

fn parse_ws_type(s: &[char], i: usize) -> (r: Option<(Type, usize)>)
    requires
        i <= s@.len(),
    ensures
        type_agrees(r, spec_ws_type(s@, i as int)),
        r matches Some((_, e)) ==> i < e <= s@.len(),
    decreases s@.len() - i, 4nat,
{
    let a = scan(s, i, CharClass::Multispace);
    match parse_type(s, a) {
        Some((t, e)) => if a < e {
            let f = scan(s, e, CharClass::Multispace);
            Some((t, f))
        } else {
            None
        },
        None => None,
    }
}

/// Parses further list elements, appending them to `acc`.
fn parse_types_rest(s: &[char], i: usize, acc: Vec<Type>) -> (r: (Vec<Type>, usize))
    requires
        i <= s@.len(),
    ensures
        trees_of(r.0@, r.0@.len() as int) == trees_of(acc@, acc@.len() as int) + spec_types_rest(s@, i as int).0,
        r.1 == spec_types_rest(s@, i as int).1,
        i <= r.1 <= s@.len(),
    decreases s@.len() - i, 1nat,
{
    let mut acc = acc;
    let ghost acc0 = acc@;
    let mut j = i;
    loop
        invariant_except_break
            i <= j <= s@.len(),
            trees_of(acc@, acc@.len() as int) + spec_types_rest(s@, j as int).0 == trees_of(acc0, acc0.len() as int) + spec_types_rest(s@, i as int).0,
            spec_types_rest(s@, j as int).1 == spec_types_rest(s@, i as int).1,
        ensures
            i <= j <= s@.len(),
            trees_of(acc@, acc@.len() as int) == trees_of(acc0, acc0.len() as int) + spec_types_rest(s@, i as int).0,
            j == spec_types_rest(s@, i as int).1,
        decreases s@.len() - j,
    {
        if j < s.len() && s[j] == ',' {
            match parse_ws_type(s, j + 1) {
                Some((t, e)) => {
                    let ghost before = acc@;
                    proof {
                        lemma_trees_push(before, t);
                    }
                    acc.push(t);
                    assert(acc@ == before.push(t));
                    proof {
                        let r = spec_types_rest(s@, e as int).0;
                        assert(trees_of(before, before.len() as int) + (seq![tree_of(t)] + r) =~= trees_of(before, before.len() as int).push(tree_of(t)) + r);
                    }
                    j = e;
                },
                None => {
                    assert(trees_of(acc@, acc@.len() as int) + Seq::<TypeTree>::empty() =~= trees_of(acc@, acc@.len() as int));
                    break;
                },
            }
        } else {
            assert(trees_of(acc@, acc@.len() as int) + Seq::<TypeTree>::empty() =~= trees_of(acc@, acc@.len() as int));
            break;
        }
    }
    (acc, j)
}

fn parse_angled(s: &[char], p: usize) -> (r: Option<(Type, usize)>)
    requires
        p <= s@.len(),
    ensures
        type_agrees(r, spec_angled(s@, p as int)),
        r matches Some((_, e)) ==> p < e <= s@.len(),
    decreases s@.len() - p, 5nat,
{
    match parse_ws_type(s, p) {
        Some((t, e)) => if e < s.len() && s[e] == '>' {
            Some((t, e + 1))
        } else {
            None
        },
        None => None,
    }
}

fn parse_generic(s: &[char], p: usize) -> (r: Option<(DataType, usize)>)
    requires
        p <= s@.len(),
    ensures
        data_agrees(r, spec_parse_generic(s@, p as int)),
        r matches Some((_, e)) ==> p < e <= s@.len(),
    decreases s@.len() - p, 2nat,
{
    let len = s.len();
    let k_vec = kw_vec_str();
    let k_map = kw_hash_map_str();
    let k_set = kw_hash_set_str();
    let k_opt = kw_option_str();
    let k_nz = kw_non_zero_str();
    if tag(s, p, k_vec) {
        match parse_angled(s, p + 4) {
            Some((t, e)) => Some((DataType::Vec(Box::new(t)), e)),
            None => None,
        }
    } else if tag(s, p, k_map) {
        match parse_ws_type(s, p + 9) {
            Some((k, e)) => if e < s.len() && s[e] == ',' {
                match parse_angled(s, e + 1) {
                    Some((v, f)) => Some((DataType::HashMap(Box::new((k, v))), f)),
                    None => None,
                }
            } else {
                None
            },
            None => None,
        }
    } else if tag(s, p, k_set) {
        match parse_angled(s, p + 9) {
            Some((t, e)) => Some((DataType::HashSet(Box::new(t)), e)),
            None => None,
        }
    } else if tag(s, p, k_opt) {
        match parse_angled(s, p + 7) {
            Some((t, e)) => Some((DataType::Option(Box::new(t)), e)),
            None => None,
        }
    } else if tag(s, p, k_nz) {
        match parse_angled(s, p + 9) {
            Some((t, e)) => Some((DataType::NonZero(Box::new(t)), e)),
            None => None,
        }
    } else {
        None
    }
}

fn parse_tuple(s: &[char], p: usize) -> (r: Option<(DataType, usize)>)
    requires
        p <= s@.len(),
    ensures
        data_agrees(r, spec_parse_tuple(s@, p as int)),
        r matches Some((_, e)) ==> p < e <= s@.len(),
    decreases s@.len() - p, 2nat,
{
    if !(p < s.len() && s[p] == '(') {
        return None;
    }
    match parse_ws_type(s, p + 1) {
        None => if p + 1 < s.len() && s[p + 1] == ')' {
            Some((DataType::Tuple(Vec::new()), p + 2))
        } else {
            None
        },
        Some((t, e)) => {
            let mut first: Vec<Type> = Vec::new();
            proof {
                lemma_trees_push(first@, t);
            }
            first.push(t);
            let (ts, k) = parse_types_rest(s, e, first);
            if k < s.len() && s[k] == ')' {
                proof {
                    let tt = tree_of(t);
                    assert(trees_of(Seq::<Type>::empty(), 0).push(tt) =~= seq![tt]);
                }
                Some((DataType::Tuple(ts), k + 1))
            } else {
                None
            }
        },
    }
}

fn parse_array(s: &[char], p: usize) -> (r: Option<(DataType, usize)>)
    requires
        p <= s@.len(),
    ensures
        data_agrees(r, spec_parse_array(s@, p as int)),
        r matches Some((_, e)) ==> p < e <= s@.len(),
    decreases s@.len() - p, 2nat,
{
    if !(p < s.len() && s[p] == '[') {
        return None;
    }
    match parse_ws_type(s, p + 1) {
        Some((t, e)) => if e < s.len() && s[e] == ';' {
            let a = scan(s, e + 1, CharClass::Multispace);
            let d = scan(s, a, CharClass::Digit);
            if d == a {
                return None;
            }
            proof {
                lemma_class_end(s@, a as int, CharClass::Digit);
            }
            match decimal_value(s, a, d) {
                Some(v) => if v <= 0xffff_ffffu128 {
                    let f = scan(s, d, CharClass::Multispace);
                    if f < s.len() && s[f] == ']' {
                        Some((DataType::Array(Box::new(t), v as u32), f + 1))
                    } else {
                        None
                    }
                } else {
                    None
                },
                None => None,
            }
        } else {
            None
        },
        None => None,
    }
}

/// Parses module names each followed by `::`.
fn parse_segments(s: &[char], i: usize) -> (r: (Vec<Name>, usize))
    requires
        i <= s@.len(),
    ensures
        r.0@.map_values(|n: Name| name_tree(n)) == spec_segments(s@, i as int).0,
        r.1 == spec_segments(s@, i as int).1,
        i <= r.1 <= s@.len(),
{
    let sep = path_sep_str();
    let len = s.len();
    let mut acc: Vec<Name> = Vec::new();
    let mut j = i;
    loop
        invariant_except_break
            i <= j <= s@.len(),
            len == s@.len(),
            sep@ == seq![':', ':'],
            acc@.map_values(|n: Name| name_tree(n)) + spec_segments(s@, j as int).0 == spec_segments(s@, i as int).0,
            spec_segments(s@, j as int).1 == spec_segments(s@, i as int).1,
        ensures
            i <= j <= s@.len(),
            acc@.map_values(|n: Name| name_tree(n)) == spec_segments(s@, i as int).0,
            j == spec_segments(s@, i as int).1,
        decreases s@.len() - j,
    {
        match parse_name(s, j, false) {
            Some((n, e)) => {
                if tag(s, e, sep) {
                    let ghost before = acc@;
                    let ghost nt = name_tree(n);
                    acc.push(n);
                    proof {
                        let r = spec_segments(s@, e + 2).0;
                        assert(acc@.map_values(|n: Name| name_tree(n)) =~= before.map_values(|n: Name| name_tree(n)).push(nt));
                        assert(before.map_values(|n: Name| name_tree(n)) + (seq![nt] + r) =~= before.map_values(|n: Name| name_tree(n)).push(nt) + r);
                    }
                    j = e + 2;
                } else {
                    assert(acc@.map_values(|n: Name| name_tree(n)) + Seq::<NameTree>::empty() =~= acc@.map_values(|n: Name| name_tree(n)));
                    break;
                }
            },
            None => {
                assert(acc@.map_values(|n: Name| name_tree(n)) + Seq::<NameTree>::empty() =~= acc@.map_values(|n: Name| name_tree(n)));
                break;
            },
        }
    }
    (acc, j)
}

fn parse_type_args(s: &[char], e: usize) -> (r: Option<(Vec<Type>, usize)>)
    requires
        e <= s@.len(),
    ensures
        match (r, spec_type_args(s@, e as int)) {
            (Some((ts, f)), Some((tt, g))) => trees_of(ts@, ts@.len() as int) == tt && f == g,
            (None, None) => true,
            _ => false,
        },
        r matches Some((_, f)) ==> e < f <= s@.len(),
    decreases s@.len() - e, 2nat,
{
    if !(e < s.len() && s[e] == '<') {
        return None;
    }
    match parse_ws_type(s, e + 1) {
        Some((t, f)) => {
            let mut first: Vec<Type> = Vec::new();
            proof {
                lemma_trees_push(first@, t);
            }
            first.push(t);
            let (ts, k) = parse_types_rest(s, f, first);
            if k < s.len() && s[k] == '>' {
                proof {
                    let tt = tree_of(t);
                    assert(trees_of(Seq::<Type>::empty(), 0).push(tt) =~= seq![tt]);
                }
                Some((ts, k + 1))
            } else {
                None
            }
        },
        None => None,
    }
}

fn parse_external(s: &[char], p: usize) -> (r: Option<(DataType, usize)>)
    requires
        p <= s@.len(),
    ensures
        data_agrees(r, spec_parse_external(s@, p as int)),
        r matches Some((_, e)) ==> p < e <= s@.len(),
    decreases s@.len() - p, 2nat,
{
    let (path, q) = parse_segments(s, p);
    match parse_name(s, q, true) {
        Some((name, e)) => {
            match parse_type_args(s, e) {
                Some((generics, f)) => Some((DataType::External(ExternalType { path, name, generics }), f)),
                None => {
                    let generics: Vec<Type> = Vec::new();
                    assert(trees_of(generics@, 0) =~= Seq::<TypeTree>::empty());
                    Some((DataType::External(ExternalType { path, name, generics }), e))
                },
            }
        },
        None => None,
    }
}

fn parse_type(s: &[char], p: usize) -> (r: Option<(Type, usize)>)
    requires
        p <= s@.len(),
    ensures
        type_agrees(r, spec_parse_type(s@, p as int)),
        r matches Some((_, e)) ==> p < e <= s@.len(),
    decreases s@.len() - p, 3nat,
{
    let d = match parse_basic(s, p) {
        Some(v) => Some(v),
        None => match parse_generic(s, p) {
            Some(v) => Some(v),
            None => match parse_tuple(s, p) {
                Some(v) => Some(v),
                None => match parse_array(s, p) {
                    Some(v) => Some(v),
                    None => parse_external(s, p),
                },
            },
        },
    };
    match d {
        Some((value, e)) => Some((Type { value, span: p..e }, e)),
        None => None,
    }
}

/// The error of a type reference that cannot be read at `p`.
pub open spec fn type_error(p: usize) -> ErrMode<ParseError> {
    ErrMode::Backtrack(ParseError { at: Range { start: p, end: p }, cause: Cause::Parser(ErrorKind::Alt, p) })
}

/// Parses a type reference at position `p`.
pub fn parse(s: &[char], p: usize) -> (r: Result<(Type, usize), ErrMode<ParseError>>)
    requires
        p <= s@.len(),
    ensures
        match (r, spec_parse_type(s@, p as int)) {
            (Ok((t, e)), Some((tt, f))) => tree_of(t) == tt && e == f,
            (Err(x), None) => x == type_error(p),
            _ => false,
        },
        r matches Ok((_, e)) ==> p < e <= s@.len(),
{
    match parse_type(s, p) {
        Some(v) => Ok(v),
        None => Err(ErrMode::Backtrack(ParseError { at: p..p, cause: Cause::Parser(ErrorKind::Alt, p) })),
    }
}


/// Every basic keyword has at least two characters.
pub proof fn lemma_basic_from_progress(s: Seq<char>, p: int, i: int)
    ensures
        spec_basic_from(s, p, i) matches Some((_, e)) ==> p < e && (0 <= p ==> e <= s.len()),
    decreases 19 - i,
{
    if 0 <= i < 19 {
        if !tag_at(s, p, basic_keyword(i)) {
            lemma_basic_from_progress(s, p, i + 1);
        }
    }
}

/// A type that parses spans at least one character within the input, and
/// its span is exactly what was read.
pub proof fn lemma_parse_type_progress(s: Seq<char>, p: int)
    requires
        0 <= p <= s.len(),
    ensures
        spec_parse_type(s, p) matches Some((t, e)) ==> p < e <= s.len() && t.start == p && t.end == e,
{
    lemma_basic_from_progress(s, p, 0);
    lemma_generic_bounds(s, p);
    lemma_tuple_bounds(s, p);
    lemma_array_bounds(s, p);
    lemma_external_bounds(s, p);
}

proof fn lemma_angled_bounds(s: Seq<char>, i: int)
    requires
        0 <= i <= s.len(),
    ensures
        spec_angled(s, i) matches Some((_, e)) ==> i < e <= s.len(),
{
    lemma_ws_type_bounds(s, i);
}

proof fn lemma_generic_bounds(s: Seq<char>, p: int)
    requires
        0 <= p <= s.len(),
    ensures
        spec_parse_generic(s, p) matches Some((_, e)) ==> p < e <= s.len(),
{
    if tag_at(s, p, kw_vec()) {
        lemma_angled_bounds(s, p + 4);
    } else if tag_at(s, p, kw_hash_map()) {
        lemma_ws_type_bounds(s, p + 9);
        if let Some((k, e)) = spec_ws_type(s, p + 9) {
            if p < e < s.len() {
                lemma_angled_bounds(s, e + 1);
            }
        }
    } else if tag_at(s, p, kw_hash_set()) {
        lemma_angled_bounds(s, p + 9);
    } else if tag_at(s, p, kw_option()) {
        lemma_angled_bounds(s, p + 7);
    } else if tag_at(s, p, kw_non_zero()) {
        lemma_angled_bounds(s, p + 9);
    }
}

proof fn lemma_tuple_bounds(s: Seq<char>, p: int)
    requires
        0 <= p <= s.len(),
    ensures
        spec_parse_tuple(s, p) matches Some((_, e)) ==> p < e <= s.len(),
{
    if 0 <= p < s.len() && s[p] == '(' {
        lemma_ws_type_bounds(s, p + 1);
        if let Some((t, e)) = spec_ws_type(s, p + 1) {
            lemma_types_rest_bounds(s, e);
        }
    }
}

proof fn lemma_array_bounds(s: Seq<char>, p: int)
    requires
        0 <= p <= s.len(),
    ensures
        spec_parse_array(s, p) matches Some((_, e)) ==> p < e <= s.len(),
{
    if 0 <= p < s.len() && s[p] == '[' {
        lemma_ws_type_bounds(s, p + 1);
        if let Some((t, e)) = spec_ws_type(s, p + 1) {
            if 0 <= e < s.len() && s[e] == ';' {
                lemma_class_end(s, e + 1, CharClass::Multispace);
                let a = ws_end(s, e + 1);
                lemma_class_end(s, a, CharClass::Digit);
                lemma_class_end(s, digits_end(s, a), CharClass::Multispace);
            }
        }
    }
}

proof fn lemma_external_bounds(s: Seq<char>, p: int)
    requires
        0 <= p <= s.len(),
    ensures
        spec_parse_external(s, p) matches Some((_, e)) ==> p < e <= s.len(),
{
    lemma_segments_bounds(s, p);
    let q = spec_segments(s, p).1;
    if 0 <= q < s.len() {
        lemma_class_end(s, q + 1, CharClass::AlnumTail);
    }
    if let Some((n, e)) = spec_name(s, q, true) {
        if 0 <= e < s.len() && s[e] == '<' {
            lemma_ws_type_bounds(s, e + 1);
            if let Some((t, f)) = spec_ws_type(s, e + 1) {
                lemma_types_rest_bounds(s, f);
            }
        }
    }
}

/// A type with its surrounding whitespace spans at least one character
/// within the input.
pub proof fn lemma_ws_type_bounds(s: Seq<char>, i: int)
    requires
        0 <= i <= s.len(),
    ensures
        spec_ws_type(s, i) matches Some((_, e)) ==> i < e <= s.len(),
{
    lemma_class_end(s, i, CharClass::Multispace);
    let a = ws_end(s, i);
    if let Some((t, e)) = spec_parse_type(s, a) {
        if a < e <= s.len() {
            lemma_class_end(s, e, CharClass::Multispace);
        }
    }
}

/// Further list elements end within the input, no earlier than they start.
pub proof fn lemma_types_rest_bounds(s: Seq<char>, i: int)
    requires
        0 <= i <= s.len(),
    ensures
        i <= spec_types_rest(s, i).1 <= s.len(),
    decreases s.len() - i,
{
    if 0 <= i < s.len() && s[i] == ',' {
        if let Some((t, e)) = spec_ws_type(s, i + 1) {
            if i < e <= s.len() {
                lemma_types_rest_bounds(s, e);
            }
        }
    }
}

/// Module segments end within the input, no earlier than they start.
pub proof fn lemma_segments_bounds(s: Seq<char>, i: int)
    requires
        0 <= i <= s.len(),
    ensures
        i <= spec_segments(s, i).1 <= s.len(),
    decreases s.len() - i,
{
    if let Some((n, e)) = spec_name(s, i, false) {
        lemma_class_end(s, i + 1, CharClass::LowerTail);
        if i < e && tag_at(s, e, seq![':', ':']) {
            lemma_segments_bounds(s, e + 2);
        }
    }
}

/// The names in a type are ASCII identifiers, so code can be generated for
/// them.
pub proof fn lemma_name_is_ident(s: Seq<char>, p: int, upper: bool)
    requires
        0 <= p <= s.len(),
    ensures
        spec_name(s, p, upper) matches Some((n, _)) ==> crate::tokens::is_ascii_ident(n.text),
{
    if let Some((n, e)) = spec_name(s, p, upper) {
        let class = if upper {
            CharClass::AlnumTail
        } else {
            CharClass::LowerTail
        };
        lemma_class_end(s, p + 1, class);
        assert forall|i: int| 1 <= i < n.text.len() implies (crate::tokens::is_ascii_alpha(#[trigger] n.text[i]) || ('0' <= n.text[i] && n.text[i] <= '9') || n.text[i] == '_') by {
            assert(n.text[i] == s[p + i]);
            assert(in_class(s[p + i], class));
        }
    }
}

} // verus!
