//! The Rust type that stands for a schema type in generated code.
use vstd::prelude::*;

use crate::ast::{DataType, ExternalType, Type};
use crate::tokens::{decimal_text, ident, is_ascii_ident, u32_literal};

verus! {

/// How byte sequences are represented in generated code.
#[derive(Clone, Copy, Debug, PartialEq, Eq, Structural)]
pub enum BytesType {
    /// `Vec<u8>`.
    VecU8,
    /// `stef::Bytes`.
    Bytes,
}

/// Options of the code generator.
#[derive(Clone, Copy, Debug)]
pub struct Opts {
    pub bytes_type: BytesType,
}

/// The types that may stand inside `non_zero<...>`.
pub open spec fn non_zero_allowed(t: DataType) -> bool {
    match t {
        DataType::U8 | DataType::U16 | DataType::U32 | DataType::U64 | DataType::U128
        | DataType::I8 | DataType::I16 | DataType::I32 | DataType::I64 | DataType::I128
        | DataType::String | DataType::StringRef | DataType::Bytes | DataType::BytesRef
        | DataType::Vec(_) | DataType::HashMap(_) | DataType::HashSet(_) => true,
        _ => false,
    }
}

/// A type that generated code can name: every `non_zero` wraps a type that
/// may stand there, and every name of an outside type is an identifier.
pub open spec fn nameable(t: DataType) -> bool
    decreases t, 0nat,
{
    match t {
        DataType::Vec(b) => nameable(b.value),
        DataType::HashMap(kv) => nameable(kv.0.value) && nameable(kv.1.value),
        DataType::HashSet(b) => nameable(b.value),
        DataType::Option(b) => nameable(b.value),
        DataType::NonZero(b) => non_zero_allowed(b.value) && nameable(b.value),
        DataType::Array(b, _) => nameable(b.value),
        DataType::Tuple(ts) => all_nameable(ts@, ts@.len() as int),
        DataType::External(e) => {
            &&& forall|i: int| 0 <= i < e.path@.len() ==> is_ascii_ident(#[trigger] e.path@[i].value@)
            &&& is_ascii_ident(e.name.value@)
            &&& all_nameable(e.generics@, e.generics@.len() as int)
        },
        _ => true,
    }
}

/// The first `n` types of `ts` can be named.
pub open spec fn all_nameable(ts: Seq<Type>, n: int) -> bool
    decreases ts, n,
{
    if 0 < n <= ts.len() {
        all_nameable(ts, n - 1) && nameable(ts[n - 1].value)
    } else {
        true
    }
}

/// The Rust type for a `non_zero` type.
pub open spec fn non_zero_name(opts: Opts, t: DataType) -> Seq<char>
    decreases t, 1nat,
{
    match t {
        DataType::U8 => "::std::num::NonZeroU8"@,
        DataType::U16 => "::std::num::NonZeroU16"@,
        DataType::U32 => "::std::num::NonZeroU32"@,
        DataType::U64 => "::std::num::NonZeroU64"@,
        DataType::U128 => "::std::num::NonZeroU128"@,
        DataType::I8 => "::std::num::NonZeroI8"@,
        DataType::I16 => "::std::num::NonZeroI16"@,
        DataType::I32 => "::std::num::NonZeroI32"@,
        DataType::I64 => "::std::num::NonZeroI64"@,
        DataType::I128 => "::std::num::NonZeroI128"@,
        DataType::String | DataType::StringRef => "::stef::NonZeroString"@,
        DataType::Bytes | DataType::BytesRef => match opts.bytes_type {
            BytesType::VecU8 => "::stef::NonZeroBytes"@,
            BytesType::Bytes => "::stef::NonZero<::stef::Bytes>"@,
        },
        DataType::Vec(b) => "::stef::NonZeroVec<"@ + rust_type(opts, b.value) + ">"@,
        DataType::HashMap(kv) => "::stef::NonZeroHashMap<"@ + rust_type(opts, kv.0.value) + ", "@
            + rust_type(opts, kv.1.value) + ">"@,
        DataType::HashSet(b) => "::stef::NonZeroHashSet<"@ + rust_type(opts, b.value) + ">"@,
        _ => Seq::empty(),
    }
}

/// The Rust type that stands for a schema type.
pub open spec fn rust_type(opts: Opts, t: DataType) -> Seq<char>
    decreases t, 2nat,
{
    match t {
        DataType::Bool => "bool"@,
        DataType::U8 => "u8"@,
        DataType::U16 => "u16"@,
        DataType::U32 => "u32"@,
        DataType::U64 => "u64"@,
        DataType::U128 => "u128"@,
        DataType::I8 => "i8"@,
        DataType::I16 => "i16"@,
        DataType::I32 => "i32"@,
        DataType::I64 => "i64"@,
        DataType::I128 => "i128"@,
        DataType::F32 => "f32"@,
        DataType::F64 => "f64"@,
        DataType::String | DataType::StringRef => "String"@,
        DataType::Bytes | DataType::BytesRef => match opts.bytes_type {
            BytesType::VecU8 => "Vec<u8>"@,
            BytesType::Bytes => "::stef::Bytes"@,
        },
        DataType::Vec(b) => "Vec<"@ + rust_type(opts, b.value) + ">"@,
        DataType::HashMap(kv) => "::std::collections::HashMap<"@ + rust_type(opts, kv.0.value)
            + ", "@ + rust_type(opts, kv.1.value) + ">"@,
        DataType::HashSet(b) => "::std::collections::HashSet<"@ + rust_type(opts, b.value) + ">"@,
        DataType::Option(b) => "Option<"@ + rust_type(opts, b.value) + ">"@,
        DataType::NonZero(b) => non_zero_name(opts, b.value),
        DataType::BoxString => "Box<str>"@,
        DataType::BoxBytes => "Box<[u8]>"@,
        DataType::Tuple(ts) => "("@ + rust_types(opts, ts@, ts@.len() as int) + ")"@,
        DataType::Array(b, size) => "["@ + rust_type(opts, b.value) + "; "@ + decimal_text(
            size as nat,
        ) + "]"@,
        DataType::External(e) => path_text(e.path@, e.path@.len() as int) + e.name.value@
            + if e.generics@.len() == 0 {
            Seq::empty()
        } else {
            "<"@ + rust_types(opts, e.generics@, e.generics@.len() as int) + ">"@
        },
    }
}

/// The names of the first `n` types of `ts`, each followed by a comma.
pub open spec fn rust_types(opts: Opts, ts: Seq<Type>, n: int) -> Seq<char>
    decreases ts, n,
{
    if 0 < n <= ts.len() {
        rust_types(opts, ts, n - 1) + rust_type(opts, ts[n - 1].value) + ","@
    } else {
        Seq::empty()
    }
}

/// The first `n` segments of a module path, each followed by `::`.
pub open spec fn path_text(path: Seq<crate::ast::Name>, n: int) -> Seq<char>
    decreases n,
{
    if 0 < n <= path.len() {
        path_text(path, n - 1) + path[n - 1].value@ + "::"@
    } else {
        Seq::empty()
    }
}

/// Appends the Rust type for `ty`.
pub fn push_rust_type(out: &mut String, opts: &Opts, ty: &Type)
    requires
        nameable(ty.value),
    ensures
        final(out)@ == old(out)@ + rust_type(*opts, ty.value),
    decreases ty, 2nat,
{
    match &ty.value {
        DataType::Bool => out.append("bool"),
        DataType::U8 => out.append("u8"),
        DataType::U16 => out.append("u16"),
        DataType::U32 => out.append("u32"),
        DataType::U64 => out.append("u64"),
        DataType::U128 => out.append("u128"),
        DataType::I8 => out.append("i8"),
        DataType::I16 => out.append("i16"),
        DataType::I32 => out.append("i32"),
        DataType::I64 => out.append("i64"),
        DataType::I128 => out.append("i128"),
        DataType::F32 => out.append("f32"),
        DataType::F64 => out.append("f64"),
        DataType::String | DataType::StringRef => out.append("String"),
        DataType::Bytes | DataType::BytesRef => match opts.bytes_type {
            BytesType::VecU8 => out.append("Vec<u8>"),
            BytesType::Bytes => out.append("::stef::Bytes"),
        },
        DataType::Vec(b) => {
            out.append("Vec<");
            push_rust_type(out, opts, &**b);
            out.append(">");
        },
        DataType::HashMap(kv) => {
            out.append("::std::collections::HashMap<");
            push_rust_type(out, opts, &kv.0);
            out.append(", ");
            push_rust_type(out, opts, &kv.1);
            out.append(">");
        },
        DataType::HashSet(b) => {
            out.append("::std::collections::HashSet<");
            push_rust_type(out, opts, &**b);
            out.append(">");
        },
        DataType::Option(b) => {
            out.append("Option<");
            push_rust_type(out, opts, &**b);
            out.append(">");
        },
        DataType::NonZero(b) => push_non_zero(out, opts, &**b),
        DataType::BoxString => out.append("Box<str>"),
        DataType::BoxBytes => out.append("Box<[u8]>"),
        DataType::Tuple(ts) => {
            out.append("(");
            push_rust_types(out, opts, ts);
            out.append(")");
        },
        DataType::Array(b, size) => {
            out.append("[");
            push_rust_type(out, opts, &**b);
            out.append("; ");
            let n = u32_literal(*size);
            out.append(n.as_str());
            out.append("]");
        },
        DataType::External(e) => {
            push_path(out, &e.path);
            let name = ident(e.name.get());
            out.append(name.as_str());
            if e.generics.len() != 0 {
                out.append("<");
                push_rust_types(out, opts, &e.generics);
                out.append(">");
            }
        },
    }
}

/// Appends the Rust type for a `non_zero` type.
pub fn push_non_zero(out: &mut String, opts: &Opts, ty: &Type)
    requires
        non_zero_allowed(ty.value),
        nameable(ty.value),
    ensures
        final(out)@ == old(out)@ + non_zero_name(*opts, ty.value),
    decreases ty, 1nat,
{
    match &ty.value {
        DataType::U8 => out.append("::std::num::NonZeroU8"),
        DataType::U16 => out.append("::std::num::NonZeroU16"),
        DataType::U32 => out.append("::std::num::NonZeroU32"),
        DataType::U64 => out.append("::std::num::NonZeroU64"),
        DataType::U128 => out.append("::std::num::NonZeroU128"),
        DataType::I8 => out.append("::std::num::NonZeroI8"),
        DataType::I16 => out.append("::std::num::NonZeroI16"),
        DataType::I32 => out.append("::std::num::NonZeroI32"),
        DataType::I64 => out.append("::std::num::NonZeroI64"),
        DataType::I128 => out.append("::std::num::NonZeroI128"),
        DataType::String | DataType::StringRef => out.append("::stef::NonZeroString"),
        DataType::Bytes | DataType::BytesRef => match opts.bytes_type {
            BytesType::VecU8 => out.append("::stef::NonZeroBytes"),
            BytesType::Bytes => out.append("::stef::NonZero<::stef::Bytes>"),
        },
        DataType::Vec(b) => {
            out.append("::stef::NonZeroVec<");
            push_rust_type(out, opts, &**b);
            out.append(">");
        },
        DataType::HashMap(kv) => {
            out.append("::stef::NonZeroHashMap<");
            push_rust_type(out, opts, &kv.0);
            out.append(", ");
            push_rust_type(out, opts, &kv.1);
            out.append(">");
        },
        DataType::HashSet(b) => {
            out.append("::stef::NonZeroHashSet<");
            push_rust_type(out, opts, &**b);
            out.append(">");
        },
        _ => {},
    }
}

/// Appends the Rust types for `ts`, each followed by a comma.
pub fn push_rust_types(out: &mut String, opts: &Opts, ts: &Vec<Type>)
    requires
        all_nameable(ts@, ts@.len() as int),
    ensures
        final(out)@ == old(out)@ + rust_types(*opts, ts@, ts@.len() as int),
    decreases ts, 0nat,
{
    let mut i: usize = 0;
    while i < ts.len()
        invariant
            i <= ts@.len(),
            all_nameable(ts@, ts@.len() as int),
            out@ == old(out)@ + rust_types(*opts, ts@, i as int),
        decreases ts@.len() - i,
    {
        proof {
            lemma_all_nameable(ts@, ts@.len() as int, i as int);
        }
        push_rust_type(out, opts, &ts[i]);
        out.append(",");
        i = i + 1;
    }
}

/// Appends the segments of a module path, each followed by `::`.
pub fn push_path(out: &mut String, path: &Vec<crate::ast::Name>)
    requires
        forall|i: int| 0 <= i < path@.len() ==> is_ascii_ident(#[trigger] path@[i].value@),
    ensures
        final(out)@ == old(out)@ + path_text(path@, path@.len() as int),
{
    let mut i: usize = 0;
    while i < path.len()
        invariant
            i <= path@.len(),
            forall|k: int| 0 <= k < path@.len() ==> is_ascii_ident(#[trigger] path@[k].value@),
            out@ == old(out)@ + path_text(path@, i as int),
        decreases path@.len() - i,
    {
        let seg = ident(path[i].get());
        out.append(seg.as_str());
        out.append("::");
        i = i + 1;
    }
}

/// Every one of the first `n` types can be named.
pub proof fn lemma_all_nameable(ts: Seq<Type>, n: int, k: int)
    requires
        0 <= k < n <= ts.len(),
        all_nameable(ts, n),
    ensures
        nameable(ts[k].value),
    decreases n,
{
    if k < n - 1 {
        lemma_all_nameable(ts, n - 1, k);
    }
}

/// The Rust type that stands for a schema type in generated code.
pub fn compile_data_type(opts: &Opts, ty: &Type) -> (r: String)
    requires
        nameable(ty.value),
    ensures
        r@ == rust_type(*opts, ty.value),
{
    let mut out = String::new();
    push_rust_type(&mut out, opts, ty);
    out
}


/// No byte sequence type (`bytes`, `&bytes`) occurs in `t`.
pub open spec fn no_bytes(t: DataType) -> bool
    decreases t, 0nat,
{
    match t {
        DataType::Bytes | DataType::BytesRef => false,
        DataType::Vec(b) => no_bytes(b.value),
        DataType::HashMap(kv) => no_bytes(kv.0.value) && no_bytes(kv.1.value),
        DataType::HashSet(b) => no_bytes(b.value),
        DataType::Option(b) => no_bytes(b.value),
        DataType::NonZero(b) => no_bytes(b.value),
        DataType::Array(b, _) => no_bytes(b.value),
        DataType::Tuple(ts) => all_no_bytes(ts@, ts@.len() as int),
        DataType::External(e) => all_no_bytes(e.generics@, e.generics@.len() as int),
        _ => true,
    }
}

/// No byte sequence type occurs in the first `n` types of `ts`.
pub open spec fn all_no_bytes(ts: Seq<Type>, n: int) -> bool
    decreases ts, n,
{
    if 0 < n <= ts.len() {
        all_no_bytes(ts, n - 1) && no_bytes(ts[n - 1].value)
    } else {
        true
    }
}

/// The options only matter for byte sequence types: a type without them is
/// named the same way whatever the options.
pub proof fn lemma_rust_type_opts(o1: Opts, o2: Opts, t: DataType)
    requires
        no_bytes(t),
    ensures
        rust_type(o1, t) == rust_type(o2, t),
        non_zero_name(o1, t) == non_zero_name(o2, t),
    decreases t, 1nat,
{
    match t {
        DataType::Vec(b) => lemma_rust_type_opts(o1, o2, b.value),
        DataType::HashMap(kv) => {
            lemma_rust_type_opts(o1, o2, kv.0.value);
            lemma_rust_type_opts(o1, o2, kv.1.value);
        },
        DataType::HashSet(b) => lemma_rust_type_opts(o1, o2, b.value),
        DataType::Option(b) => lemma_rust_type_opts(o1, o2, b.value),
        DataType::NonZero(b) => lemma_rust_type_opts(o1, o2, b.value),
        DataType::Array(b, _) => lemma_rust_type_opts(o1, o2, b.value),
        DataType::Tuple(ts) => lemma_rust_types_opts(o1, o2, ts@, ts@.len() as int),
        DataType::External(e) => lemma_rust_types_opts(
            o1,
            o2,
            e.generics@,
            e.generics@.len() as int,
        ),
        _ => {},
    }
}

/// The same for a list of types.
pub proof fn lemma_rust_types_opts(o1: Opts, o2: Opts, ts: Seq<Type>, n: int)
    requires
        all_no_bytes(ts, n),
    ensures
        rust_types(o1, ts, n) == rust_types(o2, ts, n),
    decreases ts, n,
{
    if 0 < n <= ts.len() {
        lemma_rust_types_opts(o1, o2, ts, n - 1);
        lemma_rust_type_opts(o1, o2, ts[n - 1].value);
    }
}

} // verus!
