//! Generation of the `stef::Decode` implementation of a struct or an enum.
//!
//! The generated code reads field identifiers until the end marker, decodes
//! the field that each identifier names (skipping unknown ones), and builds
//! the value, failing on a missing field unless the field is optional.
//! Generated code is produced as Rust source text.
use vstd::prelude::*;

use crate::ast::{DataType, Enum, Fields, Generics, Name, NamedField, Struct, Type, UnnamedField, Variant};
use crate::definition::{
    all_no_bytes, no_bytes, all_nameable, nameable, non_zero_allowed, path_text, push_path, push_rust_type,
    push_rust_types, rust_type, rust_types, BytesType, Opts,
};
use crate::strings::push_char;
use crate::tokens::{decimal_text, ident, is_ascii_ident, push_decimal, string_literal, u32_literal};

verus! {

/// Every tuple type within `t` has between two and twelve elements.
pub open spec fn tuples_fit(t: DataType) -> bool
    decreases t, 0nat,
{
    match t {
        DataType::Vec(b) => tuples_fit(b.value),
        DataType::HashMap(kv) => tuples_fit(kv.0.value) && tuples_fit(kv.1.value),
        DataType::HashSet(b) => tuples_fit(b.value),
        DataType::Option(b) => tuples_fit(b.value),
        DataType::NonZero(b) => tuples_fit(b.value),
        DataType::Array(b, _) => tuples_fit(b.value),
        DataType::Tuple(ts) => 2 <= ts@.len() <= 12 && all_tuples_fit(ts@, ts@.len() as int),
        _ => true,
    }
}

pub open spec fn all_tuples_fit(ts: Seq<Type>, n: int) -> bool
    decreases ts, n,
{
    if 0 < n <= ts.len() {
        all_tuples_fit(ts, n - 1) && tuples_fit(ts[n - 1].value)
    } else {
        true
    }
}

/// A type whose decoding code can be generated.
pub open spec fn decodable(t: DataType) -> bool {
    nameable(t) && tuples_fit(t)
}

/// The expression that decodes a `non_zero` value.
pub open spec fn non_zero_decode(opts: Opts, t: DataType) -> Seq<char>
    decreases t, 1nat,
{
    match t {
        DataType::U8 => "::stef::buf::decode_non_zero_u8(r)"@,
        DataType::U16 => "::stef::buf::decode_non_zero_u16(r)"@,
        DataType::U32 => "::stef::buf::decode_non_zero_u32(r)"@,
        DataType::U64 => "::stef::buf::decode_non_zero_u64(r)"@,
        DataType::U128 => "::stef::buf::decode_non_zero_u128(r)"@,
        DataType::I8 => "::stef::buf::decode_non_zero_i8(r)"@,
        DataType::I16 => "::stef::buf::decode_non_zero_i16(r)"@,
        DataType::I32 => "::stef::buf::decode_non_zero_i32(r)"@,
        DataType::I64 => "::stef::buf::decode_non_zero_i64(r)"@,
        DataType::I128 => "::stef::buf::decode_non_zero_i128(r)"@,
        DataType::String | DataType::StringRef => "::stef::buf::decode_non_zero_string(r)"@,
        DataType::Bytes | DataType::BytesRef => match opts.bytes_type {
            BytesType::VecU8 => "::stef::buf::decode_non_zero_bytes_std(r)"@,
            BytesType::Bytes => "::stef::buf::decode_non_zero_bytes_bytes(r)"@,
        },
        DataType::Vec(b) => "::stef::buf::decode_non_zero_vec(r, |r| { "@ + decode_expr(
            opts,
            b.value,
            false,
        ) + " })"@,
        DataType::HashMap(kv) => "::stef::buf::decode_non_zero_hash_map(r, |r| { "@
            + decode_expr(opts, kv.0.value, false) + " }, |r| { "@ + decode_expr(
            opts,
            kv.1.value,
            false,
        ) + " })"@,
        DataType::HashSet(b) => "::stef::buf::decode_non_zero_hash_set(r, |r| { "@ + decode_expr(
            opts,
            b.value,
            false,
        ) + " })"@,
        _ => Seq::empty(),
    }
}

/// The expression that decodes a value of type `t` from the buffer `r`.
/// A tuple that stands directly for a field (`root`) is preceded by its
/// encoded length, which is read and dropped.
pub open spec fn decode_expr(opts: Opts, t: DataType, root: bool) -> Seq<char>
    decreases t, 2nat,
{
    match t {
        DataType::Bool => "::stef::buf::decode_bool(r)"@,
        DataType::U8 => "::stef::buf::decode_u8(r)"@,
        DataType::U16 => "::stef::buf::decode_u16(r)"@,
        DataType::U32 => "::stef::buf::decode_u32(r)"@,
        DataType::U64 => "::stef::buf::decode_u64(r)"@,
        DataType::U128 => "::stef::buf::decode_u128(r)"@,
        DataType::I8 => "::stef::buf::decode_i8(r)"@,
        DataType::I16 => "::stef::buf::decode_i16(r)"@,
        DataType::I32 => "::stef::buf::decode_i32(r)"@,
        DataType::I64 => "::stef::buf::decode_i64(r)"@,
        DataType::I128 => "::stef::buf::decode_i128(r)"@,
        DataType::F32 => "::stef::buf::decode_f32(r)"@,
        DataType::F64 => "::stef::buf::decode_f64(r)"@,
        DataType::String | DataType::StringRef => "::stef::buf::decode_string(r)"@,
        DataType::Bytes | DataType::BytesRef => match opts.bytes_type {
            BytesType::VecU8 => "::stef::buf::decode_bytes_std(r)"@,
            BytesType::Bytes => "::stef::buf::decode_bytes_bytes(r)"@,
        },
        DataType::Vec(b) => "::stef::buf::decode_vec(r, |r| { "@ + decode_expr(opts, b.value, false)
            + " })"@,
        DataType::HashMap(kv) => "::stef::buf::decode_hash_map(r, |r| { "@ + decode_expr(
            opts,
            kv.0.value,
            false,
        ) + " }, |r| { "@ + decode_expr(opts, kv.1.value, false) + " })"@,
        DataType::HashSet(b) => "::stef::buf::decode_hash_set(r, |r| { "@ + decode_expr(
            opts,
            b.value,
            false,
        ) + " })"@,
        DataType::Option(b) => "::stef::buf::decode_option(r, |r| { "@ + decode_expr(
            opts,
            b.value,
            false,
        ) + " })"@,
        DataType::NonZero(b) => non_zero_decode(opts, b.value),
        DataType::BoxString => "Box::<str>::decode(r)"@,
        DataType::BoxBytes => "Box::<[u8]>::decode(r)"@,
        DataType::Tuple(ts) => "{ "@ + (if root {
            "::stef::buf::decode_u64(r)?; "@
        } else {
            Seq::empty()
        }) + "Ok::<_, ::stef::buf::Error>(("@ + tuple_decodes(opts, ts@, ts@.len() as int)
            + ")) }"@,
        DataType::Array(b, _) => "::stef::buf::decode_array(r, |r| { "@ + decode_expr(
            opts,
            b.value,
            false,
        ) + " })"@,
        DataType::External(e) => path_text(e.path@, e.path@.len() as int) + e.name.value@ + (
        if e.generics@.len() == 0 {
            Seq::empty()
        } else {
            "::<"@ + rust_types(opts, e.generics@, e.generics@.len() as int) + ">"@
        }) + "::decode(r)"@,
    }
}

/// The decoding expressions of the first `n` elements of a tuple, each
/// followed by `?,`.
pub open spec fn tuple_decodes(opts: Opts, ts: Seq<Type>, n: int) -> Seq<char>
    decreases ts, n,
{
    if 0 < n <= ts.len() {
        tuple_decodes(opts, ts, n - 1) + decode_expr(opts, ts[n - 1].value, false) + "?,"@
    } else {
        Seq::empty()
    }
}

/// The type that the decoder of a field reads: the inner type of an optional
/// field, the field's type otherwise.
pub open spec fn decoded_type(t: DataType) -> DataType {
    match t {
        DataType::Option(b) => b.value,
        _ => t,
    }
}

/// The variable name of the unnamed field at `idx`.
pub open spec fn unnamed_var(idx: int) -> Seq<char> {
    "n"@ + decimal_text(idx as nat)
}

/// The declaration of the variable that collects a field: optional fields
/// hold their own type, others are wrapped in an `Option`; both start empty.
pub open spec fn var_decl(opts: Opts, var: Seq<char>, t: DataType) -> Seq<char> {
    if t is Option {
        "let mut "@ + var + ": "@ + rust_type(opts, t) + " = None; "@
    } else {
        "let mut "@ + var + ": Option<"@ + rust_type(opts, t) + "> = None; "@
    }
}

/// The match arm that decodes a field when its identifier is read.
pub open spec fn match_arm(opts: Opts, id: u32, var: Seq<char>, t: DataType) -> Seq<char> {
    decimal_text(id as nat) + " => "@ + var + " = Some("@ + decode_expr(opts, decoded_type(t), true)
        + "?), "@
}

pub open spec fn named_vars(opts: Opts, fs: Seq<NamedField>, n: int) -> Seq<char>
    decreases n,
{
    if 0 < n <= fs.len() {
        named_vars(opts, fs, n - 1) + var_decl(opts, fs[n - 1].name.value@, fs[n - 1].ty.value)
    } else {
        Seq::empty()
    }
}

pub open spec fn unnamed_vars(opts: Opts, fs: Seq<UnnamedField>, n: int) -> Seq<char>
    decreases n,
{
    if 0 < n <= fs.len() {
        unnamed_vars(opts, fs, n - 1) + var_decl(opts, unnamed_var(n - 1), fs[n - 1].ty.value)
    } else {
        Seq::empty()
    }
}

/// The variable declarations for the fields.
pub open spec fn field_vars(opts: Opts, fields: Fields) -> Seq<char> {
    match fields {
        Fields::Named(fs) => named_vars(opts, fs@, fs@.len() as int),
        Fields::Unnamed(fs) => unnamed_vars(opts, fs@, fs@.len() as int),
        Fields::Unit => Seq::empty(),
    }
}

pub open spec fn named_arms(opts: Opts, fs: Seq<NamedField>, n: int) -> Seq<char>
    decreases n,
{
    if 0 < n <= fs.len() {
        named_arms(opts, fs, n - 1) + match_arm(
            opts,
            fs[n - 1].id.0,
            fs[n - 1].name.value@,
            fs[n - 1].ty.value,
        )
    } else {
        Seq::empty()
    }
}

pub open spec fn unnamed_arms(opts: Opts, fs: Seq<UnnamedField>, n: int) -> Seq<char>
    decreases n,
{
    if 0 < n <= fs.len() {
        unnamed_arms(opts, fs, n - 1) + match_arm(
            opts,
            fs[n - 1].id.0,
            unnamed_var(n - 1),
            fs[n - 1].ty.value,
        )
    } else {
        Seq::empty()
    }
}

/// The match arms that decode the fields.
pub open spec fn field_matches(opts: Opts, fields: Fields) -> Seq<char> {
    match fields {
        Fields::Named(fs) => named_arms(opts, fs@, fs@.len() as int),
        Fields::Unnamed(fs) => unnamed_arms(opts, fs@, fs@.len() as int),
        Fields::Unit => Seq::empty(),
    }
}

/// The error raised when a required field was never read.
pub open spec fn missing_field(id: u32, name: Seq<char>) -> Seq<char> {
    ".ok_or(::stef::buf::Error::MissingField { id: "@ + decimal_text(id as nat) + ", name: "@ + name
        + ", })?"@
}

/// How a named field's value is taken from its variable.
pub open spec fn named_assign(f: NamedField) -> Seq<char> {
    let name = f.name.value@;
    if f.ty.value is Option {
        name
    } else {
        name + ": "@ + name + missing_field(f.id.0, "Some("@ + seq!['"'] + name + seq!['"'] + ")"@)
    }
}

/// How an unnamed field's value is taken from its variable.
pub open spec fn unnamed_assign(idx: int, f: UnnamedField) -> Seq<char> {
    if f.ty.value is Option {
        unnamed_var(idx)
    } else {
        unnamed_var(idx) + missing_field(f.id.0, "None"@)
    }
}

pub open spec fn named_assigns(fs: Seq<NamedField>, n: int) -> Seq<char>
    decreases n,
{
    if 0 < n <= fs.len() {
        named_assigns(fs, n - 1) + named_assign(fs[n - 1]) + ", "@
    } else {
        Seq::empty()
    }
}

pub open spec fn unnamed_assigns(fs: Seq<UnnamedField>, n: int) -> Seq<char>
    decreases n,
{
    if 0 < n <= fs.len() {
        unnamed_assigns(fs, n - 1) + unnamed_assign(n - 1, fs[n - 1]) + ", "@
    } else {
        Seq::empty()
    }
}

/// The fields of the value under construction.
pub open spec fn field_assigns(fields: Fields) -> Seq<char> {
    match fields {
        Fields::Named(fs) => "{ "@ + named_assigns(fs@, fs@.len() as int) + "}"@,
        Fields::Unnamed(fs) => "("@ + unnamed_assigns(fs@, fs@.len() as int) + ")"@,
        Fields::Unit => Seq::empty(),
    }
}

pub open spec fn generic_params(names: Seq<Name>, n: int) -> Seq<char>
    decreases n,
{
    if 0 < n <= names.len() {
        generic_params(names, n - 1) + names[n - 1].value@ + ","@
    } else {
        Seq::empty()
    }
}

pub open spec fn generic_bounds(names: Seq<Name>, n: int) -> Seq<char>
    decreases n,
{
    if 0 < n <= names.len() {
        generic_bounds(names, n - 1) + names[n - 1].value@
            + ": ::std::fmt::Debug + ::stef::buf::Decode,"@
    } else {
        Seq::empty()
    }
}

/// The type parameters of the implementation and their bounds, both empty
/// without parameters.
pub open spec fn generics_text(g: Generics) -> (Seq<char>, Seq<char>) {
    let names = g.0@;
    if names.len() == 0 {
        (Seq::empty(), Seq::empty())
    } else {
        (
            "<"@ + generic_params(names, names.len() as int) + ">"@,
            "where "@ + generic_bounds(names, names.len() as int),
        )
    }
}

/// The bounds of the type parameters after the implemented type, if any.
pub open spec fn where_clause(w: Seq<char>) -> Seq<char> {
    if w.len() == 0 {
        Seq::empty()
    } else {
        " "@ + w
    }
}

/// The loop that reads fields until the end marker, and the value built from
/// them with the constructor `ctor`.
pub open spec fn decode_body(opts: Opts, ctor: Seq<char>, fields: Fields) -> Seq<char> {
    field_vars(opts, fields)
        + "loop { let id = ::stef::buf::decode_id(r)?; match id.value { ::stef::buf::END_MARKER => break, "@
        + field_matches(opts, fields)
        + "_ => ::stef::buf::decode_skip(r, id.encoding)?, } } Ok("@ + ctor + " "@ + field_assigns(
        fields,
    ) + ")"@
}

/// The implementation of `Decode` for a struct.
pub open spec fn struct_text(opts: Opts, s: Struct) -> Seq<char> {
    let (g, w) = generics_text(s.generics);
    let body = if s.fields is Unit {
        "Ok(Self)"@
    } else {
        decode_body(opts, "Self"@, s.fields)
    };
    "#[automatically_derived] impl"@ + g + " ::stef::Decode for "@ + s.name.value@ + g + where_clause(w)
        + " { #[allow(clippy::type_complexity, clippy::too_many_lines)] fn decode(r: &mut impl ::stef::Buf) -> ::stef::buf::Result<Self> { "@
        + body + " } }"@
}

/// The match arm that decodes an enum variant.
pub open spec fn variant_text(opts: Opts, v: Variant) -> Seq<char> {
    let id = decimal_text(v.id.0 as nat);
    let ctor = "Self::"@ + v.name.value@;
    if v.fields is Unit {
        id + " => Ok("@ + ctor + ")"@
    } else {
        id + " => { "@ + decode_body(opts, ctor, v.fields) + " }"@
    }
}

pub open spec fn variants_text(opts: Opts, vs: Seq<Variant>, n: int) -> Seq<char>
    decreases n,
{
    if 0 < n <= vs.len() {
        variants_text(opts, vs, n - 1) + variant_text(opts, vs[n - 1]) + ", "@
    } else {
        Seq::empty()
    }
}

/// The implementation of `Decode` for an enum.
pub open spec fn enum_text(opts: Opts, e: Enum) -> Seq<char> {
    let (g, w) = generics_text(e.generics);
    "#[automatically_derived] impl"@ + g + " ::stef::Decode for "@ + e.name.value@ + g + where_clause(w)
        + " { #[allow(clippy::too_many_lines)] fn decode(r: &mut impl ::stef::Buf) -> ::stef::buf::Result<Self> { match ::stef::buf::decode_variant_id(r)?.value { "@
        + variants_text(opts, e.variants@, e.variants@.len() as int)
        + "id => Err(::stef::buf::Error::UnknownVariant(id)), } } }"@
}

/// Every one of the first `n` tuple elements has fitting tuples.
pub proof fn lemma_all_tuples_fit(ts: Seq<Type>, n: int, k: int)
    requires
        0 <= k < n <= ts.len(),
        all_tuples_fit(ts, n),
    ensures
        tuples_fit(ts[k].value),
    decreases n,
{
    if k < n - 1 {
        lemma_all_tuples_fit(ts, n - 1, k);
    }
}

/// Appends the expression that decodes a value of type `ty`.
pub fn push_decode_expr(out: &mut String, opts: &Opts, ty: &Type, root: bool)
    requires
        decodable(ty.value),
    ensures
        final(out)@ == old(out)@ + decode_expr(*opts, ty.value, root),
    decreases ty, 2nat,
{
    match &ty.value {
        DataType::Bool => out.append("::stef::buf::decode_bool(r)"),
        DataType::U8 => out.append("::stef::buf::decode_u8(r)"),
        DataType::U16 => out.append("::stef::buf::decode_u16(r)"),
        DataType::U32 => out.append("::stef::buf::decode_u32(r)"),
        DataType::U64 => out.append("::stef::buf::decode_u64(r)"),
        DataType::U128 => out.append("::stef::buf::decode_u128(r)"),
        DataType::I8 => out.append("::stef::buf::decode_i8(r)"),
        DataType::I16 => out.append("::stef::buf::decode_i16(r)"),
        DataType::I32 => out.append("::stef::buf::decode_i32(r)"),
        DataType::I64 => out.append("::stef::buf::decode_i64(r)"),
        DataType::I128 => out.append("::stef::buf::decode_i128(r)"),
        DataType::F32 => out.append("::stef::buf::decode_f32(r)"),
        DataType::F64 => out.append("::stef::buf::decode_f64(r)"),
        DataType::String | DataType::StringRef => out.append("::stef::buf::decode_string(r)"),
        DataType::Bytes | DataType::BytesRef => match opts.bytes_type {
            BytesType::VecU8 => out.append("::stef::buf::decode_bytes_std(r)"),
            BytesType::Bytes => out.append("::stef::buf::decode_bytes_bytes(r)"),
        },
        DataType::Vec(b) => {
            out.append("::stef::buf::decode_vec(r, |r| { ");
            push_decode_expr(out, opts, &**b, false);
            out.append(" })");
        },
        DataType::HashMap(kv) => {
            out.append("::stef::buf::decode_hash_map(r, |r| { ");
            push_decode_expr(out, opts, &kv.0, false);
            out.append(" }, |r| { ");
            push_decode_expr(out, opts, &kv.1, false);
            out.append(" })");
        },
        DataType::HashSet(b) => {
            out.append("::stef::buf::decode_hash_set(r, |r| { ");
            push_decode_expr(out, opts, &**b, false);
            out.append(" })");
        },
        DataType::Option(b) => {
            out.append("::stef::buf::decode_option(r, |r| { ");
            push_decode_expr(out, opts, &**b, false);
            out.append(" })");
        },
        DataType::NonZero(b) => push_non_zero_decode(out, opts, &**b),
        DataType::BoxString => out.append("Box::<str>::decode(r)"),
        DataType::BoxBytes => out.append("Box::<[u8]>::decode(r)"),
        DataType::Tuple(ts) => {
            out.append("{ ");
            if root {
                out.append("::stef::buf::decode_u64(r)?; ");
            }
            out.append("Ok::<_, ::stef::buf::Error>((");
            push_tuple_decodes(out, opts, ts);
            out.append(")) }");
        },
        DataType::Array(b, _) => {
            out.append("::stef::buf::decode_array(r, |r| { ");
            push_decode_expr(out, opts, &**b, false);
            out.append(" })");
        },
        DataType::External(e) => {
            push_path(out, &e.path);
            let name = ident(e.name.get());
            out.append(name.as_str());
            if e.generics.len() != 0 {
                out.append("::<");
                push_rust_types(out, opts, &e.generics);
                out.append(">");
            }
            out.append("::decode(r)");
        },
    }
}

/// Appends the expression that decodes a `non_zero` value.
pub fn push_non_zero_decode(out: &mut String, opts: &Opts, ty: &Type)
    requires
        non_zero_allowed(ty.value),
        decodable(ty.value),
    ensures
        final(out)@ == old(out)@ + non_zero_decode(*opts, ty.value),
    decreases ty, 1nat,
{
    match &ty.value {
        DataType::U8 => out.append("::stef::buf::decode_non_zero_u8(r)"),
        DataType::U16 => out.append("::stef::buf::decode_non_zero_u16(r)"),
        DataType::U32 => out.append("::stef::buf::decode_non_zero_u32(r)"),
        DataType::U64 => out.append("::stef::buf::decode_non_zero_u64(r)"),
        DataType::U128 => out.append("::stef::buf::decode_non_zero_u128(r)"),
        DataType::I8 => out.append("::stef::buf::decode_non_zero_i8(r)"),
        DataType::I16 => out.append("::stef::buf::decode_non_zero_i16(r)"),
        DataType::I32 => out.append("::stef::buf::decode_non_zero_i32(r)"),
        DataType::I64 => out.append("::stef::buf::decode_non_zero_i64(r)"),
        DataType::I128 => out.append("::stef::buf::decode_non_zero_i128(r)"),
        DataType::String | DataType::StringRef => out.append(
            "::stef::buf::decode_non_zero_string(r)",
        ),
        DataType::Bytes | DataType::BytesRef => match opts.bytes_type {
            BytesType::VecU8 => out.append("::stef::buf::decode_non_zero_bytes_std(r)"),
            BytesType::Bytes => out.append("::stef::buf::decode_non_zero_bytes_bytes(r)"),
        },
        DataType::Vec(b) => {
            out.append("::stef::buf::decode_non_zero_vec(r, |r| { ");
            push_decode_expr(out, opts, &**b, false);
            out.append(" })");
        },
        DataType::HashMap(kv) => {
            out.append("::stef::buf::decode_non_zero_hash_map(r, |r| { ");
            push_decode_expr(out, opts, &kv.0, false);
            out.append(" }, |r| { ");
            push_decode_expr(out, opts, &kv.1, false);
            out.append(" })");
        },
        DataType::HashSet(b) => {
            out.append("::stef::buf::decode_non_zero_hash_set(r, |r| { ");
            push_decode_expr(out, opts, &**b, false);
            out.append(" })");
        },
        _ => {},
    }
}

/// Appends the decoding expressions of a tuple's elements, each followed by
/// `?,`.
pub fn push_tuple_decodes(out: &mut String, opts: &Opts, ts: &Vec<Type>)
    requires
        all_nameable(ts@, ts@.len() as int),
        all_tuples_fit(ts@, ts@.len() as int),
    ensures
        final(out)@ == old(out)@ + tuple_decodes(*opts, ts@, ts@.len() as int),
    decreases ts, 0nat,
{
    let mut i: usize = 0;
    while i < ts.len()
        invariant
            i <= ts@.len(),
            all_nameable(ts@, ts@.len() as int),
            all_tuples_fit(ts@, ts@.len() as int),
            out@ == old(out)@ + tuple_decodes(*opts, ts@, i as int),
        decreases ts@.len() - i,
    {
        proof {
            crate::definition::lemma_all_nameable(ts@, ts@.len() as int, i as int);
            lemma_all_tuples_fit(ts@, ts@.len() as int, i as int);
        }
        push_decode_expr(out, opts, &ts[i], false);
        out.append("?,");
        i = i + 1;
    }
}

/// The expression that decodes a value of type `ty` from the buffer `r`;
/// `root` marks a type that stands directly for a field.
pub fn compile_data_type(opts: &Opts, ty: &Type, root: bool) -> (r: String)
    requires
        decodable(ty.value),
    ensures
        r@ == decode_expr(*opts, ty.value, root),
{
    let mut out = String::new();
    push_decode_expr(&mut out, opts, ty, root);
    out
}

/// Named fields whose names are identifiers and whose types can be decoded.
pub open spec fn wf_named(fs: Seq<NamedField>) -> bool {
    forall|i: int|
        0 <= i < fs.len() ==> is_ascii_ident(#[trigger] fs[i].name.value@) && decodable(
            fs[i].ty.value,
        )
}

/// Unnamed fields whose types can be decoded.
pub open spec fn wf_unnamed(fs: Seq<UnnamedField>) -> bool {
    forall|i: int| 0 <= i < fs.len() ==> decodable(#[trigger] fs[i].ty.value)
}

/// Fields whose decoding code can be generated.
pub open spec fn wf_fields(fields: Fields) -> bool {
    match fields {
        Fields::Named(fs) => wf_named(fs@),
        Fields::Unnamed(fs) => wf_unnamed(fs@),
        Fields::Unit => true,
    }
}

/// Type parameters that are identifiers.
pub open spec fn wf_generics(g: Generics) -> bool {
    forall|i: int| 0 <= i < g.0@.len() ==> is_ascii_ident(#[trigger] g.0@[i].value@)
}

/// A struct whose `Decode` implementation can be generated.
pub open spec fn wf_struct(s: Struct) -> bool {
    is_ascii_ident(s.name.value@) && wf_generics(s.generics) && wf_fields(s.fields)
}

/// An enum variant whose decoding code can be generated.
pub open spec fn wf_variant(v: Variant) -> bool {
    is_ascii_ident(v.name.value@) && wf_fields(v.fields)
}

/// An enum whose `Decode` implementation can be generated.
pub open spec fn wf_enum(e: Enum) -> bool {
    &&& is_ascii_ident(e.name.value@)
    &&& wf_generics(e.generics)
    &&& forall|i: int| 0 <= i < e.variants@.len() ==> wf_variant(#[trigger] e.variants@[i])
}

/// The variable name of the unnamed field at `idx`.
pub fn unnamed_var_name(idx: usize) -> (r: String)
    ensures
        r@ == unnamed_var(idx as int),
{
    let mut out = String::new();
    out.append("n");
    push_decimal(&mut out, idx);
    out
}

/// Appends the declaration of the variable that collects a field.
pub fn push_var_decl(out: &mut String, opts: &Opts, var: &str, ty: &Type)
    requires
        nameable(ty.value),
    ensures
        final(out)@ == old(out)@ + var_decl(*opts, var@, ty.value),
{
    out.append("let mut ");
    out.append(var);
    if matches!(ty.value, DataType::Option(_)) {
        out.append(": ");
        push_rust_type(out, opts, ty);
        out.append(" = None; ");
    } else {
        out.append(": Option<");
        push_rust_type(out, opts, ty);
        out.append("> = None; ");
    }
}

/// The declarations of the variables that collect the fields while they are
/// read.
pub fn compile_field_vars(opts: &Opts, fields: &Fields) -> (r: String)
    requires
        wf_fields(*fields),
    ensures
        r@ == field_vars(*opts, *fields),
{
    let mut out = String::new();
    match fields {
        Fields::Named(fs) => {
            let mut i: usize = 0;
            while i < fs.len()
                invariant
                    i <= fs@.len(),
                    wf_named(fs@),
                    out@ == named_vars(*opts, fs@, i as int),
                decreases fs@.len() - i,
            {
                assert(is_ascii_ident(fs@[i as int].name.value@));
                let name = ident(fs[i].name.get());
                push_var_decl(&mut out, opts, name.as_str(), &fs[i].ty);
                i = i + 1;
            }
        },
        Fields::Unnamed(fs) => {
            let mut i: usize = 0;
            while i < fs.len()
                invariant
                    i <= fs@.len(),
                    wf_unnamed(fs@),
                    out@ == unnamed_vars(*opts, fs@, i as int),
                decreases fs@.len() - i,
            {
                assert(decodable(fs@[i as int].ty.value));
                let name = unnamed_var_name(i);
                push_var_decl(&mut out, opts, name.as_str(), &fs[i].ty);
                i = i + 1;
            }
        },
        Fields::Unit => {},
    }
    out
}

/// Appends the match arm that decodes a field.
pub fn push_match_arm(out: &mut String, opts: &Opts, id: u32, var: &str, ty: &Type)
    requires
        decodable(ty.value),
    ensures
        final(out)@ == old(out)@ + match_arm(*opts, id, var@, ty.value),
{
    let id_text = u32_literal(id);
    out.append(id_text.as_str());
    out.append(" => ");
    out.append(var);
    out.append(" = Some(");
    match &ty.value {
        DataType::Option(inner) => push_decode_expr(out, opts, &**inner, true),
        _ => push_decode_expr(out, opts, ty, true),
    }
    out.append("?), ");
}

/// The match arms that decode each field when its identifier is read.
pub fn compile_field_matches(opts: &Opts, fields: &Fields) -> (r: String)
    requires
        wf_fields(*fields),
    ensures
        r@ == field_matches(*opts, *fields),
{
    let mut out = String::new();
    match fields {
        Fields::Named(fs) => {
            let mut i: usize = 0;
            while i < fs.len()
                invariant
                    i <= fs@.len(),
                    wf_named(fs@),
                    out@ == named_arms(*opts, fs@, i as int),
                decreases fs@.len() - i,
            {
                assert(is_ascii_ident(fs@[i as int].name.value@));
                let name = ident(fs[i].name.get());
                push_match_arm(&mut out, opts, fs[i].id.get(), name.as_str(), &fs[i].ty);
                i = i + 1;
            }
        },
        Fields::Unnamed(fs) => {
            let mut i: usize = 0;
            while i < fs.len()
                invariant
                    i <= fs@.len(),
                    wf_unnamed(fs@),
                    out@ == unnamed_arms(*opts, fs@, i as int),
                decreases fs@.len() - i,
            {
                assert(decodable(fs@[i as int].ty.value));
                let name = unnamed_var_name(i);
                push_match_arm(&mut out, opts, fs[i].id.get(), name.as_str(), &fs[i].ty);
                i = i + 1;
            }
        },
        Fields::Unit => {},
    }
    out
}

/// Appends the error for a missing required field.
pub fn push_missing_field(out: &mut String, id: u32, name: &str)
    ensures
        final(out)@ == old(out)@ + missing_field(id, name@),
{
    out.append(".ok_or(::stef::buf::Error::MissingField { id: ");
    let id_text = u32_literal(id);
    out.append(id_text.as_str());
    out.append(", name: ");
    out.append(name);
    out.append(", })?");
}

/// How the fields of the value are taken from their variables; required
/// fields that were never read give a `MissingField` error.
pub fn compile_field_assigns(fields: &Fields) -> (r: String)
    requires
        wf_fields(*fields),
    ensures
        r@ == field_assigns(*fields),
{
    let mut out = String::new();
    match fields {
        Fields::Named(fs) => {
            out.append("{ ");
            let mut i: usize = 0;
            while i < fs.len()
                invariant
                    i <= fs@.len(),
                    wf_named(fs@),
                    out@ == "{ "@ + named_assigns(fs@, i as int),
                decreases fs@.len() - i,
            {
                assert(is_ascii_ident(fs@[i as int].name.value@));
                let name = ident(fs[i].name.get());
                out.append(name.as_str());
                if !matches!(fs[i].ty.value, DataType::Option(_)) {
                    let lit = string_literal(fs[i].name.get());
                    let mut some = String::new();
                    some.append("Some(");
                    some.append(lit.as_str());
                    some.append(")");
                    out.append(": ");
                    out.append(name.as_str());
                    push_missing_field(&mut out, fs[i].id.get(), some.as_str());
                }
                out.append(", ");
                i = i + 1;
            }
            out.append("}");
        },
        Fields::Unnamed(fs) => {
            out.append("(");
            let mut i: usize = 0;
            while i < fs.len()
                invariant
                    i <= fs@.len(),
                    out@ == "("@ + unnamed_assigns(fs@, i as int),
                decreases fs@.len() - i,
            {
                let name = unnamed_var_name(i);
                out.append(name.as_str());
                if !matches!(fs[i].ty.value, DataType::Option(_)) {
                    push_missing_field(&mut out, fs[i].id.get(), "None");
                }
                out.append(", ");
                i = i + 1;
            }
            out.append(")");
        },
        Fields::Unit => {},
    }
    out
}

/// The type parameters of the implementation (`<T,>`) and their bounds
/// (`where T: Debug + Decode,`), both empty for a definition without
/// parameters.
pub fn compile_generics(generics: &Generics) -> (r: (String, String))
    requires
        wf_generics(*generics),
    ensures
        (r.0@, r.1@) == generics_text(*generics),
{
    let names = &generics.0;
    let mut params = String::new();
    let mut bounds = String::new();
    if names.len() == 0 {
        return (params, bounds);
    }
    params.append("<");
    bounds.append("where ");
    let mut i: usize = 0;
    while i < names.len()
        invariant
            i <= names@.len(),
            names == &generics.0,
            wf_generics(*generics),
            params@ == "<"@ + generic_params(names@, i as int),
            bounds@ == "where "@ + generic_bounds(names@, i as int),
        decreases names@.len() - i,
    {
        assert(is_ascii_ident(names@[i as int].value@));
        let name = ident(names[i].get());
        params.append(name.as_str());
        params.append(",");
        bounds.append(name.as_str());
        bounds.append(": ::std::fmt::Debug + ::stef::buf::Decode,");
        i = i + 1;
    }
    params.append(">");
    (params, bounds)
}

/// Appends the loop that reads the fields and the construction of the value.
pub fn push_decode_body(out: &mut String, opts: &Opts, ctor: &str, fields: &Fields)
    requires
        wf_fields(*fields),
    ensures
        final(out)@ == old(out)@ + decode_body(*opts, ctor@, *fields),
{
    let vars = compile_field_vars(opts, fields);
    let matches = compile_field_matches(opts, fields);
    let assigns = compile_field_assigns(fields);
    out.append(vars.as_str());
    out.append(
        "loop { let id = ::stef::buf::decode_id(r)?; match id.value { ::stef::buf::END_MARKER => break, ",
    );
    out.append(matches.as_str());
    out.append("_ => ::stef::buf::decode_skip(r, id.encoding)?, } } Ok(");
    out.append(ctor);
    out.append(" ");
    out.append(assigns.as_str());
    out.append(")");
}

/// The implementation of `stef::Decode` for a struct.
pub fn compile_struct(opts: &Opts, s: &Struct) -> (r: String)
    requires
        wf_struct(*s),
    ensures
        r@ == struct_text(*opts, *s),
{
    let name = ident(s.name.get());
    let (g, w) = compile_generics(&s.generics);
    let mut out = String::new();
    out.append("#[automatically_derived] impl");
    out.append(g.as_str());
    out.append(" ::stef::Decode for ");
    out.append(name.as_str());
    out.append(g.as_str());
    if !w.as_str().is_empty() {
        out.append(" ");
        out.append(w.as_str());
    }
    out.append(
        " { #[allow(clippy::type_complexity, clippy::too_many_lines)] fn decode(r: &mut impl ::stef::Buf) -> ::stef::buf::Result<Self> { ",
    );
    if matches!(s.fields, Fields::Unit) {
        out.append("Ok(Self)");
    } else {
        push_decode_body(&mut out, opts, "Self", &s.fields);
    }
    out.append(" } }");
    out
}

/// The match arm that decodes an enum variant.
pub fn compile_variant(opts: &Opts, v: &Variant) -> (r: String)
    requires
        wf_variant(*v),
    ensures
        r@ == variant_text(*opts, *v),
{
    let id = u32_literal(v.id.get());
    let name = ident(v.name.get());
    let mut ctor = String::new();
    ctor.append("Self::");
    ctor.append(name.as_str());
    let mut out = String::new();
    out.append(id.as_str());
    if matches!(v.fields, Fields::Unit) {
        out.append(" => Ok(");
        out.append(ctor.as_str());
        out.append(")");
    } else {
        out.append(" => { ");
        push_decode_body(&mut out, opts, ctor.as_str(), &v.fields);
        out.append(" }");
    }
    out
}

/// The implementation of `stef::Decode` for an enum: the variant identifier
/// selects the variant; an unknown identifier gives an `UnknownVariant`
/// error.
pub fn compile_enum(opts: &Opts, e: &Enum) -> (r: String)
    requires
        wf_enum(*e),
    ensures
        r@ == enum_text(*opts, *e),
{
    let name = ident(e.name.get());
    let (g, w) = compile_generics(&e.generics);
    let mut out = String::new();
    out.append("#[automatically_derived] impl");
    out.append(g.as_str());
    out.append(" ::stef::Decode for ");
    out.append(name.as_str());
    out.append(g.as_str());
    if !w.as_str().is_empty() {
        out.append(" ");
        out.append(w.as_str());
    }
    out.append(
        " { #[allow(clippy::too_many_lines)] fn decode(r: &mut impl ::stef::Buf) -> ::stef::buf::Result<Self> { match ::stef::buf::decode_variant_id(r)?.value { ",
    );
    let mut i: usize = 0;
    let ghost start = out@;
    while i < e.variants.len()
        invariant
            i <= e.variants@.len(),
            wf_enum(*e),
            out@ == start + variants_text(*opts, e.variants@, i as int),
        decreases e.variants@.len() - i,
    {
        assert(wf_variant(e.variants@[i as int]));
        let v = compile_variant(opts, &e.variants[i]);
        out.append(v.as_str());
        out.append(", ");
        i = i + 1;
    }
    out.append("id => Err(::stef::buf::Error::UnknownVariant(id)), } } }");
    out
}


/// The options only matter for byte sequence types: for a type without them
/// the decoding expression is the same whatever the options.
pub proof fn lemma_decode_expr_opts(o1: Opts, o2: Opts, t: DataType, root: bool)
    requires
        no_bytes(t),
    ensures
        decode_expr(o1, t, root) == decode_expr(o2, t, root),
        non_zero_decode(o1, t) == non_zero_decode(o2, t),
    decreases t, 1nat,
{
    match t {
        DataType::Vec(b) => lemma_decode_expr_opts(o1, o2, b.value, false),
        DataType::HashMap(kv) => {
            lemma_decode_expr_opts(o1, o2, kv.0.value, false);
            lemma_decode_expr_opts(o1, o2, kv.1.value, false);
        },
        DataType::HashSet(b) => lemma_decode_expr_opts(o1, o2, b.value, false),
        DataType::Option(b) => lemma_decode_expr_opts(o1, o2, b.value, false),
        DataType::NonZero(b) => lemma_decode_expr_opts(o1, o2, b.value, false),
        DataType::Array(b, _) => lemma_decode_expr_opts(o1, o2, b.value, false),
        DataType::Tuple(ts) => lemma_tuple_decodes_opts(o1, o2, ts@, ts@.len() as int),
        DataType::External(e) => crate::definition::lemma_rust_types_opts(
            o1,
            o2,
            e.generics@,
            e.generics@.len() as int,
        ),
        _ => {},
    }
}

/// The same for the elements of a tuple.
pub proof fn lemma_tuple_decodes_opts(o1: Opts, o2: Opts, ts: Seq<Type>, n: int)
    requires
        all_no_bytes(ts, n),
    ensures
        tuple_decodes(o1, ts, n) == tuple_decodes(o2, ts, n),
    decreases ts, n,
{
    if 0 < n <= ts.len() {
        lemma_tuple_decodes_opts(o1, o2, ts, n - 1);
        lemma_decode_expr_opts(o1, o2, ts[n - 1].value, false);
    }
}

/// `part` occurs somewhere in `text`.
pub open spec fn occurs_in(part: Seq<char>, text: Seq<char>) -> bool {
    exists|k: int|
        0 <= k && k + part.len() <= text.len() && #[trigger] text.subrange(k, k + part.len())
            == part
}

/// What occurs in a text occurs in any text that starts with it.
pub proof fn lemma_occurs_in_front(part: Seq<char>, a: Seq<char>, b: Seq<char>)
    requires
        occurs_in(part, a),
    ensures
        occurs_in(part, a + b),
{
    let k = choose|k: int|
        0 <= k && k + part.len() <= a.len() && #[trigger] a.subrange(k, k + part.len()) == part;
    assert((a + b).subrange(k, k + part.len()) =~= a.subrange(k, k + part.len()));
}

/// What occurs in a text occurs in any text that ends with it.
pub proof fn lemma_occurs_in_back(part: Seq<char>, a: Seq<char>, b: Seq<char>)
    requires
        occurs_in(part, b),
    ensures
        occurs_in(part, a + b),
{
    let k = choose|k: int|
        0 <= k && k + part.len() <= b.len() && #[trigger] b.subrange(k, k + part.len()) == part;
    assert((a + b).subrange(a.len() + k, a.len() + k + part.len()) =~= b.subrange(
        k,
        k + part.len(),
    ));
}

/// A text occurs in itself.
pub proof fn lemma_occurs_in_self(part: Seq<char>)
    ensures
        occurs_in(part, part),
{
    let k: int = 0;
    assert(part.subrange(k, k + part.len()) =~= part);
}

/// The bound of a type parameter in generated code.
pub open spec fn decode_bound(name: Seq<char>) -> Seq<char> {
    name + ": ::std::fmt::Debug + ::stef::buf::Decode,"@
}

/// The bounds of the first `n` type parameters hold the bound of each of
/// them.
proof fn lemma_generic_bounds_hold(names: Seq<Name>, n: int, k: int)
    requires
        0 <= k < n <= names.len(),
    ensures
        occurs_in(decode_bound(names[k].value@), generic_bounds(names, n)),
    decreases n,
{
    let last = names[n - 1].value@ + ": ::std::fmt::Debug + ::stef::buf::Decode,"@;
    assert(generic_bounds(names, n) == generic_bounds(names, n - 1) + last);
    if k < n - 1 {
        lemma_generic_bounds_hold(names, n - 1, k);
        lemma_occurs_in_front(decode_bound(names[k].value@), generic_bounds(names, n - 1), last);
    } else {
        lemma_occurs_in_self(last);
        lemma_occurs_in_back(decode_bound(names[k].value@), generic_bounds(names, n - 1), last);
    }
}

/// The where clause of a generic implementation holds `where` and the bound
/// of every type parameter.
proof fn lemma_where_clause_bounds(g: Generics, k: int)
    requires
        0 <= k < g.0@.len(),
    ensures
        occurs_in(decode_bound(g.0@[k].value@), where_clause(generics_text(g).1)),
        occurs_in(" where "@, where_clause(generics_text(g).1)),
{
    let names = g.0@;
    let gb = generic_bounds(names, names.len() as int);
    let w = "where "@ + gb;
    assert(generics_text(g).1 == w);
    assert(w.len() > 0) by {
        reveal_strlit("where ");
    }
    assert(where_clause(w) == " "@ + w);
    lemma_generic_bounds_hold(names, names.len() as int, k);
    lemma_occurs_in_back(decode_bound(names[k].value@), "where "@, gb);
    lemma_occurs_in_back(decode_bound(names[k].value@), " "@, w);
    reveal_strlit(" where ");
    reveal_strlit(" ");
    reveal_strlit("where ");
    let at: int = 0;
    assert((" "@ + w).subrange(at, at + " where "@.len()) =~= " where "@);
}

/// The generated implementation of `Decode` for a generic struct bounds every
/// type parameter `T` by `T: ::std::fmt::Debug + ::stef::buf::Decode,` in a
/// `where` clause.
pub proof fn lemma_struct_bounds_every_parameter(opts: Opts, s: Struct, k: int)
    requires
        0 <= k < s.generics.0@.len(),
    ensures
        occurs_in(decode_bound(s.generics.0@[k].value@), struct_text(opts, s)),
        occurs_in(" where "@, struct_text(opts, s)),
{
    let (g, w) = generics_text(s.generics);
    let body = if s.fields is Unit {
        "Ok(Self)"@
    } else {
        decode_body(opts, "Self"@, s.fields)
    };
    let head = "#[automatically_derived] impl"@ + g + " ::stef::Decode for "@ + s.name.value@ + g;
    let open = " { #[allow(clippy::type_complexity, clippy::too_many_lines)] fn decode(r: &mut impl ::stef::Buf) -> ::stef::buf::Result<Self> { "@;
    let tail = " } }"@;
    assert(struct_text(opts, s) == head + where_clause(w) + open + body + tail);
    lemma_where_clause_bounds(s.generics, k);
    let parts = seq![decode_bound(s.generics.0@[k].value@), " where "@];
    assert forall|i: int| 0 <= i < 2 implies occurs_in(#[trigger] parts[i], struct_text(opts, s)) by {
        lemma_occurs_in_back(parts[i], head, where_clause(w));
        lemma_occurs_in_front(parts[i], head + where_clause(w), open);
        lemma_occurs_in_front(parts[i], head + where_clause(w) + open, body);
        lemma_occurs_in_front(parts[i], head + where_clause(w) + open + body, tail);
    }
    assert(occurs_in(parts[0], struct_text(opts, s)));
    assert(occurs_in(parts[1], struct_text(opts, s)));
}

/// The generated implementation of `Decode` for a generic enum bounds every
/// type parameter as that of a struct does: it holds
/// `T: ::std::fmt::Debug + ::stef::buf::Decode,` in a `where` clause for each
/// type parameter `T`.
pub proof fn lemma_enum_bounds_every_parameter(opts: Opts, e: Enum, k: int)
    requires
        0 <= k < e.generics.0@.len(),
    ensures
        occurs_in(decode_bound(e.generics.0@[k].value@), enum_text(opts, e)),
        occurs_in(" where "@, enum_text(opts, e)),
{
    let (g, w) = generics_text(e.generics);
    let head = "#[automatically_derived] impl"@ + g + " ::stef::Decode for "@ + e.name.value@ + g;
    let open = " { #[allow(clippy::too_many_lines)] fn decode(r: &mut impl ::stef::Buf) -> ::stef::buf::Result<Self> { match ::stef::buf::decode_variant_id(r)?.value { "@;
    let arms = variants_text(opts, e.variants@, e.variants@.len() as int);
    let tail = "id => Err(::stef::buf::Error::UnknownVariant(id)), } } }"@;
    assert(enum_text(opts, e) == head + where_clause(w) + open + arms + tail);
    lemma_where_clause_bounds(e.generics, k);
    let parts = seq![decode_bound(e.generics.0@[k].value@), " where "@];
    assert forall|i: int| 0 <= i < 2 implies occurs_in(#[trigger] parts[i], enum_text(opts, e)) by {
        lemma_occurs_in_back(parts[i], head, where_clause(w));
        lemma_occurs_in_front(parts[i], head + where_clause(w), open);
        lemma_occurs_in_front(parts[i], head + where_clause(w) + open, arms);
        lemma_occurs_in_front(parts[i], head + where_clause(w) + open + arms, tail);
    }
    assert(occurs_in(parts[0], enum_text(opts, e)));
    assert(occurs_in(parts[1], enum_text(opts, e)));
}

/// Only a tuple has a root form of its own: for any other type, the
/// expression that decodes a field is the one that decodes an element.  A
/// field whose type (past an `optional`) is a tuple is decoded in its root
/// form: its match arm reads and drops the tuple's encoded length before it
/// decodes the elements.
pub proof fn lemma_field_decoders_read_tuple_length(
    opts: Opts,
    id: u32,
    var: Seq<char>,
    t: DataType,
)
    ensures
        !(t is Tuple) ==> decode_expr(opts, t, true) == decode_expr(opts, t, false),
        decoded_type(t) is Tuple ==> occurs_in(
            "{ ::stef::buf::decode_u64(r)?; Ok::<_, ::stef::buf::Error>(("@,
            match_arm(opts, id, var, t),
        ),
{
    if decoded_type(t) is Tuple {
        let d = decoded_type(t);
        let ts = d->Tuple_0;
        let elems = tuple_decodes(opts, ts@, ts@.len() as int);
        let read = "{ ::stef::buf::decode_u64(r)?; Ok::<_, ::stef::buf::Error>(("@;
        reveal_strlit("{ ::stef::buf::decode_u64(r)?; Ok::<_, ::stef::buf::Error>((");
        reveal_strlit("{ ");
        reveal_strlit("::stef::buf::decode_u64(r)?; ");
        reveal_strlit("Ok::<_, ::stef::buf::Error>((");
        let expr = decode_expr(opts, d, true);
        assert(expr == "{ "@ + "::stef::buf::decode_u64(r)?; "@ + "Ok::<_, ::stef::buf::Error>(("@
            + elems + ")) }"@);
        let at: int = 0;
        assert(expr.subrange(at, at + read.len()) =~= read);
        assert(occurs_in(read, expr));
        let head = decimal_text(id as nat) + " => "@ + var + " = Some("@;
        assert(match_arm(opts, id, var, t) == head + expr + "?), "@);
        lemma_occurs_in_back(read, head, expr);
        lemma_occurs_in_front(read, head + expr, "?), "@);
    }
}

/// `bool` and the number types.
pub open spec fn is_scalar(t: DataType) -> bool {
    match t {
        DataType::Bool | DataType::U8 | DataType::U16 | DataType::U32 | DataType::U64
        | DataType::U128 | DataType::I8 | DataType::I16 | DataType::I32 | DataType::I64
        | DataType::I128 | DataType::F32 | DataType::F64 => true,
        _ => false,
    }
}

/// The integer types.
pub open spec fn is_integer(t: DataType) -> bool {
    match t {
        DataType::U8 | DataType::U16 | DataType::U32 | DataType::U64 | DataType::U128
        | DataType::I8 | DataType::I16 | DataType::I32 | DataType::I64 | DataType::I128 => true,
        _ => false,
    }
}

/// A value of `bool` or of a number type is decoded by the buffer decoder
/// named after the type's Rust name (`f32` by `::stef::buf::decode_f32`), and
/// a `non_zero` integer by the one named `decode_non_zero_` and the same name.
pub proof fn lemma_scalar_decoders(opts: Opts, t: DataType, root: bool)
    ensures
        is_scalar(t) ==> decode_expr(opts, t, root) == "::stef::buf::decode_"@ + rust_type(
            opts,
            t,
        ) + "(r)"@,
        is_integer(t) ==> non_zero_decode(opts, t) == "::stef::buf::decode_non_zero_"@
            + rust_type(opts, t) + "(r)"@,
{
    reveal_strlit("::stef::buf::decode_");
    reveal_strlit("::stef::buf::decode_non_zero_");
    reveal_strlit("(r)");
    match t {
        DataType::Bool => {
            reveal_strlit("bool");
            reveal_strlit("::stef::buf::decode_bool(r)");
        },
        DataType::U8 => {
            reveal_strlit("u8");
            reveal_strlit("::stef::buf::decode_u8(r)");
            reveal_strlit("::stef::buf::decode_non_zero_u8(r)");
        },
        DataType::U16 => {
            reveal_strlit("u16");
            reveal_strlit("::stef::buf::decode_u16(r)");
            reveal_strlit("::stef::buf::decode_non_zero_u16(r)");
        },
        DataType::U32 => {
            reveal_strlit("u32");
            reveal_strlit("::stef::buf::decode_u32(r)");
            reveal_strlit("::stef::buf::decode_non_zero_u32(r)");
        },
        DataType::U64 => {
            reveal_strlit("u64");
            reveal_strlit("::stef::buf::decode_u64(r)");
            reveal_strlit("::stef::buf::decode_non_zero_u64(r)");
        },
        DataType::U128 => {
            reveal_strlit("u128");
            reveal_strlit("::stef::buf::decode_u128(r)");
            reveal_strlit("::stef::buf::decode_non_zero_u128(r)");
        },
        DataType::I8 => {
            reveal_strlit("i8");
            reveal_strlit("::stef::buf::decode_i8(r)");
            reveal_strlit("::stef::buf::decode_non_zero_i8(r)");
        },
        DataType::I16 => {
            reveal_strlit("i16");
            reveal_strlit("::stef::buf::decode_i16(r)");
            reveal_strlit("::stef::buf::decode_non_zero_i16(r)");
        },
        DataType::I32 => {
            reveal_strlit("i32");
            reveal_strlit("::stef::buf::decode_i32(r)");
            reveal_strlit("::stef::buf::decode_non_zero_i32(r)");
        },
        DataType::I64 => {
            reveal_strlit("i64");
            reveal_strlit("::stef::buf::decode_i64(r)");
            reveal_strlit("::stef::buf::decode_non_zero_i64(r)");
        },
        DataType::I128 => {
            reveal_strlit("i128");
            reveal_strlit("::stef::buf::decode_i128(r)");
            reveal_strlit("::stef::buf::decode_non_zero_i128(r)");
        },
        DataType::F32 => {
            reveal_strlit("f32");
            reveal_strlit("::stef::buf::decode_f32(r)");
        },
        DataType::F64 => {
            reveal_strlit("f64");
            reveal_strlit("::stef::buf::decode_f64(r)");
        },
        _ => {},
    }
    if is_scalar(t) {
        assert(decode_expr(opts, t, root) =~= "::stef::buf::decode_"@ + rust_type(opts, t)
            + "(r)"@);
    }
    if is_integer(t) {
        assert(non_zero_decode(opts, t) =~= "::stef::buf::decode_non_zero_"@ + rust_type(opts, t)
            + "(r)"@);
    }
}

} // verus!
