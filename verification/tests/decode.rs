use proc_macro2::TokenStream;
use stef_parser::ast::{
    Comment, DataType, Enum, ExternalType, Fields, Generics, Id, Name, NamedField, Struct, Type,
    UnnamedField, Variant,
};
use stef_parser::decode::{
    compile_data_type, compile_enum, compile_field_assigns, compile_field_matches,
    compile_field_vars, compile_generics, compile_struct, compile_variant,
};
use stef_parser::definition::{self, BytesType, Opts};

const OPTS: Opts = Opts { bytes_type: BytesType::VecU8 };

fn tokens(code: &str) -> String {
    code.parse::<TokenStream>().expect("generated code must be valid tokens").to_string()
}

/// Compares two pieces of code token by token, whatever their spacing.
fn same_code(generated: &str, expected: &str) {
    let compact = |code: &str| tokens(code).split_whitespace().collect::<String>();
    assert_eq!(compact(generated), compact(expected));
}

fn ty(value: DataType) -> Type {
    Type { value, span: 0..0 }
}

fn name(value: &str) -> Name {
    Name { value: value.into(), span: 0..0 }
}

fn named(n: &str, t: DataType, id: u32) -> NamedField {
    NamedField { comment: Comment(vec![]), name: name(n), ty: ty(t), id: Id(id) }
}

fn unnamed(t: DataType, id: u32) -> UnnamedField {
    UnnamedField { ty: ty(t), id: Id(id) }
}

#[test]
fn decode_basic_types() {
    assert_eq!(compile_data_type(&OPTS, &ty(DataType::U32), true), "::stef::buf::decode_u32(r)");
    assert_eq!(
        compile_data_type(&OPTS, &ty(DataType::StringRef), false),
        "::stef::buf::decode_string(r)"
    );
    assert_eq!(compile_data_type(&OPTS, &ty(DataType::BoxBytes), true), "Box::<[u8]>::decode(r)");
    let bytes = Opts { bytes_type: BytesType::Bytes };
    assert_eq!(
        compile_data_type(&bytes, &ty(DataType::Bytes), true),
        "::stef::buf::decode_bytes_bytes(r)"
    );
    assert_eq!(
        compile_data_type(&bytes, &ty(DataType::NonZero(Box::new(ty(DataType::Bytes)))), true),
        "::stef::buf::decode_non_zero_bytes_bytes(r)"
    );
}

#[test]
fn decode_nested_types() {
    same_code(
        &compile_data_type(&OPTS, &ty(DataType::Vec(Box::new(ty(DataType::String)))), true),
        "::stef::buf::decode_vec(r, |r| { ::stef::buf::decode_string(r) })",
    );
    same_code(
        &compile_data_type(
            &OPTS,
            &ty(DataType::HashMap(Box::new((ty(DataType::U8), ty(DataType::Bool))))),
            true,
        ),
        "::stef::buf::decode_hash_map(r, |r| { ::stef::buf::decode_u8(r) }, |r| { ::stef::buf::decode_bool(r) })",
    );
    let pair = DataType::Tuple(vec![ty(DataType::U8), ty(DataType::Bool)]);
    same_code(
        &compile_data_type(&OPTS, &ty(pair), true),
        "{ ::stef::buf::decode_u64(r)?; Ok::<_, ::stef::buf::Error>((::stef::buf::decode_u8(r)?, ::stef::buf::decode_bool(r)?,)) }",
    );
    let pair = DataType::Tuple(vec![ty(DataType::U8), ty(DataType::Bool)]);
    same_code(
        &compile_data_type(&OPTS, &ty(DataType::Option(Box::new(ty(pair)))), true),
        "::stef::buf::decode_option(r, |r| { { Ok::<_, ::stef::buf::Error>((::stef::buf::decode_u8(r)?, ::stef::buf::decode_bool(r)?,)) } })",
    );
    same_code(
        &compile_data_type(&OPTS, &ty(DataType::Array(Box::new(ty(DataType::I16)), 4)), true),
        "::stef::buf::decode_array(r, |r| { ::stef::buf::decode_i16(r) })",
    );
    let ext = DataType::External(ExternalType {
        path: vec![name("sample"), name("gens")],
        name: name("SampleGen"),
        generics: vec![ty(DataType::Vec(Box::new(ty(DataType::U8))))],
    });
    same_code(
        &compile_data_type(&OPTS, &ty(ext), true),
        "sample::gens::SampleGen::<Vec<u8>,>::decode(r)",
    );
    same_code(
        &compile_data_type(
            &OPTS,
            &ty(DataType::NonZero(Box::new(ty(DataType::HashSet(Box::new(ty(DataType::I64))))))),
            true,
        ),
        "::stef::buf::decode_non_zero_hash_set(r, |r| { ::stef::buf::decode_i64(r) })",
    );
}

#[test]
fn definition_types() {
    let t = ty(DataType::HashMap(Box::new((ty(DataType::String), ty(DataType::Array(Box::new(ty(DataType::U8)), 16))))));
    same_code(&definition::compile_data_type(&OPTS, &t), "::std::collections::HashMap<String, [u8; 16]>");
    let t = ty(DataType::NonZero(Box::new(ty(DataType::U128))));
    same_code(&definition::compile_data_type(&OPTS, &t), "::std::num::NonZeroU128");
    let t = ty(DataType::Tuple(vec![ty(DataType::Bytes), ty(DataType::BoxString)]));
    same_code(&definition::compile_data_type(&OPTS, &t), "(Vec<u8>, Box<str>,)");
}

#[test]
fn field_code() {
    let fields = Fields::Named(vec![
        named("a", DataType::U32, 1),
        named("b", DataType::Option(Box::new(ty(DataType::Bool))), 2),
    ]);
    same_code(
        &compile_field_vars(&OPTS, &fields),
        "let mut a: Option<u32> = None; let mut b: Option<bool> = None;",
    );
    same_code(
        &compile_field_matches(&OPTS, &fields),
        "1 => a = Some(::stef::buf::decode_u32(r)?), 2 => b = Some(::stef::buf::decode_bool(r)?),",
    );
    same_code(
        &compile_field_assigns(&fields),
        "{ a: a.ok_or(::stef::buf::Error::MissingField { id: 1, name: Some(\"a\"), })?, b, }",
    );
    let fields = Fields::Unnamed(vec![unnamed(DataType::U32, 1), unnamed(DataType::Option(Box::new(ty(DataType::U8))), 12)]);
    same_code(
        &compile_field_vars(&OPTS, &fields),
        "let mut n0: Option<u32> = None; let mut n1: Option<u8> = None;",
    );
    same_code(
        &compile_field_matches(&OPTS, &fields),
        "1 => n0 = Some(::stef::buf::decode_u32(r)?), 12 => n1 = Some(::stef::buf::decode_u8(r)?),",
    );
    same_code(
        &compile_field_assigns(&fields),
        "(n0.ok_or(::stef::buf::Error::MissingField { id: 1, name: None, })?, n1,)",
    );
    assert_eq!(compile_field_vars(&OPTS, &Fields::Unit), "");
    assert_eq!(compile_field_assigns(&Fields::Unit), "");
}

#[test]
fn generics_code() {
    let (g, w) = compile_generics(&Generics(vec![]));
    assert_eq!((g.as_str(), w.as_str()), ("", ""));
    let (g, w) = compile_generics(&Generics(vec![name("A"), name("B")]));
    same_code(&g, "<A, B,>");
    same_code(&w, "where A: ::std::fmt::Debug + ::stef::buf::Decode, B: ::std::fmt::Debug + ::stef::buf::Decode,");
}

#[test]
fn struct_code() {
    let s = Struct {
        comment: Comment(vec![]),
        name: name("Sample"),
        generics: Generics(vec![]),
        fields: Fields::Named(vec![
            named("a", DataType::U32, 1),
            named("b", DataType::Bool, 2),
        ]),
    };
    same_code(
        &compile_struct(&OPTS, &s),
        "#[automatically_derived]
        impl ::stef::Decode for Sample {
            #[allow(clippy::type_complexity, clippy::too_many_lines)]
            fn decode(r: &mut impl ::stef::Buf) -> ::stef::buf::Result<Self> {
                let mut a: Option<u32> = None;
                let mut b: Option<bool> = None;
                loop {
                    let id = ::stef::buf::decode_id(r)?;
                    match id.value {
                        ::stef::buf::END_MARKER => break,
                        1 => a = Some(::stef::buf::decode_u32(r)?),
                        2 => b = Some(::stef::buf::decode_bool(r)?),
                        _ => ::stef::buf::decode_skip(r, id.encoding)?,
                    }
                }
                Ok(Self {
                    a: a.ok_or(::stef::buf::Error::MissingField { id: 1, name: Some(\"a\"), })?,
                    b: b.ok_or(::stef::buf::Error::MissingField { id: 2, name: Some(\"b\"), })?,
                })
            }
        }",
    );
    let unit = Struct {
        comment: Comment(vec![]),
        name: name("Marker"),
        generics: Generics(vec![name("T")]),
        fields: Fields::Unit,
    };
    same_code(
        &compile_struct(&OPTS, &unit),
        "#[automatically_derived]
        impl<T,> ::stef::Decode for Marker<T,> where T: ::std::fmt::Debug + ::stef::buf::Decode, {
            #[allow(clippy::type_complexity, clippy::too_many_lines)]
            fn decode(r: &mut impl ::stef::Buf) -> ::stef::buf::Result<Self> { Ok(Self) }
        }",
    );
}

#[test]
fn enum_code() {
    let e = Enum {
        comment: Comment(vec![]),
        name: name("Sample2"),
        generics: Generics(vec![]),
        variants: vec![
            Variant { comment: Comment(vec![]), name: name("Unit"), fields: Fields::Unit, id: Id(1) },
            Variant {
                comment: Comment(vec![]),
                name: name("Tuple"),
                fields: Fields::Unnamed(vec![unnamed(DataType::U32, 1)]),
                id: Id(2),
            },
        ],
    };
    same_code(
        &compile_variant(&OPTS, &e.variants[0]),
        "1 => Ok(Self::Unit)",
    );
    same_code(
        &compile_enum(&OPTS, &e),
        "#[automatically_derived]
        impl ::stef::Decode for Sample2 {
            #[allow(clippy::too_many_lines)]
            fn decode(r: &mut impl ::stef::Buf) -> ::stef::buf::Result<Self> {
                match ::stef::buf::decode_variant_id(r)?.value {
                    1 => Ok(Self::Unit),
                    2 => {
                        let mut n0: Option<u32> = None;
                        loop {
                            let id = ::stef::buf::decode_id(r)?;
                            match id.value {
                                ::stef::buf::END_MARKER => break,
                                1 => n0 = Some(::stef::buf::decode_u32(r)?),
                                _ => ::stef::buf::decode_skip(r, id.encoding)?,
                            }
                        }
                        Ok(Self::Tuple(n0.ok_or(::stef::buf::Error::MissingField { id: 1, name: None, })?,))
                    },
                    id => Err(::stef::buf::Error::UnknownVariant(id)),
                }
            }
        }",
    );
}

#[test]
fn many_unnamed_fields() {
    let fields = Fields::Unnamed((0..11).map(|i| unnamed(DataType::U8, i)).collect());
    let vars = compile_field_vars(&OPTS, &fields);
    assert!(vars.ends_with("let mut n9: Option<u8> = None; let mut n10: Option<u8> = None; "));
    let fields = Fields::Unnamed(vec![unnamed(DataType::U8, u32::MAX)]);
    same_code(
        &compile_field_matches(&OPTS, &fields),
        "4294967295 => n0 = Some(::stef::buf::decode_u8(r)?),",
    );
}

#[test]
fn unit_struct_text() {
    let s = Struct {
        comment: Comment(vec![]),
        name: name("Empty"),
        generics: Generics(vec![]),
        fields: Fields::Unit,
    };
    assert_eq!(
        compile_struct(&OPTS, &s),
        "#[automatically_derived] impl ::stef::Decode for Empty { #[allow(clippy::type_complexity, clippy::too_many_lines)] fn decode(r: &mut impl ::stef::Buf) -> ::stef::buf::Result<Self> { Ok(Self) } }"
    );
}

#[test]
fn options_only_matter_for_bytes() {
    let bytes = Opts { bytes_type: BytesType::Bytes };
    let t = ty(DataType::Vec(Box::new(ty(DataType::Tuple(vec![ty(DataType::U8), ty(DataType::String)])))));
    assert_eq!(compile_data_type(&OPTS, &t, true), compile_data_type(&bytes, &t, true));
    let t = ty(DataType::Vec(Box::new(ty(DataType::Bytes))));
    assert_ne!(compile_data_type(&OPTS, &t, true), compile_data_type(&bytes, &t, true));
}
