use stef_parser::ast::{DataType, ExternalType, Name, Type};
use stef_parser::error::{ErrMode, ErrorKind};
use stef_parser::strings::chars_of;
use stef_parser::types::{parse, Cause, ParseError};

fn ty(value: DataType, start: usize, end: usize) -> Type {
    Type { value, span: start..end }
}

fn name(value: &str, start: usize) -> Name {
    Name { value: value.into(), span: start..start + value.len() }
}

fn read(text: &str) -> Result<(Type, usize), ErrMode<ParseError>> {
    let s = chars_of(text);
    parse(&s, 0)
}

#[test]
fn basic_types() {
    assert_eq!(read("u32").unwrap(), (ty(DataType::U32, 0, 3), 3));
    assert_eq!(read("bool;").unwrap(), (ty(DataType::Bool, 0, 4), 4));
    assert_eq!(read("i128").unwrap(), (ty(DataType::I128, 0, 4), 4));
    assert_eq!(read("f64").unwrap(), (ty(DataType::F64, 0, 3), 3));
    assert_eq!(read("&string").unwrap(), (ty(DataType::StringRef, 0, 7), 7));
    assert_eq!(read("bytes").unwrap(), (ty(DataType::Bytes, 0, 5), 5));
    assert_eq!(read("box<bytes>").unwrap(), (ty(DataType::BoxBytes, 0, 10), 10));
    assert_eq!(read("box<string>").unwrap(), (ty(DataType::BoxString, 0, 11), 11));
}

#[test]
fn generic_types() {
    assert_eq!(
        read("vec<string>").unwrap(),
        (ty(DataType::Vec(Box::new(ty(DataType::String, 4, 10))), 0, 11), 11)
    );
    assert_eq!(
        read("hash_map<u8, bool>").unwrap(),
        (
            ty(
                DataType::HashMap(Box::new((ty(DataType::U8, 9, 11), ty(DataType::Bool, 13, 17)))),
                0,
                18
            ),
            18
        )
    );
    assert_eq!(
        read("option< non_zero<u64> >").unwrap(),
        (
            ty(
                DataType::Option(Box::new(ty(
                    DataType::NonZero(Box::new(ty(DataType::U64, 17, 20))),
                    8,
                    21
                ))),
                0,
                23
            ),
            23
        )
    );
    assert_eq!(
        read("hash_set<i8>").unwrap(),
        (ty(DataType::HashSet(Box::new(ty(DataType::I8, 9, 11))), 0, 12), 12)
    );
}

#[test]
fn tuple_and_array_types() {
    assert_eq!(
        read("(u8, i16)").unwrap(),
        (ty(DataType::Tuple(vec![ty(DataType::U8, 1, 3), ty(DataType::I16, 5, 8)]), 0, 9), 9)
    );
    assert_eq!(read("()").unwrap(), (ty(DataType::Tuple(vec![]), 0, 2), 2));
    assert_eq!(
        read("[u16; 4]").unwrap(),
        (ty(DataType::Array(Box::new(ty(DataType::U16, 1, 4)), 4), 0, 8), 8)
    );
}

#[test]
fn external_types() {
    assert_eq!(
        read("Sample").unwrap(),
        (
            ty(
                DataType::External(ExternalType {
                    path: vec![],
                    name: name("Sample", 0),
                    generics: vec![]
                }),
                0,
                6
            ),
            6
        )
    );
    assert_eq!(
        read("a::b2::Gen<u8, T>").unwrap(),
        (
            ty(
                DataType::External(ExternalType {
                    path: vec![name("a", 0), name("b2", 3)],
                    name: name("Gen", 7),
                    generics: vec![
                        ty(DataType::U8, 11, 13),
                        ty(
                            DataType::External(ExternalType {
                                path: vec![],
                                name: name("T", 15),
                                generics: vec![]
                            }),
                            15,
                            16
                        ),
                    ]
                }),
                0,
                17
            ),
            17
        )
    );
    // Type arguments that do not close are left unread.
    assert_eq!(
        read("Gen<u8").unwrap(),
        (
            ty(
                DataType::External(ExternalType {
                    path: vec![],
                    name: name("Gen", 0),
                    generics: vec![]
                }),
                0,
                3
            ),
            3
        )
    );
}

#[test]
fn invalid_types() {
    let err = |p: usize| ErrMode::Backtrack(ParseError { at: p..p, cause: Cause::Parser(ErrorKind::Alt, p) });
    assert_eq!(read("x"), Err(err(0)));
    assert_eq!(read(""), Err(err(0)));
    assert_eq!(read("vec<u8"), Err(err(0)));
    assert_eq!(read("(u8,)"), Err(err(0)));
    assert_eq!(read("[u8; 4294967296]"), Err(err(0)));
    assert_eq!(read("a::"), Err(err(0)));
    let s = chars_of("x: ?");
    assert_eq!(parse(&s, 3), Err(err(3)));
}
