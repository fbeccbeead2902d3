use stef_parser::ast::{Comment, Const, DataType, Name, Type};
use stef_parser::consts::{parse, Cause, ParseError};
use stef_parser::error::{ErrMode, ErrorKind};
use stef_parser::literals::{self, Literal};
use stef_parser::strings::chars_of;
use stef_parser::types;

fn read(text: &str) -> Result<(Const, usize), ErrMode<ParseError>> {
    let s = chars_of(text);
    parse(&s, 0)
}

#[test]
fn print_const() {
    let err = ParseError {
        at: (0..21),
        cause: Cause::InvalidName { at: 6 },
    };
    println!("{:?}", err);
    println!("const vALUE: u32 = 1;");
    assert_eq!(err.at, 0..21);
}

#[test]
fn parse_const_invalid_name() {
    // The declaration printed above is refused with exactly that error.
    assert_eq!(
        read("const vALUE: u32 = 1;"),
        Err(ErrMode::Cut(ParseError { at: 0..21, cause: Cause::InvalidName { at: 6 } }))
    );
}

#[test]
fn parse_const_value() {
    assert_eq!(
        read("const VALUE: u32 = 1;").unwrap(),
        (
            Const {
                comment: Comment(vec![]),
                name: Name { value: "VALUE".into(), span: 6..11 },
                ty: Type { value: DataType::U32, span: 13..16 },
                value: Literal::Int(1),
            },
            21
        )
    );
    let (c, end) = read("const\tA_1:string=\"x\"; rest").unwrap();
    assert_eq!(end, 21);
    assert_eq!(c.name.get(), "A_1");
    assert_eq!(c.ty.value, DataType::String);
    assert_eq!(c.value, Literal::String("x".into()));
    let (c, _) = read("const B: bytes = [1, 2];").unwrap();
    assert_eq!(c.value, Literal::Bytes(vec![1, 2]));
}

#[test]
fn parse_const_errors() {
    assert_eq!(
        read("cons"),
        Err(ErrMode::Backtrack(ParseError { at: 0..4, cause: Cause::Parser(ErrorKind::Tag, 0) }))
    );
    assert_eq!(
        read("constX: u8 = 1;"),
        Err(ErrMode::Backtrack(ParseError { at: 0..15, cause: Cause::Parser(ErrorKind::Slice, 5) }))
    );
    assert_eq!(
        read("const X u8 = 1; const Y: u8 = 2;"),
        Err(ErrMode::Cut(ParseError { at: 0..15, cause: Cause::Parser(ErrorKind::Verify, 7) }))
    );
    assert_eq!(
        read("const X"),
        Err(ErrMode::Cut(ParseError { at: 0..7, cause: Cause::Parser(ErrorKind::Token, 7) }))
    );
    assert_eq!(
        read("const X: ? = 1;"),
        Err(ErrMode::Cut(ParseError {
            at: 0..15,
            cause: Cause::Type(types::ParseError {
                at: 9..9,
                cause: types::Cause::Parser(ErrorKind::Alt, 9)
            })
        }))
    );
    assert_eq!(
        read("const X: u8 1;"),
        Err(ErrMode::Cut(ParseError { at: 0..14, cause: Cause::Parser(ErrorKind::Verify, 12) }))
    );
    assert_eq!(
        read("const VALUE: string = &\"test\";"),
        Err(ErrMode::Cut(ParseError {
            at: 0..30,
            cause: Cause::Literal(literals::ParseError {
                at: 22..29,
                cause: literals::Cause::FoundReference { at: 22 }
            })
        }))
    );
    assert_eq!(
        read("const X: u8 = 1"),
        Err(ErrMode::Cut(ParseError {
            at: 0..15,
            cause: Cause::UnexpectedChar { at: 15, expected: ';' }
        }))
    );
}
