use stef_parser::error::{ErrMode, ErrorKind};
use stef_parser::literals::{
    parse, parse_bytes, parse_false, parse_float, parse_int, parse_string, parse_true, Cause,
    Literal, ParseError,
};
use stef_parser::literals::{parse_fragment, Fragment, IntErrorKind, ParseIntError};
use stef_parser::strings::chars_of;

fn lit(text: &str) -> Result<(Literal, usize), ErrMode<ParseError>> {
    let s = chars_of(text);
    parse(&s, 0)
}

fn failure(at: std::ops::Range<usize>, cause: Cause) -> ParseError {
    ParseError { at, cause }
}

#[test]
fn error_found_reference() {
    let err = ParseError {
        at: (22..29),
        cause: Cause::FoundReference { at: 22 },
    };

    println!("{:?}", err);
    println!("const VALUE: string = &\"test\";");
    let s = chars_of("const VALUE: string = &\"test\";");
    assert_eq!(parse(&s, 22), Err(ErrMode::Cut(err)));
}

#[test]
fn booleans() {
    assert_eq!(lit("true").unwrap(), (Literal::Bool(true), 4));
    assert_eq!(lit("false;").unwrap(), (Literal::Bool(false), 5));
    let s = chars_of("xtrue");
    assert_eq!(parse_true(&s, 1), Ok((true, 5)));
    assert_eq!(parse_false(&s, 1), Err(ErrMode::Backtrack(Cause::Parser(ErrorKind::Tag))));
    assert_eq!(lit("tru"), Err(ErrMode::Backtrack(failure(0..3, Cause::Parser(ErrorKind::Tag)))));
    assert_eq!(lit("fals"), Err(ErrMode::Backtrack(failure(0..4, Cause::Parser(ErrorKind::Tag)))));
}

#[test]
fn integers() {
    assert_eq!(lit("42").unwrap(), (Literal::Int(42), 2));
    assert_eq!(lit("-7;").unwrap(), (Literal::Int(-7), 2));
    assert_eq!(lit("+15").unwrap(), (Literal::Int(15), 3));
    assert_eq!(lit("007").unwrap(), (Literal::Int(7), 3));
    assert_eq!(
        lit("170141183460469231731687303715884105727").unwrap(),
        (Literal::Int(i128::MAX), 39)
    );
    assert_eq!(
        lit("-170141183460469231731687303715884105728").unwrap(),
        (Literal::Int(i128::MIN), 40)
    );
    // "1." is no float, so the integer ends before the dot.
    assert_eq!(lit("1.").unwrap(), (Literal::Int(1), 1));
    assert_eq!(lit("3.x").unwrap(), (Literal::Int(3), 1));
}

#[test]
fn integer_errors() {
    for (text, kind) in [
        ("170141183460469231731687303715884105728", IntErrorKind::PosOverflow),
        ("-170141183460469231731687303715884105729", IntErrorKind::NegOverflow),
        ("999999999999999999999999999999999999999999999999999999", IntErrorKind::PosOverflow),
        ("+999999999999999999999999999999999999999999999999999999;", IntErrorKind::PosOverflow),
    ] {
        let end = text.trim_end_matches(';').len();
        assert_eq!(
            lit(text),
            Err(ErrMode::Cut(failure(
                0..end,
                Cause::ParseInt { at: 0, cause: ParseIntError { kind } }
            )))
        );
    }
    let err = ParseIntError { kind: IntErrorKind::NegOverflow };
    assert_eq!(*err.kind(), IntErrorKind::NegOverflow);
    assert_eq!(lit("-x"), Err(ErrMode::Cut(failure(0..2, Cause::InvalidInt { at: 1 }))));
    let s = chars_of("a = +;");
    assert_eq!(parse_int(&s, 4), Err(ErrMode::Backtrack(Cause::InvalidInt { at: 5 })));
    assert_eq!(parse(&s, 4), Err(ErrMode::Cut(failure(4..5, Cause::InvalidInt { at: 5 }))));
}

#[test]
fn floats() {
    assert_eq!(lit("1.5").unwrap(), (Literal::Float("1.5".into()), 3));
    assert_eq!(lit("-2.25e10;").unwrap(), (Literal::Float("-2.25e10".into()), 8));
    assert_eq!(lit("1.0E-5").unwrap(), (Literal::Float("1.0E-5".into()), 6));
    assert_eq!(lit("+0.5e+3").unwrap(), (Literal::Float("+0.5e+3".into()), 7));
    assert_eq!(lit("1.0e"), Err(ErrMode::Cut(failure(0..4, Cause::Parser(ErrorKind::Slice)))));
    assert_eq!(lit("1.0e-x"), Err(ErrMode::Cut(failure(0..6, Cause::Parser(ErrorKind::Slice)))));
    let s = chars_of("12");
    assert_eq!(parse_float(&s, 0), Err(ErrMode::Backtrack(Cause::Parser(ErrorKind::Token))));
    let s = chars_of("1.x");
    assert_eq!(parse_float(&s, 0), Err(ErrMode::Backtrack(Cause::Parser(ErrorKind::Slice))));
}

#[test]
fn strings() {
    assert_eq!(lit("\"hello\"").unwrap(), (Literal::String("hello".into()), 7));
    assert_eq!(lit("\"\"").unwrap(), (Literal::String(String::new()), 2));
    assert_eq!(
        lit("\"a\\nb\\t\\\"c\\\\\"").unwrap(),
        (Literal::String("a\nb\t\"c\\".into()), 13)
    );
    assert_eq!(
        lit("\"\\r\\b\\f\\/\"").unwrap(),
        (Literal::String("\r\u{08}\u{0c}/".into()), 10)
    );
    assert_eq!(lit("\"x\\u{1F600}y\"").unwrap(), (Literal::String("x\u{1F600}y".into()), 13));
    assert_eq!(lit("\"x\\u{41}\"").unwrap(), (Literal::String("xA".into()), 9));
    assert_eq!(lit("\"a\\\n   b\"").unwrap(), (Literal::String("ab".into()), 9));
    assert_eq!(lit("\"über\"").unwrap(), (Literal::String("über".into()), 6));
}

#[test]
fn string_errors() {
    assert_eq!(lit("\"abc"), Err(ErrMode::Cut(failure(0..4, Cause::Parser(ErrorKind::Token)))));
    // An unknown escape stops the text before the backslash.
    assert_eq!(lit("\"a\\qb\""), Err(ErrMode::Cut(failure(0..6, Cause::Parser(ErrorKind::Verify)))));
    assert_eq!(lit("\"\\u41\""), Err(ErrMode::Cut(failure(0..6, Cause::Parser(ErrorKind::Verify)))));
    assert_eq!(lit("\"\\u{}\""), Err(ErrMode::Cut(failure(0..6, Cause::Parser(ErrorKind::Slice)))));
    assert_eq!(
        lit("\"\\u{1234567}\""),
        Err(ErrMode::Cut(failure(0..13, Cause::Parser(ErrorKind::Verify))))
    );
    // Surrogates are no characters.
    assert_eq!(lit("\"\\u{D800}\""), Err(ErrMode::Cut(failure(0..10, Cause::Parser(ErrorKind::Verify)))));
    let s = chars_of("x");
    assert_eq!(parse_string(&s, 0), Err(ErrMode::Backtrack(Cause::Parser(ErrorKind::Verify))));
}

#[test]
fn byte_lists() {
    assert_eq!(lit("[1, 2, 3]").unwrap(), (Literal::Bytes(vec![1, 2, 3]), 9));
    assert_eq!(lit("[ 255 ,0, ]").unwrap(), (Literal::Bytes(vec![255, 0]), 11));
    assert_eq!(lit("[7]  ;").unwrap(), (Literal::Bytes(vec![7]), 5));
    assert_eq!(lit("[\n1,\n2\n]").unwrap(), (Literal::Bytes(vec![1, 2]), 8));
}

#[test]
fn byte_list_errors() {
    assert_eq!(lit("[]"), Err(ErrMode::Cut(failure(0..2, Cause::Parser(ErrorKind::Slice)))));
    assert_eq!(lit("[256]"), Err(ErrMode::Cut(failure(0..5, Cause::Parser(ErrorKind::Verify)))));
    assert_eq!(lit("[1, 256]"), Err(ErrMode::Cut(failure(0..8, Cause::Parser(ErrorKind::Verify)))));
    assert_eq!(lit("[1 2]"), Err(ErrMode::Cut(failure(0..5, Cause::Parser(ErrorKind::Verify)))));
    assert_eq!(lit("[1,"), Err(ErrMode::Cut(failure(0..3, Cause::Parser(ErrorKind::Token)))));
    let s = chars_of("1");
    assert_eq!(parse_bytes(&s, 0), Err(ErrMode::Backtrack(Cause::Parser(ErrorKind::Verify))));
}

#[test]
fn other_starts() {
    assert_eq!(lit(""), Err(ErrMode::Backtrack(failure(0..0, Cause::Parser(ErrorKind::Token)))));
    assert_eq!(
        lit("&\"test\""),
        Err(ErrMode::Cut(failure(0..7, Cause::FoundReference { at: 0 })))
    );
    assert_eq!(lit("&1;"), Err(ErrMode::Cut(failure(0..2, Cause::FoundReference { at: 0 }))));
    assert_eq!(lit("&x"), Err(ErrMode::Backtrack(failure(0..2, Cause::Parser(ErrorKind::Fail)))));
    assert_eq!(lit("&&1"), Err(ErrMode::Backtrack(failure(0..3, Cause::Parser(ErrorKind::Fail)))));
    assert_eq!(lit("x"), Err(ErrMode::Backtrack(failure(0..1, Cause::Parser(ErrorKind::Fail)))));
    let s = chars_of("ab 12");
    assert_eq!(parse(&s, 3).unwrap(), (Literal::Int(12), 5));
    assert_eq!(parse(&s, 5), Err(ErrMode::Backtrack(failure(5..5, Cause::Parser(ErrorKind::Token)))));
}

#[test]
fn fragment_kinds() {
    let s = chars_of("ab\\n\\ \n x\"");
    assert!(matches!(parse_fragment(&s, 0), Ok((Fragment::Literal(0, 2), 2))));
    assert!(matches!(parse_fragment(&s, 2), Ok((Fragment::EscapedChar('\n'), 4))));
    assert!(matches!(parse_fragment(&s, 4), Ok((Fragment::EscapedWhitespace, 8))));
    assert!(matches!(parse_fragment(&s, 9), Err(ErrMode::Backtrack(_))));
}
