//! The parts of a schema that the parsers produce and the code generator
//! reads.
use vstd::prelude::*;
use std::ops::Range;

use crate::literals::Literal;

verus! {

/// A name, with the location it was read from.
#[derive(Debug, PartialEq, Eq)]
pub struct Name {
    pub value: String,
    pub span: Range<usize>,
}

impl Name {
    /// The name's text.
    pub fn get(&self) -> (r: &str)
        ensures
            r@ == self.value@,
    {
        self.value.as_str()
    }
}

/// The lines of a doc comment.
#[derive(Debug, PartialEq, Eq)]
pub struct Comment(pub Vec<String>);

impl Comment {
    /// A comment without lines.
    pub fn new() -> (c: Comment)
        ensures
            c.0@.len() == 0,
    {
        Comment(Vec::new())
    }
}

/// The identifier of a field or a variant in the encoded form.
#[derive(Debug, PartialEq, Eq)]
pub struct Id(pub u32);

impl Id {
    pub fn get(&self) -> (r: u32)
        ensures
            r == self.0,
    {
        self.0
    }
}

/// The type parameters of a generic definition.
#[derive(Debug, PartialEq, Eq)]
pub struct Generics(pub Vec<Name>);

/// A type reference, with its location.
#[derive(Debug, PartialEq, Eq)]
pub struct Type {
    pub value: DataType,
    pub span: Range<usize>,
}

/// A type defined outside of the built-in ones, possibly behind a module path
/// and with type arguments.
#[derive(Debug, PartialEq, Eq)]
pub struct ExternalType {
    pub path: Vec<Name>,
    pub name: Name,
    pub generics: Vec<Type>,
}

/// The types that a schema can use.
#[derive(Debug, PartialEq, Eq)]
pub enum DataType {
    Bool,
    U8,
    U16,
    U32,
    U64,
    U128,
    I8,
    I16,
    I32,
    I64,
    I128,
    F32,
    F64,
    String,
    StringRef,
    Bytes,
    BytesRef,
    Vec(Box<Type>),
    HashMap(Box<(Type, Type)>),
    HashSet(Box<Type>),
    Option(Box<Type>),
    NonZero(Box<Type>),
    BoxString,
    BoxBytes,
    Tuple(Vec<Type>),
    Array(Box<Type>, u32),
    External(ExternalType),
}

/// A field that has a name.
#[derive(Debug, PartialEq, Eq)]
pub struct NamedField {
    pub comment: Comment,
    pub name: Name,
    pub ty: Type,
    pub id: Id,
}

/// A field of a tuple-like definition.
#[derive(Debug, PartialEq, Eq)]
pub struct UnnamedField {
    pub ty: Type,
    pub id: Id,
}

/// The fields of a struct or an enum variant.
#[derive(Debug, PartialEq, Eq)]
pub enum Fields {
    Named(Vec<NamedField>),
    Unnamed(Vec<UnnamedField>),
    Unit,
}

/// A struct definition.
#[derive(Debug, PartialEq, Eq)]
pub struct Struct {
    pub comment: Comment,
    pub name: Name,
    pub generics: Generics,
    pub fields: Fields,
}

/// A variant of an enum definition.
#[derive(Debug, PartialEq, Eq)]
pub struct Variant {
    pub comment: Comment,
    pub name: Name,
    pub fields: Fields,
    pub id: Id,
}

/// An enum definition.
#[derive(Debug, PartialEq, Eq)]
pub struct Enum {
    pub comment: Comment,
    pub name: Name,
    pub generics: Generics,
    pub variants: Vec<Variant>,
}

/// A constant declaration.
#[derive(Debug, PartialEq, Eq)]
pub struct Const {
    pub comment: Comment,
    pub name: Name,
    pub ty: Type,
    pub value: Literal,
}

} // verus!
