//! Parsing of stef schema fragments (literals, types and constant
//! declarations) and generation of the `Decode` implementations for schema
//! definitions.
use vstd::prelude::*;

pub mod error;
pub mod text;
pub mod strings;
pub mod literals;
pub mod ast;
pub mod tokens;
pub mod definition;
pub mod decode;
pub mod types;
pub mod consts;

verus! {

} // verus!
