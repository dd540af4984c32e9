//! Why a drawing operation of a document could not be read.

use std::string::FromUtf8Error;
use vstd::prelude::*;

verus! {

/// std's error for bytes that are not UTF-8, carried through as it is.
#[verifier::external_type_specification]
#[verifier::external_body]
pub struct ExFromUtf8Error(FromUtf8Error);

#[derive(Debug)]
pub enum ParseError {
    /// The operator is not one that is understood.
    UnknownOperator(String),
    /// The operator lacks operands.
    MissingOperands,
    /// An operand has the wrong type.
    OperandType,
    /// The document reader failed.
    Lopdf,
    /// Text is not UTF-8.
    Utf8(FromUtf8Error),
}

impl From<FromUtf8Error> for ParseError {
    fn from(e: FromUtf8Error) -> (r: ParseError)
        ensures
            r == ParseError::Utf8(e),
    {
        ParseError::Utf8(e)
    }
}

impl vstd::std_specs::convert::FromSpecImpl<FromUtf8Error> for ParseError {
    open spec fn obeys_from_spec() -> bool {
        true
    }

    open spec fn from_spec(v: FromUtf8Error) -> ParseError {
        ParseError::Utf8(v)
    }
}

pub type Result<T> = core::result::Result<T, ParseError>;

} // verus!
