//! The ways in which decoding a value or building a frame can fail.

use vstd::prelude::*;

verus! {

/// Why a byte or text value could not be decoded.
#[derive(Debug, Clone, Copy, PartialEq, Eq, Structural)]
pub enum DecodeError {
    /// The input holds no bytes where at least one is needed.
    Empty,
    /// The input is shorter than the layout asks for.
    TooShort,
    /// A character or a digit outside the expected alphabet.
    InvalidDigit,
    /// The value does not fit the type or range it is decoded into.
    OutOfRange,
}

impl DecodeError {
    /// A short description for display.
    pub fn message(&self) -> (text: String)
        ensures
            text@ == match *self {
                DecodeError::Empty => "empty input"@,
                DecodeError::TooShort => "input too short"@,
                DecodeError::InvalidDigit => "invalid digit"@,
                DecodeError::OutOfRange => "value out of range"@,
            },
    {
        match self {
            DecodeError::Empty => String::from_str("empty input"),
            DecodeError::TooShort => String::from_str("input too short"),
            DecodeError::InvalidDigit => String::from_str("invalid digit"),
            DecodeError::OutOfRange => String::from_str("value out of range"),
        }
    }
}

/// Why a buffer could not be decoded as a frame at all.
#[derive(Debug, Clone, Copy, PartialEq, Eq, Structural)]
pub enum FrameError {
    /// The markers or the declared length do not fit the buffer.
    InvalidFraming,
    /// No schema is known for the protocol that was named.
    SchemaNotFound,
    /// The protocol is known, but its envelope is not decoded here.
    UnsupportedProtocol,
}

/// Why a schema document could not be read or written.
#[derive(Debug, Clone, Copy, PartialEq, Eq, Structural)]
pub enum XmlError {
    /// Reading or writing the underlying bytes failed.
    Io,
    /// The bytes are no valid text in the encoding of the document.
    Encoding,
    /// The markup is malformed.
    Syntax,
    /// An attribute is malformed or given twice.
    Attribute,
    /// A character reference or entity cannot be resolved.
    Escape,
    /// The document gave more events than it has bytes.
    Runaway,
}

/// Why a frame could not be built from the values given.
#[derive(Debug, Clone, Copy, PartialEq, Eq, Structural)]
pub enum BuildError {
    /// The address is not twelve hexadecimal digits.
    InvalidAddress,
    /// The data identifier is not eight hexadecimal digits.
    InvalidIdentifier,
    /// The data is no whole number of hexadecimal digit pairs.
    InvalidData,
    /// The payload does not fit the one-byte length of the frame.
    PayloadTooLong,
    /// The request names an operation or a mode that cannot be built.
    Unsupported,
    /// A count lies outside the range the protocol allows.
    InvalidQuantity,
}

} // verus!
