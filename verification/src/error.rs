//! The runtime's error types.
use vstd::prelude::*;
use vstd::string::*;
use crate::codegen::text;
use crate::codegen::text::to_decimal;

verus! {

/// Why a message could not be decoded.
#[derive(Clone, Copy, Debug, PartialEq, Eq, Structural)]
pub enum DecodeError {
    /// The input ended inside a field, a varint, or a declared length.
    UnexpectedEof,
    /// A varint ran past ten bytes, or its tenth byte overflowed 64 bits.
    VarintTooLong,
    /// A tag carried a wire type that the format does not define.
    InvalidWireType(u32),
    /// A tag carried field number zero, or one past the format's maximum.
    InvalidFieldNumber,
    /// A group ended with another group's field number, or was never opened.
    InvalidEndGroup(u32),
    /// A string field held bytes that are not UTF-8.
    InvalidUtf8,
    /// A message, or a declared length, exceeded the size limit in force.
    MessageTooLarge,
    /// Messages or groups nested deeper than the recursion limit.
    RecursionLimitExceeded,
    /// The decode met more unknown fields than its allowance.
    UnknownFieldLimitExceeded,
    /// The decode materialized more element memory than its budget.
    ElementMemoryLimitExceeded,
}

/// Why a message could not be encoded.
#[derive(Clone, Copy, Debug, PartialEq, Eq, Structural)]
pub enum EncodeError {
    /// The encoded size exceeds the protobuf limit.
    MessageTooLarge,
    /// The encoded size is within the protobuf limit but over the caller's budget.
    ExceedsBudget {
        /// The encoded body length.
        len: u32,
        /// The budget it was held to.
        max_bytes: u32,
    },
}

impl DecodeError {
    /// The error in words.
    pub open spec fn text(self) -> Seq<char> {
        match self {
            DecodeError::UnexpectedEof => "unexpected end of input"@,
            DecodeError::VarintTooLong => "varint is longer than ten bytes or overflows 64 bits"@,
            DecodeError::InvalidWireType(n) => "invalid wire type "@ + text::decimal(n as nat),
            DecodeError::InvalidFieldNumber => "invalid field number"@,
            DecodeError::InvalidEndGroup(n) => "unexpected end of group "@ + text::decimal(
                n as nat,
            ),
            DecodeError::InvalidUtf8 => "string field is not valid UTF-8"@,
            DecodeError::MessageTooLarge => "message exceeds the size limit"@,
            DecodeError::RecursionLimitExceeded => "recursion limit exceeded"@,
            DecodeError::UnknownFieldLimitExceeded => "unknown field limit exceeded"@,
            DecodeError::ElementMemoryLimitExceeded => "element memory limit exceeded"@,
        }
    }

    /// The error in words.
    pub fn message(&self) -> (r: String)
        ensures
            r@ == self.text(),
    {
        match self {
            DecodeError::UnexpectedEof => "unexpected end of input".to_owned(),
            DecodeError::VarintTooLong => {
                "varint is longer than ten bytes or overflows 64 bits".to_owned()
            },
            DecodeError::InvalidWireType(n) => {
                let mut r: String = "invalid wire type ".to_owned();
                r.append(to_decimal(*n as usize).as_str());
                r
            },
            DecodeError::InvalidFieldNumber => "invalid field number".to_owned(),
            DecodeError::InvalidEndGroup(n) => {
                let mut r: String = "unexpected end of group ".to_owned();
                r.append(to_decimal(*n as usize).as_str());
                r
            },
            DecodeError::InvalidUtf8 => "string field is not valid UTF-8".to_owned(),
            DecodeError::MessageTooLarge => "message exceeds the size limit".to_owned(),
            DecodeError::RecursionLimitExceeded => "recursion limit exceeded".to_owned(),
            DecodeError::UnknownFieldLimitExceeded => "unknown field limit exceeded".to_owned(),
            DecodeError::ElementMemoryLimitExceeded => "element memory limit exceeded".to_owned(),
        }
    }
}

} // verus!
