//! Modbus over TCP and RTU, and a file-system view of a Modbus device.

use vstd::prelude::*;
use vstd::string::StringExecFns;

pub mod adu;
pub mod arguments;
pub mod batching;
pub mod client_trust;
pub mod connection_string;
pub mod device;
pub mod device_description;
pub mod device_identification;
pub mod device_reads;
pub mod files;
pub mod filesystem;
pub mod filesystem_laws;
pub mod fuzz;
pub mod inode;
pub mod layouts;
pub mod numbers;
pub mod operations;
pub mod parsing;
pub mod paths;
pub mod pdu;
pub mod permissions;
pub mod polling;
pub mod register_encoding;
pub mod rtu;
pub mod sessions;
pub mod stores;
pub mod table;
pub mod tcp;
pub mod text;
pub mod tls;
pub mod transaction_consumer;
pub mod values;
pub mod wire;
pub mod write_confirmation;
pub mod writing;

verus! {

/// Why bytes are no frame or message of the expected form.
#[derive(Debug, Clone, Copy, PartialEq, Eq, Structural)]
#[allow(inconsistent_fields)]
pub enum DecodeError {
    TooShort,
    UnexpectedFunctionCode { expected: u8, actual: u8 },
    OddByteCount { byte_count: u8 },
    QuantityByteCountMismatch { quantity: u16, byte_count: u8 },
    NotAnExceptionResponse { function_code: u8 },
    InvalidCoilValue { actual: u16 },
    UnexpectedMeiType { expected: u8, actual: u8 },
    UnexpectedProtocolId { actual: u16 },
    InvalidAduLength { length: u16 },
    CrcMismatch { expected: u16, actual: u16 },
}

/// The text of a variant with one field.
pub open spec fn one_field_text(name: Seq<char>, field: Seq<char>, value: nat) -> Seq<char> {
    name + " { "@ + field + ": "@ + numbers::decimal(value) + " }"@
}

/// The text of a variant with two fields.
pub open spec fn two_fields_text(
    name: Seq<char>,
    first_field: Seq<char>,
    first: nat,
    second_field: Seq<char>,
    second: nat,
) -> Seq<char> {
    name + " { "@ + first_field + ": "@ + numbers::decimal(first) + ", "@ + second_field + ": "@
        + numbers::decimal(second) + " }"@
}

fn one_field(name: &str, field: &str, value: u64) -> (text: String)
    ensures
        text@ == one_field_text(name@, field@, value as nat),
{
    let mut text = String::new();
    text.append(name);
    text.append(" { ");
    text.append(field);
    text.append(": ");
    numbers::push_decimal(&mut text, value);
    text.append(" }");
    assert(text@ =~= one_field_text(name@, field@, value as nat));
    text
}

fn two_fields(
    name: &str,
    first_field: &str,
    first: u64,
    second_field: &str,
    second: u64,
) -> (text: String)
    ensures
        text@ == two_fields_text(name@, first_field@, first as nat, second_field@, second as nat),
{
    let mut text = String::new();
    text.append(name);
    text.append(" { ");
    text.append(first_field);
    text.append(": ");
    numbers::push_decimal(&mut text, first);
    text.append(", ");
    text.append(second_field);
    text.append(": ");
    numbers::push_decimal(&mut text, second);
    text.append(" }");
    assert(text@ =~= two_fields_text(
        name@,
        first_field@,
        first as nat,
        second_field@,
        second as nat,
    ));
    text
}

impl DecodeError {
    /// The error as a text: its name and its fields.
    pub open spec fn text(self) -> Seq<char> {
        match self {
            DecodeError::TooShort => "TooShort"@,
            DecodeError::UnexpectedFunctionCode { expected, actual } => two_fields_text(
                "UnexpectedFunctionCode"@,
                "expected"@,
                expected as nat,
                "actual"@,
                actual as nat,
            ),
            DecodeError::OddByteCount { byte_count } => one_field_text(
                "OddByteCount"@,
                "byte_count"@,
                byte_count as nat,
            ),
            DecodeError::QuantityByteCountMismatch { quantity, byte_count } => two_fields_text(
                "QuantityByteCountMismatch"@,
                "quantity"@,
                quantity as nat,
                "byte_count"@,
                byte_count as nat,
            ),
            DecodeError::NotAnExceptionResponse { function_code } => one_field_text(
                "NotAnExceptionResponse"@,
                "function_code"@,
                function_code as nat,
            ),
            DecodeError::InvalidCoilValue { actual } => one_field_text(
                "InvalidCoilValue"@,
                "actual"@,
                actual as nat,
            ),
            DecodeError::UnexpectedMeiType { expected, actual } => two_fields_text(
                "UnexpectedMeiType"@,
                "expected"@,
                expected as nat,
                "actual"@,
                actual as nat,
            ),
            DecodeError::UnexpectedProtocolId { actual } => one_field_text(
                "UnexpectedProtocolId"@,
                "actual"@,
                actual as nat,
            ),
            DecodeError::InvalidAduLength { length } => one_field_text(
                "InvalidAduLength"@,
                "length"@,
                length as nat,
            ),
            DecodeError::CrcMismatch { expected, actual } => two_fields_text(
                "CrcMismatch"@,
                "expected"@,
                expected as nat,
                "actual"@,
                actual as nat,
            ),
        }
    }

    /// The error as a text: its name and its fields.
    pub fn to_string(self) -> (text: String)
        ensures
            text@ == self.text(),
    {
        match self {
            DecodeError::TooShort => String::from_str("TooShort"),
            DecodeError::UnexpectedFunctionCode { expected, actual } => two_fields(
                "UnexpectedFunctionCode",
                "expected",
                expected as u64,
                "actual",
                actual as u64,
            ),
            DecodeError::OddByteCount { byte_count } => one_field(
                "OddByteCount",
                "byte_count",
                byte_count as u64,
            ),
            DecodeError::QuantityByteCountMismatch { quantity, byte_count } => two_fields(
                "QuantityByteCountMismatch",
                "quantity",
                quantity as u64,
                "byte_count",
                byte_count as u64,
            ),
            DecodeError::NotAnExceptionResponse { function_code } => one_field(
                "NotAnExceptionResponse",
                "function_code",
                function_code as u64,
            ),
            DecodeError::InvalidCoilValue { actual } => one_field(
                "InvalidCoilValue",
                "actual",
                actual as u64,
            ),
            DecodeError::UnexpectedMeiType { expected, actual } => two_fields(
                "UnexpectedMeiType",
                "expected",
                expected as u64,
                "actual",
                actual as u64,
            ),
            DecodeError::UnexpectedProtocolId { actual } => one_field(
                "UnexpectedProtocolId",
                "actual",
                actual as u64,
            ),
            DecodeError::InvalidAduLength { length } => one_field(
                "InvalidAduLength",
                "length",
                length as u64,
            ),
            DecodeError::CrcMismatch { expected, actual } => two_fields(
                "CrcMismatch",
                "expected",
                expected as u64,
                "actual",
                actual as u64,
            ),
        }
    }
}

/// The text of an error holds the number of each of its fields.
pub proof fn law_error_text_holds_its_fields(error: DecodeError)
    ensures
        match error {
            DecodeError::TooShort => true,
            DecodeError::UnexpectedFunctionCode { expected, actual } => text::holds(
                error.text(),
                numbers::decimal(expected as nat),
            ) && text::holds(error.text(), numbers::decimal(actual as nat)),
            DecodeError::OddByteCount { byte_count } => text::holds(
                error.text(),
                numbers::decimal(byte_count as nat),
            ),
            DecodeError::QuantityByteCountMismatch { quantity, byte_count } => text::holds(
                error.text(),
                numbers::decimal(quantity as nat),
            ) && text::holds(error.text(), numbers::decimal(byte_count as nat)),
            DecodeError::NotAnExceptionResponse { function_code } => text::holds(
                error.text(),
                numbers::decimal(function_code as nat),
            ),
            DecodeError::InvalidCoilValue { actual } => text::holds(
                error.text(),
                numbers::decimal(actual as nat),
            ),
            DecodeError::UnexpectedMeiType { expected, actual } => text::holds(
                error.text(),
                numbers::decimal(expected as nat),
            ) && text::holds(error.text(), numbers::decimal(actual as nat)),
            DecodeError::UnexpectedProtocolId { actual } => text::holds(
                error.text(),
                numbers::decimal(actual as nat),
            ),
            DecodeError::InvalidAduLength { length } => text::holds(
                error.text(),
                numbers::decimal(length as nat),
            ),
            DecodeError::CrcMismatch { expected, actual } => text::holds(
                error.text(),
                numbers::decimal(expected as nat),
            ) && text::holds(error.text(), numbers::decimal(actual as nat)),
        },
{
    match error {
        DecodeError::TooShort => {},
        DecodeError::UnexpectedFunctionCode { expected, actual } => lemma_two_fields_held(
            "UnexpectedFunctionCode"@,
            "expected"@,
            expected as nat,
            "actual"@,
            actual as nat,
        ),
        DecodeError::OddByteCount { byte_count } => lemma_one_field_held(
            "OddByteCount"@,
            "byte_count"@,
            byte_count as nat,
        ),
        DecodeError::QuantityByteCountMismatch { quantity, byte_count } => lemma_two_fields_held(
            "QuantityByteCountMismatch"@,
            "quantity"@,
            quantity as nat,
            "byte_count"@,
            byte_count as nat,
        ),
        DecodeError::NotAnExceptionResponse { function_code } => lemma_one_field_held(
            "NotAnExceptionResponse"@,
            "function_code"@,
            function_code as nat,
        ),
        DecodeError::InvalidCoilValue { actual } => lemma_one_field_held(
            "InvalidCoilValue"@,
            "actual"@,
            actual as nat,
        ),
        DecodeError::UnexpectedMeiType { expected, actual } => lemma_two_fields_held(
            "UnexpectedMeiType"@,
            "expected"@,
            expected as nat,
            "actual"@,
            actual as nat,
        ),
        DecodeError::UnexpectedProtocolId { actual } => lemma_one_field_held(
            "UnexpectedProtocolId"@,
            "actual"@,
            actual as nat,
        ),
        DecodeError::InvalidAduLength { length } => lemma_one_field_held(
            "InvalidAduLength"@,
            "length"@,
            length as nat,
        ),
        DecodeError::CrcMismatch { expected, actual } => lemma_two_fields_held(
            "CrcMismatch"@,
            "expected"@,
            expected as nat,
            "actual"@,
            actual as nat,
        ),
    }
}

proof fn lemma_one_field_held(name: Seq<char>, field: Seq<char>, value: nat)
    ensures
        text::holds(one_field_text(name, field, value), numbers::decimal(value)),
{
    text::lemma_holds(name + " { "@ + field + ": "@, numbers::decimal(value), " }"@);
}

proof fn lemma_two_fields_held(
    name: Seq<char>,
    first_field: Seq<char>,
    first: nat,
    second_field: Seq<char>,
    second: nat,
)
    ensures
        text::holds(
            two_fields_text(name, first_field, first, second_field, second),
            numbers::decimal(first),
        ),
        text::holds(
            two_fields_text(name, first_field, first, second_field, second),
            numbers::decimal(second),
        ),
{
    let whole = two_fields_text(name, first_field, first, second_field, second);
    let front = name + " { "@ + first_field + ": "@;
    let back = ", "@ + second_field + ": "@ + numbers::decimal(second) + " }"@;
    text::lemma_holds(front, numbers::decimal(first), back);
    assert(whole =~= front + numbers::decimal(first) + back);
    text::lemma_holds(
        front + numbers::decimal(first) + ", "@ + second_field + ": "@,
        numbers::decimal(second),
        " }"@,
    );
}

} // verus!
