//! The messages of Modbus: what each request and response is on the wire, and
//! what is read back from it.

use crate::wire::{
    be_bytes, bytes_words, law_bits_round_trip, law_words_round_trip, octets, packed, push_bits,
    push_bytes, push_u16_be, push_words, read_bits, read_u16_be, read_words, unpacked, word_at,
    words_bytes,
};
use crate::DecodeError;
use vstd::prelude::*;

verus! {

pub const FUNCTION_CODE_READ_COILS: u8 = 0x01;

pub const FUNCTION_CODE_READ_DISCRETE_INPUTS: u8 = 0x02;

pub const FUNCTION_CODE_READ_HOLDING_REGISTERS: u8 = 0x03;

pub const FUNCTION_CODE_READ_INPUT_REGISTERS: u8 = 0x04;

pub const FUNCTION_CODE_WRITE_SINGLE_COIL: u8 = 0x05;

pub const FUNCTION_CODE_WRITE_SINGLE_REGISTER: u8 = 0x06;

pub const FUNCTION_CODE_WRITE_MULTIPLE_COILS: u8 = 0x0F;

pub const FUNCTION_CODE_WRITE_MULTIPLE_REGISTERS: u8 = 0x10;

pub const FUNCTION_CODE_REPORT_SERVER_ID: u8 = 0x11;

pub const FUNCTION_CODE_READ_FILE_RECORD: u8 = 0x14;

pub const FUNCTION_CODE_WRITE_FILE_RECORD: u8 = 0x15;

pub const FUNCTION_CODE_MASK_WRITE_REGISTER: u8 = 0x16;

pub const FUNCTION_CODE_ENCAPSULATED_INTERFACE_TRANSPORT: u8 = 0x2B;

/// The one encapsulated interface there is: reading a device's identification.
pub const MEI_TYPE_READ_DEVICE_IDENTIFICATION: u8 = 0x0E;

pub const READ_DEVICE_ID_BASIC: u8 = 0x01;

pub const READ_DEVICE_ID_REGULAR: u8 = 0x02;

pub const READ_DEVICE_ID_EXTENDED: u8 = 0x03;

pub const READ_DEVICE_ID_INDIVIDUAL: u8 = 0x04;

pub const EXCEPTION_ILLEGAL_FUNCTION: u8 = 0x01;

pub const EXCEPTION_ILLEGAL_DATA_ADDRESS: u8 = 0x02;

pub const EXCEPTION_ILLEGAL_DATA_VALUE: u8 = 0x03;

/// What a coil that is to be switched on is written as.
pub const COIL_VALUE_ON: u16 = 0xFF00;

/// What a coil that is to be switched off is written as.
pub const COIL_VALUE_OFF: u16 = 0x0000;

/// The only type of reference that file records have.
pub const FILE_RECORD_REFERENCE_TYPE: u8 = 0x06;

/// The byte for yes and no where a whole byte says it.
pub open spec fn flag(on: bool) -> u8 {
    if on {
        0xFF
    } else {
        0x00
    }
}

/// The byte for yes and no where a whole byte says it.
fn flag_byte(on: bool) -> (byte: u8)
    ensures
        byte == flag(on),
{
    if on {
        0xFF
    } else {
        0x00
    }
}

/// The error for a message of another function.
pub open spec fn wrong_function(expected: u8, actual: u8) -> DecodeError {
    DecodeError::UnexpectedFunctionCode { expected, actual }
}

/// A message of a function code and two numbers.
pub open spec fn two_field_message(function_code: u8, first: u16, second: u16) -> Seq<u8> {
    seq![function_code] + be_bytes(first) + be_bytes(second)
}

/// The two numbers of a message of the function `function_code`.
pub open spec fn two_fields(bytes: Seq<u8>, function_code: u8) -> Result<(u16, u16), DecodeError> {
    if bytes.len() < 5 {
        Err(DecodeError::TooShort)
    } else if bytes[0] != function_code {
        Err(wrong_function(function_code, bytes[0]))
    } else {
        Ok((word_at(bytes, 1), word_at(bytes, 3)))
    }
}

/// Writes a message of a function code and two numbers.
fn encode_two_fields(function_code: u8, first: u16, second: u16) -> (bytes: Vec<u8>)
    ensures
        bytes@ == two_field_message(function_code, first, second),
{
    let mut buffer: Vec<u8> = Vec::new();
    buffer.push(function_code);
    push_u16_be(&mut buffer, first);
    push_u16_be(&mut buffer, second);
    assert(buffer@ =~= two_field_message(function_code, first, second));
    buffer
}

/// Reads a message of a function code and two numbers.
fn decode_two_fields(bytes: &[u8], function_code: u8) -> (fields: Result<(u16, u16), DecodeError>)
    ensures
        fields == two_fields(bytes@, function_code),
{
    if bytes.len() < 5 {
        return Err(DecodeError::TooShort);
    }
    if bytes[0] != function_code {
        return Err(
            DecodeError::UnexpectedFunctionCode { expected: function_code, actual: bytes[0] },
        );
    }
    Ok((read_u16_be(bytes, 1), read_u16_be(bytes, 3)))
}

/// The two numbers that were written are read back.
proof fn lemma_two_fields(function_code: u8, first: u16, second: u16)
    ensures
        two_fields(two_field_message(function_code, first, second), function_code) == Ok::<
            (u16, u16),
            DecodeError,
        >((first, second)),
{
    let m = two_field_message(function_code, first, second);
    assert(m =~= seq![
        function_code,
        (first / 256) as u8,
        (first % 256) as u8,
        (second / 256) as u8,
        (second % 256) as u8,
    ]);
}

/// What was read from a message of five bytes is written as those bytes.
proof fn lemma_two_fields_written_back(bytes: Seq<u8>, function_code: u8)
    requires
        bytes.len() == 5,
        two_fields(bytes, function_code) is Ok,
    ensures
        ({
            let fields = two_fields(bytes, function_code)->Ok_0;
            two_field_message(function_code, fields.0, fields.1) == bytes
        }),
{
    let fields = two_fields(bytes, function_code)->Ok_0;
    assert(two_field_message(function_code, fields.0, fields.1) =~= bytes);
}

/// Asks for the values of coils.
#[derive(Debug, Clone, Copy, PartialEq, Eq, Structural)]
pub struct ReadCoilsRequest {
    pub starting_address: u16,
    pub quantity: u16,
}

impl ReadCoilsRequest {
    /// The message on the wire.
    pub open spec fn message(self) -> Seq<u8> {
        two_field_message(FUNCTION_CODE_READ_COILS, self.starting_address, self.quantity)
    }

    /// What `bytes` are as such a message.
    pub open spec fn parsed(bytes: Seq<u8>) -> Result<Self, DecodeError> {
        match two_fields(bytes, FUNCTION_CODE_READ_COILS) {
            Ok((starting_address, quantity)) => Ok(ReadCoilsRequest { starting_address, quantity }),
            Err(error) => Err(error),
        }
    }

    /// Writes the message.
    pub fn encode(&self) -> (bytes: Vec<u8>)
        ensures
            bytes@ == self.message(),
    {
        encode_two_fields(FUNCTION_CODE_READ_COILS, self.starting_address, self.quantity)
    }

    /// Reads the message.
    pub fn decode(bytes: &[u8]) -> (decoded: Result<Self, DecodeError>)
        ensures
            decoded == Self::parsed(bytes@),
    {
        match decode_two_fields(bytes, FUNCTION_CODE_READ_COILS) {
            Ok((starting_address, quantity)) => Ok(ReadCoilsRequest { starting_address, quantity }),
            Err(error) => Err(error),
        }
    }

    /// Reading the message that was written gives the same back.
    pub proof fn law_round_trip(self)
        ensures
            Self::parsed(self.message()) == Ok::<Self, DecodeError>(self),
    {
        lemma_two_fields(FUNCTION_CODE_READ_COILS, self.starting_address, self.quantity);
    }

    /// Writing what was read from a message without trailing bytes gives its
    /// bytes back.
    pub proof fn law_written_back(bytes: Seq<u8>)
        requires
            bytes.len() == 5,
            Self::parsed(bytes) is Ok,
        ensures
            Self::parsed(bytes)->Ok_0.message() == bytes,
    {
        lemma_two_fields_written_back(bytes, FUNCTION_CODE_READ_COILS);
    }
}

/// Asks for the values of discrete inputs.
#[derive(Debug, Clone, Copy, PartialEq, Eq, Structural)]
pub struct ReadDiscreteInputsRequest {
    pub starting_address: u16,
    pub quantity: u16,
}

impl ReadDiscreteInputsRequest {
    /// The message on the wire.
    pub open spec fn message(self) -> Seq<u8> {
        two_field_message(FUNCTION_CODE_READ_DISCRETE_INPUTS, self.starting_address, self.quantity)
    }

    /// What `bytes` are as such a message.
    pub open spec fn parsed(bytes: Seq<u8>) -> Result<Self, DecodeError> {
        match two_fields(bytes, FUNCTION_CODE_READ_DISCRETE_INPUTS) {
            Ok((starting_address, quantity)) => Ok(
                ReadDiscreteInputsRequest { starting_address, quantity },
            ),
            Err(error) => Err(error),
        }
    }

    /// Writes the message.
    pub fn encode(&self) -> (bytes: Vec<u8>)
        ensures
            bytes@ == self.message(),
    {
        encode_two_fields(FUNCTION_CODE_READ_DISCRETE_INPUTS, self.starting_address, self.quantity)
    }

    /// Reads the message.
    pub fn decode(bytes: &[u8]) -> (decoded: Result<Self, DecodeError>)
        ensures
            decoded == Self::parsed(bytes@),
    {
        match decode_two_fields(bytes, FUNCTION_CODE_READ_DISCRETE_INPUTS) {
            Ok((starting_address, quantity)) => Ok(
                ReadDiscreteInputsRequest { starting_address, quantity },
            ),
            Err(error) => Err(error),
        }
    }

    /// Reading the message that was written gives the same back.
    pub proof fn law_round_trip(self)
        ensures
            Self::parsed(self.message()) == Ok::<Self, DecodeError>(self),
    {
        lemma_two_fields(FUNCTION_CODE_READ_DISCRETE_INPUTS, self.starting_address, self.quantity);
    }

    /// Writing what was read from a message without trailing bytes gives its
    /// bytes back.
    pub proof fn law_written_back(bytes: Seq<u8>)
        requires
            bytes.len() == 5,
            Self::parsed(bytes) is Ok,
        ensures
            Self::parsed(bytes)->Ok_0.message() == bytes,
    {
        lemma_two_fields_written_back(bytes, FUNCTION_CODE_READ_DISCRETE_INPUTS);
    }
}

/// Asks for the contents of holding registers.
#[derive(Debug, Clone, Copy, PartialEq, Eq, Structural)]
pub struct ReadHoldingRegistersRequest {
    pub starting_address: u16,
    pub quantity: u16,
}

impl ReadHoldingRegistersRequest {
    /// The message on the wire.
    pub open spec fn message(self) -> Seq<u8> {
        two_field_message(
            FUNCTION_CODE_READ_HOLDING_REGISTERS,
            self.starting_address,
            self.quantity,
        )
    }

    /// What `bytes` are as such a message.
    pub open spec fn parsed(bytes: Seq<u8>) -> Result<Self, DecodeError> {
        match two_fields(bytes, FUNCTION_CODE_READ_HOLDING_REGISTERS) {
            Ok((starting_address, quantity)) => Ok(
                ReadHoldingRegistersRequest { starting_address, quantity },
            ),
            Err(error) => Err(error),
        }
    }

    /// Writes the message.
    pub fn encode(&self) -> (bytes: Vec<u8>)
        ensures
            bytes@ == self.message(),
    {
        encode_two_fields(
            FUNCTION_CODE_READ_HOLDING_REGISTERS,
            self.starting_address,
            self.quantity,
        )
    }

    /// Reads the message.
    pub fn decode(bytes: &[u8]) -> (decoded: Result<Self, DecodeError>)
        ensures
            decoded == Self::parsed(bytes@),
    {
        match decode_two_fields(bytes, FUNCTION_CODE_READ_HOLDING_REGISTERS) {
            Ok((starting_address, quantity)) => Ok(
                ReadHoldingRegistersRequest { starting_address, quantity },
            ),
            Err(error) => Err(error),
        }
    }

    /// Reading the message that was written gives the same back.
    pub proof fn law_round_trip(self)
        ensures
            Self::parsed(self.message()) == Ok::<Self, DecodeError>(self),
    {
        lemma_two_fields(
            FUNCTION_CODE_READ_HOLDING_REGISTERS,
            self.starting_address,
            self.quantity,
        );
    }

    /// Writing what was read from a message without trailing bytes gives its
    /// bytes back.
    pub proof fn law_written_back(bytes: Seq<u8>)
        requires
            bytes.len() == 5,
            Self::parsed(bytes) is Ok,
        ensures
            Self::parsed(bytes)->Ok_0.message() == bytes,
    {
        lemma_two_fields_written_back(bytes, FUNCTION_CODE_READ_HOLDING_REGISTERS);
    }
}

/// Asks for the contents of input registers.
#[derive(Debug, Clone, Copy, PartialEq, Eq, Structural)]
pub struct ReadInputRegistersRequest {
    pub starting_address: u16,
    pub quantity: u16,
}

impl ReadInputRegistersRequest {
    /// The message on the wire.
    pub open spec fn message(self) -> Seq<u8> {
        two_field_message(FUNCTION_CODE_READ_INPUT_REGISTERS, self.starting_address, self.quantity)
    }

    /// What `bytes` are as such a message.
    pub open spec fn parsed(bytes: Seq<u8>) -> Result<Self, DecodeError> {
        match two_fields(bytes, FUNCTION_CODE_READ_INPUT_REGISTERS) {
            Ok((starting_address, quantity)) => Ok(
                ReadInputRegistersRequest { starting_address, quantity },
            ),
            Err(error) => Err(error),
        }
    }

    /// Writes the message.
    pub fn encode(&self) -> (bytes: Vec<u8>)
        ensures
            bytes@ == self.message(),
    {
        encode_two_fields(FUNCTION_CODE_READ_INPUT_REGISTERS, self.starting_address, self.quantity)
    }

    /// Reads the message.
    pub fn decode(bytes: &[u8]) -> (decoded: Result<Self, DecodeError>)
        ensures
            decoded == Self::parsed(bytes@),
    {
        match decode_two_fields(bytes, FUNCTION_CODE_READ_INPUT_REGISTERS) {
            Ok((starting_address, quantity)) => Ok(
                ReadInputRegistersRequest { starting_address, quantity },
            ),
            Err(error) => Err(error),
        }
    }

    /// Reading the message that was written gives the same back.
    pub proof fn law_round_trip(self)
        ensures
            Self::parsed(self.message()) == Ok::<Self, DecodeError>(self),
    {
        lemma_two_fields(FUNCTION_CODE_READ_INPUT_REGISTERS, self.starting_address, self.quantity);
    }

    /// Writing what was read from a message without trailing bytes gives its
    /// bytes back.
    pub proof fn law_written_back(bytes: Seq<u8>)
        requires
            bytes.len() == 5,
            Self::parsed(bytes) is Ok,
        ensures
            Self::parsed(bytes)->Ok_0.message() == bytes,
    {
        lemma_two_fields_written_back(bytes, FUNCTION_CODE_READ_INPUT_REGISTERS);
    }
}

/// A response that carries bits: a function code, how many bytes the bits
/// fill, and the bits.
pub open spec fn bits_message(function_code: u8, bits: Seq<bool>) -> Seq<u8> {
    seq![function_code, (octets(bits.len()) % 256) as u8] + packed(bits)
}

/// The bits of such a response: all that its bytes hold.
pub open spec fn bits_parsed(bytes: Seq<u8>, function_code: u8) -> Result<Seq<bool>, DecodeError> {
    if bytes.len() < 2 {
        Err(DecodeError::TooShort)
    } else if bytes[0] != function_code {
        Err(wrong_function(function_code, bytes[0]))
    } else if bytes.len() < 2 + bytes[1] {
        Err(DecodeError::TooShort)
    } else {
        Ok(unpacked(bytes.subrange(2, 2 + bytes[1])))
    }
}

/// How many bytes `count` bits fill.
fn octet_count(count: usize) -> (octet_count: usize)
    ensures
        octet_count == octets(count as nat),
{
    if count % 8 == 0 {
        count / 8
    } else {
        count / 8 + 1
    }
}

/// Writes a response that carries bits.
fn encode_bits(function_code: u8, bits: &[bool]) -> (bytes: Vec<u8>)
    ensures
        bytes@ == bits_message(function_code, bits@),
{
    let mut buffer: Vec<u8> = Vec::new();
    buffer.push(function_code);
    buffer.push((octet_count(bits.len()) % 256) as u8);
    push_bits(&mut buffer, bits);
    assert(buffer@ =~= bits_message(function_code, bits@));
    buffer
}

/// Reads a response that carries bits.
fn decode_bits(bytes: &[u8], function_code: u8) -> (bits: Result<Vec<bool>, DecodeError>)
    ensures
        bits matches Ok(b) ==> bits_parsed(bytes@, function_code) == Ok::<Seq<bool>, DecodeError>(
            b@,
        ),
        bits matches Err(error) ==> bits_parsed(bytes@, function_code) == Err::<
            Seq<bool>,
            DecodeError,
        >(error),
{
    if bytes.len() < 2 {
        return Err(DecodeError::TooShort);
    }
    if bytes[0] != function_code {
        return Err(
            DecodeError::UnexpectedFunctionCode { expected: function_code, actual: bytes[0] },
        );
    }
    let byte_count: usize = bytes[1] as usize;
    if bytes.len() < 2 + byte_count {
        return Err(DecodeError::TooShort);
    }
    Ok(read_bits(vstd::slice::slice_subrange(bytes, 2, 2 + byte_count)))
}

/// The bits that were written are read back, followed by zeros up to a whole
/// byte.
proof fn lemma_bits(function_code: u8, bits: Seq<bool>)
    requires
        bits.len() <= 2040,
    ensures
        bits_parsed(bits_message(function_code, bits), function_code) == Ok::<
            Seq<bool>,
            DecodeError,
        >(unpacked(packed(bits))),
        unpacked(packed(bits)).take(bits.len() as int) == bits,
{
    law_bits_round_trip(bits);
    let m = bits_message(function_code, bits);
    assert(m.subrange(2, 2 + m[1]) =~= packed(bits));
}

/// The values of coils.
#[derive(Debug, Clone, PartialEq, Eq)]
pub struct ReadCoilsResponse {
    pub coil_values: Vec<bool>,
}

impl ReadCoilsResponse {
    /// The message on the wire.
    pub open spec fn message(coil_values: Seq<bool>) -> Seq<u8> {
        bits_message(FUNCTION_CODE_READ_COILS, coil_values)
    }

    /// The values that `bytes` are as such a message: those of all the bits
    /// that it carries, the ones that fill its last byte too.
    pub open spec fn parsed(bytes: Seq<u8>) -> Result<Seq<bool>, DecodeError> {
        bits_parsed(bytes, FUNCTION_CODE_READ_COILS)
    }

    /// Writes the message.
    pub fn encode(&self) -> (bytes: Vec<u8>)
        ensures
            bytes@ == Self::message(self.coil_values@),
    {
        encode_bits(FUNCTION_CODE_READ_COILS, self.coil_values.as_slice())
    }

    /// Reads the message.
    pub fn decode(bytes: &[u8]) -> (decoded: Result<Self, DecodeError>)
        ensures
            decoded matches Ok(response) ==> Self::parsed(bytes@) == Ok::<Seq<bool>, DecodeError>(
                response.coil_values@,
            ),
            decoded matches Err(error) ==> Self::parsed(bytes@) == Err::<Seq<bool>, DecodeError>(
                error,
            ),
    {
        match decode_bits(bytes, FUNCTION_CODE_READ_COILS) {
            Ok(coil_values) => Ok(ReadCoilsResponse { coil_values }),
            Err(error) => Err(error),
        }
    }

    /// The values that were written are the first that are read back. The
    /// message counts its bytes in a byte, which bounds how many there can be.
    pub proof fn law_round_trip(coil_values: Seq<bool>)
        requires
            coil_values.len() <= 2040,
        ensures
            Self::parsed(
                Self::message(coil_values),
            ) matches Ok(all) && all.len() >= coil_values.len()
                && all.take(coil_values.len() as int) == coil_values,
    {
        lemma_bits(FUNCTION_CODE_READ_COILS, coil_values);
        law_bits_round_trip(coil_values);
    }
}

/// The values of discrete inputs.
#[derive(Debug, Clone, PartialEq, Eq)]
pub struct ReadDiscreteInputsResponse {
    pub discrete_input_values: Vec<bool>,
}

impl ReadDiscreteInputsResponse {
    /// The message on the wire.
    pub open spec fn message(discrete_input_values: Seq<bool>) -> Seq<u8> {
        bits_message(FUNCTION_CODE_READ_DISCRETE_INPUTS, discrete_input_values)
    }

    /// The values that `bytes` are as such a message: those of all the bits
    /// that it carries, the ones that fill its last byte too.
    pub open spec fn parsed(bytes: Seq<u8>) -> Result<Seq<bool>, DecodeError> {
        bits_parsed(bytes, FUNCTION_CODE_READ_DISCRETE_INPUTS)
    }

    /// Writes the message.
    pub fn encode(&self) -> (bytes: Vec<u8>)
        ensures
            bytes@ == Self::message(self.discrete_input_values@),
    {
        encode_bits(FUNCTION_CODE_READ_DISCRETE_INPUTS, self.discrete_input_values.as_slice())
    }

    /// Reads the message.
    pub fn decode(bytes: &[u8]) -> (decoded: Result<Self, DecodeError>)
        ensures
            decoded matches Ok(response) ==> Self::parsed(bytes@) == Ok::<Seq<bool>, DecodeError>(
                response.discrete_input_values@,
            ),
            decoded matches Err(error) ==> Self::parsed(bytes@) == Err::<Seq<bool>, DecodeError>(
                error,
            ),
    {
        match decode_bits(bytes, FUNCTION_CODE_READ_DISCRETE_INPUTS) {
            Ok(discrete_input_values) => Ok(ReadDiscreteInputsResponse { discrete_input_values }),
            Err(error) => Err(error),
        }
    }

    /// The values that were written are the first that are read back. The
    /// message counts its bytes in a byte, which bounds how many there can be.
    pub proof fn law_round_trip(discrete_input_values: Seq<bool>)
        requires
            discrete_input_values.len() <= 2040,
        ensures
            Self::parsed(
                Self::message(discrete_input_values),
            ) matches Ok(all) && all.len() >= discrete_input_values.len()
                && all.take(discrete_input_values.len() as int) == discrete_input_values,
    {
        lemma_bits(FUNCTION_CODE_READ_DISCRETE_INPUTS, discrete_input_values);
        law_bits_round_trip(discrete_input_values);
    }
}

/// A response that carries numbers: a function code, how many bytes the
/// numbers fill, and the numbers.
pub open spec fn words_message(function_code: u8, words: Seq<u16>) -> Seq<u8> {
    seq![function_code, ((2 * words.len()) % 256) as u8] + words_bytes(words)
}

/// The numbers of such a response.
pub open spec fn words_parsed(bytes: Seq<u8>, function_code: u8) -> Result<Seq<u16>, DecodeError> {
    if bytes.len() < 2 {
        Err(DecodeError::TooShort)
    } else if bytes[0] != function_code {
        Err(wrong_function(function_code, bytes[0]))
    } else if bytes[1] % 2 != 0 {
        Err(DecodeError::OddByteCount { byte_count: bytes[1] })
    } else if bytes.len() < 2 + bytes[1] {
        Err(DecodeError::TooShort)
    } else {
        Ok(bytes_words(bytes.subrange(2, 2 + bytes[1])))
    }
}

/// How many bytes `count` numbers fill, as far as a byte can count them.
fn word_byte_count(count: usize) -> (byte_count: u8)
    ensures
        byte_count == (2 * count) % 256,
{
    ((count % 128) * 2) as u8
}

/// Writes a response that carries numbers.
fn encode_words(function_code: u8, words: &[u16]) -> (bytes: Vec<u8>)
    ensures
        bytes@ == words_message(function_code, words@),
{
    let mut buffer: Vec<u8> = Vec::new();
    buffer.push(function_code);
    buffer.push(word_byte_count(words.len()));
    push_words(&mut buffer, words);
    assert(buffer@ =~= words_message(function_code, words@));
    buffer
}

/// Reads a response that carries numbers.
fn decode_words(bytes: &[u8], function_code: u8) -> (words: Result<Vec<u16>, DecodeError>)
    ensures
        words matches Ok(w) ==> words_parsed(bytes@, function_code) == Ok::<Seq<u16>, DecodeError>(
            w@,
        ),
        words matches Err(error) ==> words_parsed(bytes@, function_code) == Err::<
            Seq<u16>,
            DecodeError,
        >(error),
{
    if bytes.len() < 2 {
        return Err(DecodeError::TooShort);
    }
    if bytes[0] != function_code {
        return Err(
            DecodeError::UnexpectedFunctionCode { expected: function_code, actual: bytes[0] },
        );
    }
    let byte_count: u8 = bytes[1];
    if byte_count % 2 != 0 {
        return Err(DecodeError::OddByteCount { byte_count });
    }
    let byte_count: usize = byte_count as usize;
    if bytes.len() < 2 + byte_count {
        return Err(DecodeError::TooShort);
    }
    Ok(read_words(vstd::slice::slice_subrange(bytes, 2, 2 + byte_count)))
}

/// The numbers that were written are read back.
proof fn lemma_words(function_code: u8, words: Seq<u16>)
    requires
        words.len() <= 127,
    ensures
        words_parsed(words_message(function_code, words), function_code) == Ok::<
            Seq<u16>,
            DecodeError,
        >(words),
{
    law_words_round_trip(words);
    lemma_counted_body(function_code, words_bytes(words));
}

/// The bytes that a message counts are what follows the count.
proof fn lemma_counted_body(function_code: u8, body: Seq<u8>)
    requires
        body.len() <= 255,
    ensures
        ({
            let m = seq![function_code, (body.len() % 256) as u8] + body;
            &&& m.len() == 2 + body.len()
            &&& m[0] == function_code
            &&& m[1] == body.len()
            &&& m.subrange(2, 2 + m[1]) == body
        }),
{
    let m = seq![function_code, (body.len() % 256) as u8] + body;
    assert(m.subrange(2, 2 + m[1]) =~= body);
}

/// The contents of holding registers.
#[derive(Debug, Clone, PartialEq, Eq)]
pub struct ReadHoldingRegistersResponse {
    pub register_values: Vec<u16>,
}

impl ReadHoldingRegistersResponse {
    /// The message on the wire.
    pub open spec fn message(register_values: Seq<u16>) -> Seq<u8> {
        words_message(FUNCTION_CODE_READ_HOLDING_REGISTERS, register_values)
    }

    /// The contents that `bytes` are as such a message.
    pub open spec fn parsed(bytes: Seq<u8>) -> Result<Seq<u16>, DecodeError> {
        words_parsed(bytes, FUNCTION_CODE_READ_HOLDING_REGISTERS)
    }

    /// Writes the message.
    pub fn encode(&self) -> (bytes: Vec<u8>)
        ensures
            bytes@ == Self::message(self.register_values@),
    {
        encode_words(FUNCTION_CODE_READ_HOLDING_REGISTERS, self.register_values.as_slice())
    }

    /// Reads the message.
    pub fn decode(bytes: &[u8]) -> (decoded: Result<Self, DecodeError>)
        ensures
            decoded matches Ok(response) ==> Self::parsed(bytes@) == Ok::<Seq<u16>, DecodeError>(
                response.register_values@,
            ),
            decoded matches Err(error) ==> Self::parsed(bytes@) == Err::<Seq<u16>, DecodeError>(
                error,
            ),
    {
        match decode_words(bytes, FUNCTION_CODE_READ_HOLDING_REGISTERS) {
            Ok(register_values) => Ok(ReadHoldingRegistersResponse { register_values }),
            Err(error) => Err(error),
        }
    }

    /// Reading the message that was written gives the same contents back. The
    /// message counts its bytes in a byte, which bounds how many there can be.
    pub proof fn law_round_trip(register_values: Seq<u16>)
        requires
            register_values.len() <= 127,
        ensures
            Self::parsed(
                Self::message(register_values),
            ) == Ok::<Seq<u16>, DecodeError>(register_values),
    {
        lemma_words(FUNCTION_CODE_READ_HOLDING_REGISTERS, register_values);
    }
}

/// The contents of input registers.
#[derive(Debug, Clone, PartialEq, Eq)]
pub struct ReadInputRegistersResponse {
    pub register_values: Vec<u16>,
}

impl ReadInputRegistersResponse {
    /// The message on the wire.
    pub open spec fn message(register_values: Seq<u16>) -> Seq<u8> {
        words_message(FUNCTION_CODE_READ_INPUT_REGISTERS, register_values)
    }

    /// The contents that `bytes` are as such a message.
    pub open spec fn parsed(bytes: Seq<u8>) -> Result<Seq<u16>, DecodeError> {
        words_parsed(bytes, FUNCTION_CODE_READ_INPUT_REGISTERS)
    }

    /// Writes the message.
    pub fn encode(&self) -> (bytes: Vec<u8>)
        ensures
            bytes@ == Self::message(self.register_values@),
    {
        encode_words(FUNCTION_CODE_READ_INPUT_REGISTERS, self.register_values.as_slice())
    }

    /// Reads the message.
    pub fn decode(bytes: &[u8]) -> (decoded: Result<Self, DecodeError>)
        ensures
            decoded matches Ok(response) ==> Self::parsed(bytes@) == Ok::<Seq<u16>, DecodeError>(
                response.register_values@,
            ),
            decoded matches Err(error) ==> Self::parsed(bytes@) == Err::<Seq<u16>, DecodeError>(
                error,
            ),
    {
        match decode_words(bytes, FUNCTION_CODE_READ_INPUT_REGISTERS) {
            Ok(register_values) => Ok(ReadInputRegistersResponse { register_values }),
            Err(error) => Err(error),
        }
    }

    /// Reading the message that was written gives the same contents back. The
    /// message counts its bytes in a byte, which bounds how many there can be.
    pub proof fn law_round_trip(register_values: Seq<u16>)
        requires
            register_values.len() <= 127,
        ensures
            Self::parsed(
                Self::message(register_values),
            ) == Ok::<Seq<u16>, DecodeError>(register_values),
    {
        lemma_words(FUNCTION_CODE_READ_INPUT_REGISTERS, register_values);
    }
}

/// The number that a coil's value is written as.
pub open spec fn coil_word(on: bool) -> u16 {
    if on {
        COIL_VALUE_ON
    } else {
        COIL_VALUE_OFF
    }
}

/// The address and the value of a message that writes one coil.
pub open spec fn single_coil(bytes: Seq<u8>) -> Result<(u16, bool), DecodeError> {
    match two_fields(bytes, FUNCTION_CODE_WRITE_SINGLE_COIL) {
        Ok((address, value)) => if value == COIL_VALUE_ON {
            Ok((address, true))
        } else if value == COIL_VALUE_OFF {
            Ok((address, false))
        } else {
            Err(DecodeError::InvalidCoilValue { actual: value })
        },
        Err(error) => Err(error),
    }
}

/// Writes a message that writes one coil.
fn encode_write_single_coil(coil_address: u16, coil_value: bool) -> (bytes: Vec<u8>)
    ensures
        bytes@ == two_field_message(
            FUNCTION_CODE_WRITE_SINGLE_COIL,
            coil_address,
            coil_word(coil_value),
        ),
{
    let wire_value: u16 = if coil_value {
        COIL_VALUE_ON
    } else {
        COIL_VALUE_OFF
    };
    encode_two_fields(FUNCTION_CODE_WRITE_SINGLE_COIL, coil_address, wire_value)
}

/// Reads a message that writes one coil.
fn decode_write_single_coil(bytes: &[u8]) -> (decoded: Result<(u16, bool), DecodeError>)
    ensures
        decoded == single_coil(bytes@),
{
    match decode_two_fields(bytes, FUNCTION_CODE_WRITE_SINGLE_COIL) {
        Ok((coil_address, wire_value)) => {
            if wire_value == COIL_VALUE_ON {
                Ok((coil_address, true))
            } else if wire_value == COIL_VALUE_OFF {
                Ok((coil_address, false))
            } else {
                Err(DecodeError::InvalidCoilValue { actual: wire_value })
            }
        },
        Err(error) => Err(error),
    }
}

/// Asks to switch one coil.
#[derive(Debug, Clone, Copy, PartialEq, Eq, Structural)]
pub struct WriteSingleCoilRequest {
    pub coil_address: u16,
    pub coil_value: bool,
}

impl WriteSingleCoilRequest {
    /// The message on the wire.
    pub open spec fn message(self) -> Seq<u8> {
        two_field_message(
            FUNCTION_CODE_WRITE_SINGLE_COIL,
            self.coil_address,
            coil_word(self.coil_value),
        )
    }

    /// What `bytes` are as such a message.
    pub open spec fn parsed(bytes: Seq<u8>) -> Result<Self, DecodeError> {
        match single_coil(bytes) {
            Ok((coil_address, coil_value)) => Ok(
                WriteSingleCoilRequest { coil_address, coil_value },
            ),
            Err(error) => Err(error),
        }
    }

    /// Writes the message.
    pub fn encode(&self) -> (bytes: Vec<u8>)
        ensures
            bytes@ == self.message(),
    {
        encode_write_single_coil(self.coil_address, self.coil_value)
    }

    /// Reads the message.
    pub fn decode(bytes: &[u8]) -> (decoded: Result<Self, DecodeError>)
        ensures
            decoded == Self::parsed(bytes@),
    {
        match decode_write_single_coil(bytes) {
            Ok((coil_address, coil_value)) => Ok(
                WriteSingleCoilRequest { coil_address, coil_value },
            ),
            Err(error) => Err(error),
        }
    }

    /// Reading the message that was written gives the same back.
    pub proof fn law_round_trip(self)
        ensures
            Self::parsed(self.message()) == Ok::<Self, DecodeError>(self),
    {
        lemma_two_fields(
            FUNCTION_CODE_WRITE_SINGLE_COIL,
            self.coil_address,
            coil_word(self.coil_value),
        );
    }

    /// Writing what was read from a message without trailing bytes gives its
    /// bytes back.
    pub proof fn law_written_back(bytes: Seq<u8>)
        requires
            bytes.len() == 5,
            Self::parsed(bytes) is Ok,
        ensures
            Self::parsed(bytes)->Ok_0.message() == bytes,
    {
        lemma_two_fields_written_back(bytes, FUNCTION_CODE_WRITE_SINGLE_COIL);
    }
}

/// Confirms that one coil was switched.
#[derive(Debug, Clone, Copy, PartialEq, Eq, Structural)]
pub struct WriteSingleCoilResponse {
    pub coil_address: u16,
    pub coil_value: bool,
}

impl WriteSingleCoilResponse {
    /// The message on the wire.
    pub open spec fn message(self) -> Seq<u8> {
        two_field_message(
            FUNCTION_CODE_WRITE_SINGLE_COIL,
            self.coil_address,
            coil_word(self.coil_value),
        )
    }

    /// What `bytes` are as such a message.
    pub open spec fn parsed(bytes: Seq<u8>) -> Result<Self, DecodeError> {
        match single_coil(bytes) {
            Ok((coil_address, coil_value)) => Ok(
                WriteSingleCoilResponse { coil_address, coil_value },
            ),
            Err(error) => Err(error),
        }
    }

    /// Writes the message.
    pub fn encode(&self) -> (bytes: Vec<u8>)
        ensures
            bytes@ == self.message(),
    {
        encode_write_single_coil(self.coil_address, self.coil_value)
    }

    /// Reads the message.
    pub fn decode(bytes: &[u8]) -> (decoded: Result<Self, DecodeError>)
        ensures
            decoded == Self::parsed(bytes@),
    {
        match decode_write_single_coil(bytes) {
            Ok((coil_address, coil_value)) => Ok(
                WriteSingleCoilResponse { coil_address, coil_value },
            ),
            Err(error) => Err(error),
        }
    }

    /// Reading the message that was written gives the same back.
    pub proof fn law_round_trip(self)
        ensures
            Self::parsed(self.message()) == Ok::<Self, DecodeError>(self),
    {
        lemma_two_fields(
            FUNCTION_CODE_WRITE_SINGLE_COIL,
            self.coil_address,
            coil_word(self.coil_value),
        );
    }

    /// Writing what was read from a message without trailing bytes gives its
    /// bytes back.
    pub proof fn law_written_back(bytes: Seq<u8>)
        requires
            bytes.len() == 5,
            Self::parsed(bytes) is Ok,
        ensures
            Self::parsed(bytes)->Ok_0.message() == bytes,
    {
        lemma_two_fields_written_back(bytes, FUNCTION_CODE_WRITE_SINGLE_COIL);
    }
}

/// Writes a message that writes one register.
fn encode_write_single_register(register_address: u16, register_value: u16) -> (bytes: Vec<u8>)
    ensures
        bytes@ == two_field_message(
            FUNCTION_CODE_WRITE_SINGLE_REGISTER,
            register_address,
            register_value,
        ),
{
    encode_two_fields(FUNCTION_CODE_WRITE_SINGLE_REGISTER, register_address, register_value)
}

/// Reads a message that writes one register.
fn decode_write_single_register(bytes: &[u8]) -> (decoded: Result<(u16, u16), DecodeError>)
    ensures
        decoded == two_fields(bytes@, FUNCTION_CODE_WRITE_SINGLE_REGISTER),
{
    decode_two_fields(bytes, FUNCTION_CODE_WRITE_SINGLE_REGISTER)
}

/// Asks to write one register.
#[derive(Debug, Clone, Copy, PartialEq, Eq, Structural)]
pub struct WriteSingleRegisterRequest {
    pub register_address: u16,
    pub register_value: u16,
}

impl WriteSingleRegisterRequest {
    /// The message on the wire.
    pub open spec fn message(self) -> Seq<u8> {
        two_field_message(
            FUNCTION_CODE_WRITE_SINGLE_REGISTER,
            self.register_address,
            self.register_value,
        )
    }

    /// What `bytes` are as such a message.
    pub open spec fn parsed(bytes: Seq<u8>) -> Result<Self, DecodeError> {
        match two_fields(bytes, FUNCTION_CODE_WRITE_SINGLE_REGISTER) {
            Ok((register_address, register_value)) => Ok(
                WriteSingleRegisterRequest { register_address, register_value },
            ),
            Err(error) => Err(error),
        }
    }

    /// Writes the message.
    pub fn encode(&self) -> (bytes: Vec<u8>)
        ensures
            bytes@ == self.message(),
    {
        encode_write_single_register(self.register_address, self.register_value)
    }

    /// Reads the message.
    pub fn decode(bytes: &[u8]) -> (decoded: Result<Self, DecodeError>)
        ensures
            decoded == Self::parsed(bytes@),
    {
        match decode_write_single_register(bytes) {
            Ok((register_address, register_value)) => Ok(
                WriteSingleRegisterRequest { register_address, register_value },
            ),
            Err(error) => Err(error),
        }
    }

    /// Reading the message that was written gives the same back.
    pub proof fn law_round_trip(self)
        ensures
            Self::parsed(self.message()) == Ok::<Self, DecodeError>(self),
    {
        lemma_two_fields(
            FUNCTION_CODE_WRITE_SINGLE_REGISTER,
            self.register_address,
            self.register_value,
        );
    }

    /// Writing what was read from a message without trailing bytes gives its
    /// bytes back.
    pub proof fn law_written_back(bytes: Seq<u8>)
        requires
            bytes.len() == 5,
            Self::parsed(bytes) is Ok,
        ensures
            Self::parsed(bytes)->Ok_0.message() == bytes,
    {
        lemma_two_fields_written_back(bytes, FUNCTION_CODE_WRITE_SINGLE_REGISTER);
    }
}

/// Confirms that one register was written.
#[derive(Debug, Clone, Copy, PartialEq, Eq, Structural)]
pub struct WriteSingleRegisterResponse {
    pub register_address: u16,
    pub register_value: u16,
}

impl WriteSingleRegisterResponse {
    /// The message on the wire.
    pub open spec fn message(self) -> Seq<u8> {
        two_field_message(
            FUNCTION_CODE_WRITE_SINGLE_REGISTER,
            self.register_address,
            self.register_value,
        )
    }

    /// What `bytes` are as such a message.
    pub open spec fn parsed(bytes: Seq<u8>) -> Result<Self, DecodeError> {
        match two_fields(bytes, FUNCTION_CODE_WRITE_SINGLE_REGISTER) {
            Ok((register_address, register_value)) => Ok(
                WriteSingleRegisterResponse { register_address, register_value },
            ),
            Err(error) => Err(error),
        }
    }

    /// Writes the message.
    pub fn encode(&self) -> (bytes: Vec<u8>)
        ensures
            bytes@ == self.message(),
    {
        encode_write_single_register(self.register_address, self.register_value)
    }

    /// Reads the message.
    pub fn decode(bytes: &[u8]) -> (decoded: Result<Self, DecodeError>)
        ensures
            decoded == Self::parsed(bytes@),
    {
        match decode_write_single_register(bytes) {
            Ok((register_address, register_value)) => Ok(
                WriteSingleRegisterResponse { register_address, register_value },
            ),
            Err(error) => Err(error),
        }
    }

    /// Reading the message that was written gives the same back.
    pub proof fn law_round_trip(self)
        ensures
            Self::parsed(self.message()) == Ok::<Self, DecodeError>(self),
    {
        lemma_two_fields(
            FUNCTION_CODE_WRITE_SINGLE_REGISTER,
            self.register_address,
            self.register_value,
        );
    }

    /// Writing what was read from a message without trailing bytes gives its
    /// bytes back.
    pub proof fn law_written_back(bytes: Seq<u8>)
        requires
            bytes.len() == 5,
            Self::parsed(bytes) is Ok,
        ensures
            Self::parsed(bytes)->Ok_0.message() == bytes,
    {
        lemma_two_fields_written_back(bytes, FUNCTION_CODE_WRITE_SINGLE_REGISTER);
    }
}

/// A message that masks one register.
pub open spec fn mask_message(reference_address: u16, and_mask: u16, or_mask: u16) -> Seq<u8> {
    seq![FUNCTION_CODE_MASK_WRITE_REGISTER] + be_bytes(reference_address) + be_bytes(and_mask)
        + be_bytes(or_mask)
}

/// The address and the two masks of a message that masks one register.
pub open spec fn mask_fields(bytes: Seq<u8>) -> Result<(u16, u16, u16), DecodeError> {
    if bytes.len() < 7 {
        Err(DecodeError::TooShort)
    } else if bytes[0] != FUNCTION_CODE_MASK_WRITE_REGISTER {
        Err(wrong_function(FUNCTION_CODE_MASK_WRITE_REGISTER, bytes[0]))
    } else {
        Ok((word_at(bytes, 1), word_at(bytes, 3), word_at(bytes, 5)))
    }
}

/// Writes a message that masks one register.
fn encode_mask_write_register(reference_address: u16, and_mask: u16, or_mask: u16) -> (bytes: Vec<
    u8,
>)
    ensures
        bytes@ == mask_message(reference_address, and_mask, or_mask),
{
    let mut buffer: Vec<u8> = Vec::new();
    buffer.push(FUNCTION_CODE_MASK_WRITE_REGISTER);
    push_u16_be(&mut buffer, reference_address);
    push_u16_be(&mut buffer, and_mask);
    push_u16_be(&mut buffer, or_mask);
    assert(buffer@ =~= mask_message(reference_address, and_mask, or_mask));
    buffer
}

/// Reads a message that masks one register.
fn decode_mask_write_register(bytes: &[u8]) -> (decoded: Result<(u16, u16, u16), DecodeError>)
    ensures
        decoded == mask_fields(bytes@),
{
    if bytes.len() < 7 {
        return Err(DecodeError::TooShort);
    }
    if bytes[0] != FUNCTION_CODE_MASK_WRITE_REGISTER {
        return Err(
            DecodeError::UnexpectedFunctionCode {
                expected: FUNCTION_CODE_MASK_WRITE_REGISTER,
                actual: bytes[0],
            },
        );
    }
    Ok((read_u16_be(bytes, 1), read_u16_be(bytes, 3), read_u16_be(bytes, 5)))
}

/// Asks to change some bits of one register: those that `and_mask` leaves
/// out become those of `or_mask`.
#[derive(Debug, Clone, Copy, PartialEq, Eq, Structural)]
pub struct MaskWriteRegisterRequest {
    pub reference_address: u16,
    pub and_mask: u16,
    pub or_mask: u16,
}

impl MaskWriteRegisterRequest {
    /// The message on the wire.
    pub open spec fn message(self) -> Seq<u8> {
        mask_message(self.reference_address, self.and_mask, self.or_mask)
    }

    /// What `bytes` are as such a message.
    pub open spec fn parsed(bytes: Seq<u8>) -> Result<Self, DecodeError> {
        match mask_fields(bytes) {
            Ok((reference_address, and_mask, or_mask)) => Ok(
                MaskWriteRegisterRequest { reference_address, and_mask, or_mask },
            ),
            Err(error) => Err(error),
        }
    }

    /// Writes the message.
    pub fn encode(&self) -> (bytes: Vec<u8>)
        ensures
            bytes@ == self.message(),
    {
        encode_mask_write_register(self.reference_address, self.and_mask, self.or_mask)
    }

    /// Reads the message.
    pub fn decode(bytes: &[u8]) -> (decoded: Result<Self, DecodeError>)
        ensures
            decoded == Self::parsed(bytes@),
    {
        match decode_mask_write_register(bytes) {
            Ok((reference_address, and_mask, or_mask)) => Ok(
                MaskWriteRegisterRequest { reference_address, and_mask, or_mask },
            ),
            Err(error) => Err(error),
        }
    }

    /// Reading the message that was written gives the same back.
    pub proof fn law_round_trip(self)
        ensures
            Self::parsed(self.message()) == Ok::<Self, DecodeError>(self),
    {
        assert(self.message() =~= seq![
            FUNCTION_CODE_MASK_WRITE_REGISTER,
            (self.reference_address / 256) as u8,
            (self.reference_address % 256) as u8,
            (self.and_mask / 256) as u8,
            (self.and_mask % 256) as u8,
            (self.or_mask / 256) as u8,
            (self.or_mask % 256) as u8,
        ]);
    }

    /// Writing what was read from a message without trailing bytes gives its
    /// bytes back.
    pub proof fn law_written_back(bytes: Seq<u8>)
        requires
            bytes.len() == 7,
            Self::parsed(bytes) is Ok,
        ensures
            Self::parsed(bytes)->Ok_0.message() == bytes,
    {
        assert(Self::parsed(bytes)->Ok_0.message() =~= bytes);
    }
}

/// Confirms that some bits of one register were changed.
#[derive(Debug, Clone, Copy, PartialEq, Eq, Structural)]
pub struct MaskWriteRegisterResponse {
    pub reference_address: u16,
    pub and_mask: u16,
    pub or_mask: u16,
}

impl MaskWriteRegisterResponse {
    /// The message on the wire.
    pub open spec fn message(self) -> Seq<u8> {
        mask_message(self.reference_address, self.and_mask, self.or_mask)
    }

    /// What `bytes` are as such a message.
    pub open spec fn parsed(bytes: Seq<u8>) -> Result<Self, DecodeError> {
        match mask_fields(bytes) {
            Ok((reference_address, and_mask, or_mask)) => Ok(
                MaskWriteRegisterResponse { reference_address, and_mask, or_mask },
            ),
            Err(error) => Err(error),
        }
    }

    /// Writes the message.
    pub fn encode(&self) -> (bytes: Vec<u8>)
        ensures
            bytes@ == self.message(),
    {
        encode_mask_write_register(self.reference_address, self.and_mask, self.or_mask)
    }

    /// Reads the message.
    pub fn decode(bytes: &[u8]) -> (decoded: Result<Self, DecodeError>)
        ensures
            decoded == Self::parsed(bytes@),
    {
        match decode_mask_write_register(bytes) {
            Ok((reference_address, and_mask, or_mask)) => Ok(
                MaskWriteRegisterResponse { reference_address, and_mask, or_mask },
            ),
            Err(error) => Err(error),
        }
    }

    /// Reading the message that was written gives the same back.
    pub proof fn law_round_trip(self)
        ensures
            Self::parsed(self.message()) == Ok::<Self, DecodeError>(self),
    {
        assert(self.message() =~= seq![
            FUNCTION_CODE_MASK_WRITE_REGISTER,
            (self.reference_address / 256) as u8,
            (self.reference_address % 256) as u8,
            (self.and_mask / 256) as u8,
            (self.and_mask % 256) as u8,
            (self.or_mask / 256) as u8,
            (self.or_mask % 256) as u8,
        ]);
    }

    /// Writing what was read from a message without trailing bytes gives its
    /// bytes back.
    pub proof fn law_written_back(bytes: Seq<u8>)
        requires
            bytes.len() == 7,
            Self::parsed(bytes) is Ok,
        ensures
            Self::parsed(bytes)->Ok_0.message() == bytes,
    {
        assert(Self::parsed(bytes)->Ok_0.message() =~= bytes);
    }
}

/// Asks a server for its name.
#[derive(Debug, Clone, Copy, PartialEq, Eq, Structural)]
pub struct ReportServerIdRequest;

impl ReportServerIdRequest {
    /// The message on the wire: the function code alone.
    pub open spec fn message() -> Seq<u8> {
        seq![FUNCTION_CODE_REPORT_SERVER_ID]
    }

    /// What `bytes` are as such a message.
    pub open spec fn parsed(bytes: Seq<u8>) -> Result<Self, DecodeError> {
        if bytes.len() == 0 {
            Err(DecodeError::TooShort)
        } else if bytes[0] != FUNCTION_CODE_REPORT_SERVER_ID {
            Err(wrong_function(FUNCTION_CODE_REPORT_SERVER_ID, bytes[0]))
        } else {
            Ok(ReportServerIdRequest)
        }
    }

    /// Writes the message.
    pub fn encode(&self) -> (bytes: Vec<u8>)
        ensures
            bytes@ == Self::message(),
    {
        let mut buffer: Vec<u8> = Vec::new();
        buffer.push(FUNCTION_CODE_REPORT_SERVER_ID);
        assert(buffer@ =~= seq![FUNCTION_CODE_REPORT_SERVER_ID]);
        buffer
    }

    /// Reads the message.
    pub fn decode(bytes: &[u8]) -> (decoded: Result<Self, DecodeError>)
        ensures
            decoded == Self::parsed(bytes@),
    {
        if bytes.len() == 0 {
            return Err(DecodeError::TooShort);
        }
        if bytes[0] != FUNCTION_CODE_REPORT_SERVER_ID {
            return Err(
                DecodeError::UnexpectedFunctionCode {
                    expected: FUNCTION_CODE_REPORT_SERVER_ID,
                    actual: bytes[0],
                },
            );
        }
        Ok(ReportServerIdRequest)
    }
}

/// The name of a server, and whether it runs.
#[derive(Debug, Clone, PartialEq, Eq)]
pub struct ReportServerIdResponse {
    pub server_id: Vec<u8>,
    pub run_indicator_status: bool,
}

impl ReportServerIdResponse {
    /// The message on the wire: the name and the indicator, with how many
    /// bytes they are before them.
    pub open spec fn message(server_id: Seq<u8>, running: bool) -> Seq<u8> {
        seq![FUNCTION_CODE_REPORT_SERVER_ID, ((server_id.len() + 1) % 256) as u8] + server_id
            + seq![flag(running)]
    }

    /// The name and the indicator that `bytes` are as such a message. Any
    /// indicator but 0 says that the server runs.
    pub open spec fn parsed(bytes: Seq<u8>) -> Result<(Seq<u8>, bool), DecodeError> {
        if bytes.len() < 2 {
            Err(DecodeError::TooShort)
        } else if bytes[0] != FUNCTION_CODE_REPORT_SERVER_ID {
            Err(wrong_function(FUNCTION_CODE_REPORT_SERVER_ID, bytes[0]))
        } else if bytes[1] == 0 || bytes.len() < 2 + bytes[1] {
            Err(DecodeError::TooShort)
        } else {
            Ok((bytes.subrange(2, 1 + bytes[1]), bytes[1 + bytes[1]] != 0))
        }
    }

    /// Writes the message.
    pub fn encode(&self) -> (bytes: Vec<u8>)
        ensures
            bytes@ == Self::message(self.server_id@, self.run_indicator_status),
    {
        let mut buffer: Vec<u8> = Vec::new();
        buffer.push(FUNCTION_CODE_REPORT_SERVER_ID);
        buffer.push(((self.server_id.len() % 256 + 1) % 256) as u8);
        push_bytes(&mut buffer, self.server_id.as_slice());
        buffer.push(flag_byte(self.run_indicator_status));
        assert(buffer@ =~= Self::message(self.server_id@, self.run_indicator_status));
        buffer
    }

    /// Reads the message.
    pub fn decode(bytes: &[u8]) -> (decoded: Result<Self, DecodeError>)
        ensures
            decoded matches Ok(response) ==> Self::parsed(bytes@) == Ok::<
                (Seq<u8>, bool),
                DecodeError,
            >((response.server_id@, response.run_indicator_status)),
            decoded matches Err(error) ==> Self::parsed(bytes@) == Err::<
                (Seq<u8>, bool),
                DecodeError,
            >(error),
    {
        if bytes.len() < 2 {
            return Err(DecodeError::TooShort);
        }
        if bytes[0] != FUNCTION_CODE_REPORT_SERVER_ID {
            return Err(
                DecodeError::UnexpectedFunctionCode {
                    expected: FUNCTION_CODE_REPORT_SERVER_ID,
                    actual: bytes[0],
                },
            );
        }
        let byte_count: usize = bytes[1] as usize;
        if byte_count == 0 {
            return Err(DecodeError::TooShort);
        }
        if bytes.len() < 2 + byte_count {
            return Err(DecodeError::TooShort);
        }
        let end: usize = 1 + byte_count;
        let server_id = vstd::slice::slice_to_vec(vstd::slice::slice_subrange(bytes, 2, end));
        Ok(ReportServerIdResponse { server_id, run_indicator_status: bytes[end] != 0 })
    }

    /// Reading the message that was written gives the same back. The message
    /// counts its bytes in a byte, which bounds how long a name can be.
    pub proof fn law_round_trip(server_id: Seq<u8>, running: bool)
        requires
            server_id.len() <= 254,
        ensures
            Self::parsed(Self::message(server_id, running)) == Ok::<(Seq<u8>, bool), DecodeError>(
                (server_id, running),
            ),
    {
        let m = Self::message(server_id, running);
        assert(m.subrange(2, 1 + m[1]) =~= server_id);
    }
}

/// Asks to switch coils that lie one behind the other.
#[derive(Debug, Clone, PartialEq, Eq)]
pub struct WriteMultipleCoilsRequest {
    pub starting_address: u16,
    pub coil_values: Vec<bool>,
}

impl WriteMultipleCoilsRequest {
    /// The message on the wire.
    pub open spec fn message(starting_address: u16, coil_values: Seq<bool>) -> Seq<u8> {
        seq![FUNCTION_CODE_WRITE_MULTIPLE_COILS] + be_bytes(starting_address) + be_bytes(
            (coil_values.len() % 65536) as u16,
        ) + seq![(octets(coil_values.len()) % 256) as u8] + packed(coil_values)
    }

    /// The address and the values that `bytes` are as such a message. Its
    /// quantity says how many of the bits are values, and must fill exactly
    /// the bytes it counts.
    pub open spec fn parsed(bytes: Seq<u8>) -> Result<(u16, Seq<bool>), DecodeError> {
        if bytes.len() < 6 {
            Err(DecodeError::TooShort)
        } else if bytes[0] != FUNCTION_CODE_WRITE_MULTIPLE_COILS {
            Err(wrong_function(FUNCTION_CODE_WRITE_MULTIPLE_COILS, bytes[0]))
        } else if bytes[5] != octets(word_at(bytes, 3) as nat) {
            Err(
                DecodeError::QuantityByteCountMismatch {
                    quantity: word_at(bytes, 3),
                    byte_count: bytes[5],
                },
            )
        } else if bytes.len() < 6 + bytes[5] {
            Err(DecodeError::TooShort)
        } else {
            Ok(
                (
                    word_at(bytes, 1),
                    unpacked(bytes.subrange(6, 6 + bytes[5])).take(word_at(bytes, 3) as int),
                ),
            )
        }
    }

    /// Writes the message.
    pub fn encode(&self) -> (bytes: Vec<u8>)
        ensures
            bytes@ == Self::message(self.starting_address, self.coil_values@),
    {
        let mut buffer: Vec<u8> = Vec::new();
        buffer.push(FUNCTION_CODE_WRITE_MULTIPLE_COILS);
        push_u16_be(&mut buffer, self.starting_address);
        push_u16_be(&mut buffer, (self.coil_values.len() % 65536) as u16);
        buffer.push((octet_count(self.coil_values.len()) % 256) as u8);
        push_bits(&mut buffer, self.coil_values.as_slice());
        assert(buffer@ =~= Self::message(self.starting_address, self.coil_values@));
        buffer
    }

    /// Reads the message.
    pub fn decode(bytes: &[u8]) -> (decoded: Result<Self, DecodeError>)
        ensures
            decoded matches Ok(request) ==> Self::parsed(bytes@) == Ok::<
                (u16, Seq<bool>),
                DecodeError,
            >((request.starting_address, request.coil_values@)),
            decoded matches Err(error) ==> Self::parsed(bytes@) == Err::<
                (u16, Seq<bool>),
                DecodeError,
            >(error),
    {
        if bytes.len() < 6 {
            return Err(DecodeError::TooShort);
        }
        if bytes[0] != FUNCTION_CODE_WRITE_MULTIPLE_COILS {
            return Err(
                DecodeError::UnexpectedFunctionCode {
                    expected: FUNCTION_CODE_WRITE_MULTIPLE_COILS,
                    actual: bytes[0],
                },
            );
        }
        let starting_address: u16 = read_u16_be(bytes, 1);
        let quantity: u16 = read_u16_be(bytes, 3);
        let byte_count: u8 = bytes[5];
        if byte_count as usize != octet_count(quantity as usize) {
            return Err(DecodeError::QuantityByteCountMismatch { quantity, byte_count });
        }
        let byte_count: usize = byte_count as usize;
        if bytes.len() < 6 + byte_count {
            return Err(DecodeError::TooShort);
        }
        let mut coil_values = read_bits(vstd::slice::slice_subrange(bytes, 6, 6 + byte_count));
        coil_values.truncate(quantity as usize);
        Ok(WriteMultipleCoilsRequest { starting_address, coil_values })
    }

    /// Reading the message that was written gives the same back. The message
    /// counts its bytes in a byte, which bounds how many values there can be.
    pub proof fn law_round_trip(starting_address: u16, coil_values: Seq<bool>)
        requires
            coil_values.len() <= 2040,
        ensures
            Self::parsed(Self::message(starting_address, coil_values)) == Ok::<
                (u16, Seq<bool>),
                DecodeError,
            >((starting_address, coil_values)),
    {
        let m = Self::message(starting_address, coil_values);
        let n = coil_values.len() as u16;
        assert(m[0] == FUNCTION_CODE_WRITE_MULTIPLE_COILS);
        assert(m[1] == (starting_address / 256) as u8);
        assert(m[2] == (starting_address % 256) as u8);
        assert(m[3] == (n / 256) as u8);
        assert(m[4] == (n % 256) as u8);
        assert(m[5] == octets(coil_values.len()));
        assert(m.subrange(6, 6 + m[5]) =~= packed(coil_values));
        law_bits_round_trip(coil_values);
    }
}

/// Confirms that coils were switched.
#[derive(Debug, Clone, Copy, PartialEq, Eq, Structural)]
pub struct WriteMultipleCoilsResponse {
    pub starting_address: u16,
    pub quantity: u16,
}

impl WriteMultipleCoilsResponse {
    /// The message on the wire.
    pub open spec fn message(self) -> Seq<u8> {
        two_field_message(FUNCTION_CODE_WRITE_MULTIPLE_COILS, self.starting_address, self.quantity)
    }

    /// What `bytes` are as such a message.
    pub open spec fn parsed(bytes: Seq<u8>) -> Result<Self, DecodeError> {
        match two_fields(bytes, FUNCTION_CODE_WRITE_MULTIPLE_COILS) {
            Ok((starting_address, quantity)) => Ok(
                WriteMultipleCoilsResponse { starting_address, quantity },
            ),
            Err(error) => Err(error),
        }
    }

    /// Writes the message.
    pub fn encode(&self) -> (bytes: Vec<u8>)
        ensures
            bytes@ == self.message(),
    {
        encode_two_fields(FUNCTION_CODE_WRITE_MULTIPLE_COILS, self.starting_address, self.quantity)
    }

    /// Reads the message.
    pub fn decode(bytes: &[u8]) -> (decoded: Result<Self, DecodeError>)
        ensures
            decoded == Self::parsed(bytes@),
    {
        match decode_two_fields(bytes, FUNCTION_CODE_WRITE_MULTIPLE_COILS) {
            Ok((starting_address, quantity)) => Ok(
                WriteMultipleCoilsResponse { starting_address, quantity },
            ),
            Err(error) => Err(error),
        }
    }

    /// Reading the message that was written gives the same back.
    pub proof fn law_round_trip(self)
        ensures
            Self::parsed(self.message()) == Ok::<Self, DecodeError>(self),
    {
        lemma_two_fields(FUNCTION_CODE_WRITE_MULTIPLE_COILS, self.starting_address, self.quantity);
    }

    /// Writing what was read from a message without trailing bytes gives its
    /// bytes back.
    pub proof fn law_written_back(bytes: Seq<u8>)
        requires
            bytes.len() == 5,
            Self::parsed(bytes) is Ok,
        ensures
            Self::parsed(bytes)->Ok_0.message() == bytes,
    {
        lemma_two_fields_written_back(bytes, FUNCTION_CODE_WRITE_MULTIPLE_COILS);
    }
}

/// Asks to write registers that lie one behind the other.
#[derive(Debug, Clone, PartialEq, Eq)]
pub struct WriteMultipleRegistersRequest {
    pub starting_address: u16,
    pub register_values: Vec<u16>,
}

impl WriteMultipleRegistersRequest {
    /// The message on the wire.
    pub open spec fn message(starting_address: u16, register_values: Seq<u16>) -> Seq<u8> {
        seq![FUNCTION_CODE_WRITE_MULTIPLE_REGISTERS] + be_bytes(starting_address) + be_bytes(
            (register_values.len() % 65536) as u16,
        ) + seq![((2 * register_values.len()) % 256) as u8] + words_bytes(register_values)
    }

    /// The address and the values that `bytes` are as such a message. How many
    /// values there are is what its byte count says.
    pub open spec fn parsed(bytes: Seq<u8>) -> Result<(u16, Seq<u16>), DecodeError> {
        if bytes.len() < 6 {
            Err(DecodeError::TooShort)
        } else if bytes[0] != FUNCTION_CODE_WRITE_MULTIPLE_REGISTERS {
            Err(wrong_function(FUNCTION_CODE_WRITE_MULTIPLE_REGISTERS, bytes[0]))
        } else if bytes[5] % 2 != 0 {
            Err(DecodeError::OddByteCount { byte_count: bytes[5] })
        } else if bytes.len() < 6 + bytes[5] {
            Err(DecodeError::TooShort)
        } else {
            Ok((word_at(bytes, 1), bytes_words(bytes.subrange(6, 6 + bytes[5]))))
        }
    }

    /// Writes the message.
    pub fn encode(&self) -> (bytes: Vec<u8>)
        ensures
            bytes@ == Self::message(self.starting_address, self.register_values@),
    {
        let mut buffer: Vec<u8> = Vec::new();
        buffer.push(FUNCTION_CODE_WRITE_MULTIPLE_REGISTERS);
        push_u16_be(&mut buffer, self.starting_address);
        push_u16_be(&mut buffer, (self.register_values.len() % 65536) as u16);
        buffer.push(word_byte_count(self.register_values.len()));
        push_words(&mut buffer, self.register_values.as_slice());
        assert(buffer@ =~= Self::message(self.starting_address, self.register_values@));
        buffer
    }

    /// Reads the message.
    pub fn decode(bytes: &[u8]) -> (decoded: Result<Self, DecodeError>)
        ensures
            decoded matches Ok(request) ==> Self::parsed(bytes@) == Ok::<
                (u16, Seq<u16>),
                DecodeError,
            >((request.starting_address, request.register_values@)),
            decoded matches Err(error) ==> Self::parsed(bytes@) == Err::<
                (u16, Seq<u16>),
                DecodeError,
            >(error),
    {
        if bytes.len() < 6 {
            return Err(DecodeError::TooShort);
        }
        if bytes[0] != FUNCTION_CODE_WRITE_MULTIPLE_REGISTERS {
            return Err(
                DecodeError::UnexpectedFunctionCode {
                    expected: FUNCTION_CODE_WRITE_MULTIPLE_REGISTERS,
                    actual: bytes[0],
                },
            );
        }
        let starting_address: u16 = read_u16_be(bytes, 1);
        let byte_count: u8 = bytes[5];
        if byte_count % 2 != 0 {
            return Err(DecodeError::OddByteCount { byte_count });
        }
        let byte_count: usize = byte_count as usize;
        if bytes.len() < 6 + byte_count {
            return Err(DecodeError::TooShort);
        }
        let register_values = read_words(vstd::slice::slice_subrange(bytes, 6, 6 + byte_count));
        Ok(WriteMultipleRegistersRequest { starting_address, register_values })
    }

    /// Reading the message that was written gives the same back. The message
    /// counts its bytes in a byte, which bounds how many values there can be.
    pub proof fn law_round_trip(starting_address: u16, register_values: Seq<u16>)
        requires
            register_values.len() <= 127,
        ensures
            Self::parsed(Self::message(starting_address, register_values)) == Ok::<
                (u16, Seq<u16>),
                DecodeError,
            >((starting_address, register_values)),
    {
        let m = Self::message(starting_address, register_values);
        assert(m[0] == FUNCTION_CODE_WRITE_MULTIPLE_REGISTERS);
        assert(m[1] == (starting_address / 256) as u8);
        assert(m[2] == (starting_address % 256) as u8);
        assert(m[5] == 2 * register_values.len());
        assert(m.subrange(6, 6 + m[5]) =~= words_bytes(register_values));
        law_words_round_trip(register_values);
    }
}

/// Confirms that registers were written.
#[derive(Debug, Clone, Copy, PartialEq, Eq, Structural)]
pub struct WriteMultipleRegistersResponse {
    pub starting_address: u16,
    pub quantity: u16,
}

impl WriteMultipleRegistersResponse {
    /// The message on the wire.
    pub open spec fn message(self) -> Seq<u8> {
        two_field_message(
            FUNCTION_CODE_WRITE_MULTIPLE_REGISTERS,
            self.starting_address,
            self.quantity,
        )
    }

    /// What `bytes` are as such a message.
    pub open spec fn parsed(bytes: Seq<u8>) -> Result<Self, DecodeError> {
        match two_fields(bytes, FUNCTION_CODE_WRITE_MULTIPLE_REGISTERS) {
            Ok((starting_address, quantity)) => Ok(
                WriteMultipleRegistersResponse { starting_address, quantity },
            ),
            Err(error) => Err(error),
        }
    }

    /// Writes the message.
    pub fn encode(&self) -> (bytes: Vec<u8>)
        ensures
            bytes@ == self.message(),
    {
        encode_two_fields(
            FUNCTION_CODE_WRITE_MULTIPLE_REGISTERS,
            self.starting_address,
            self.quantity,
        )
    }

    /// Reads the message.
    pub fn decode(bytes: &[u8]) -> (decoded: Result<Self, DecodeError>)
        ensures
            decoded == Self::parsed(bytes@),
    {
        match decode_two_fields(bytes, FUNCTION_CODE_WRITE_MULTIPLE_REGISTERS) {
            Ok((starting_address, quantity)) => Ok(
                WriteMultipleRegistersResponse { starting_address, quantity },
            ),
            Err(error) => Err(error),
        }
    }

    /// Reading the message that was written gives the same back.
    pub proof fn law_round_trip(self)
        ensures
            Self::parsed(self.message()) == Ok::<Self, DecodeError>(self),
    {
        lemma_two_fields(
            FUNCTION_CODE_WRITE_MULTIPLE_REGISTERS,
            self.starting_address,
            self.quantity,
        );
    }

    /// Writing what was read from a message without trailing bytes gives its
    /// bytes back.
    pub proof fn law_written_back(bytes: Seq<u8>)
        requires
            bytes.len() == 5,
            Self::parsed(bytes) is Ok,
        ensures
            Self::parsed(bytes)->Ok_0.message() == bytes,
    {
        lemma_two_fields_written_back(bytes, FUNCTION_CODE_WRITE_MULTIPLE_REGISTERS);
    }
}

/// Says that a request is refused, and why.
#[derive(Debug, Clone, Copy, PartialEq, Eq, Structural)]
pub struct ExceptionResponse {
    pub function_code: u8,
    pub exception_code: u8,
}

impl ExceptionResponse {
    /// The message on the wire: the function code with its highest bit set,
    /// and the exception code.
    pub open spec fn message(self) -> Seq<u8> {
        seq![
            if self.function_code < 128 {
                (self.function_code + 128) as u8
            } else {
                self.function_code
            },
            self.exception_code,
        ]
    }

    /// What `bytes` are as such a message.
    pub open spec fn parsed(bytes: Seq<u8>) -> Result<Self, DecodeError> {
        if bytes.len() < 2 {
            Err(DecodeError::TooShort)
        } else if bytes[0] < 128 {
            Err(DecodeError::NotAnExceptionResponse { function_code: bytes[0] })
        } else {
            Ok(
                ExceptionResponse {
                    function_code: (bytes[0] - 128) as u8,
                    exception_code: bytes[1],
                },
            )
        }
    }

    /// Writes the message.
    pub fn encode(&self) -> (bytes: Vec<u8>)
        ensures
            bytes@ == self.message(),
    {
        let mut buffer: Vec<u8> = Vec::new();
        let code: u8 = self.function_code;
        assert(code | 0x80 == if code < 128 { (code + 128) as u8 } else { code }) by (bit_vector);
        buffer.push(code | 0x80);
        buffer.push(self.exception_code);
        assert(buffer@ =~= self.message());
        buffer
    }

    /// Reads the message.
    pub fn decode(bytes: &[u8]) -> (decoded: Result<Self, DecodeError>)
        ensures
            decoded == Self::parsed(bytes@),
    {
        if bytes.len() < 2 {
            return Err(DecodeError::TooShort);
        }
        let raw_function_code: u8 = bytes[0];
        if raw_function_code < 128 {
            return Err(DecodeError::NotAnExceptionResponse { function_code: raw_function_code });
        }
        Ok(
            ExceptionResponse {
                function_code: raw_function_code - 128,
                exception_code: bytes[1],
            },
        )
    }

    /// Reading the message that was written gives the same back, for every
    /// function code that leaves its highest bit free.
    pub proof fn law_round_trip(self)
        requires
            self.function_code < 128,
        ensures
            Self::parsed(self.message()) == Ok::<Self, DecodeError>(self),
    {
    }

    /// Writing what was read from a message without trailing bytes gives its
    /// bytes back.
    pub proof fn law_written_back(bytes: Seq<u8>)
        requires
            bytes.len() == 2,
            Self::parsed(bytes) is Ok,
        ensures
            Self::parsed(bytes)->Ok_0.message() == bytes,
    {
        assert(Self::parsed(bytes)->Ok_0.message() =~= bytes);
    }
}

/// The error for an encapsulated message of another interface.
pub open spec fn wrong_interface(actual: u8) -> DecodeError {
    DecodeError::UnexpectedMeiType { expected: MEI_TYPE_READ_DEVICE_IDENTIFICATION, actual }
}

/// Asks for objects of a device's identification, from `object_id` on.
#[derive(Debug, Clone, Copy, PartialEq, Eq, Structural)]
pub struct ReadDeviceIdentificationRequest {
    pub read_device_id_code: u8,
    pub object_id: u8,
}

impl ReadDeviceIdentificationRequest {
    /// The message on the wire.
    pub open spec fn message(self) -> Seq<u8> {
        seq![
            FUNCTION_CODE_ENCAPSULATED_INTERFACE_TRANSPORT,
            MEI_TYPE_READ_DEVICE_IDENTIFICATION,
            self.read_device_id_code,
            self.object_id,
        ]
    }

    /// What `bytes` are as such a message.
    pub open spec fn parsed(bytes: Seq<u8>) -> Result<Self, DecodeError> {
        if bytes.len() < 4 {
            Err(DecodeError::TooShort)
        } else if bytes[0] != FUNCTION_CODE_ENCAPSULATED_INTERFACE_TRANSPORT {
            Err(wrong_function(FUNCTION_CODE_ENCAPSULATED_INTERFACE_TRANSPORT, bytes[0]))
        } else if bytes[1] != MEI_TYPE_READ_DEVICE_IDENTIFICATION {
            Err(wrong_interface(bytes[1]))
        } else {
            Ok(
                ReadDeviceIdentificationRequest {
                    read_device_id_code: bytes[2],
                    object_id: bytes[3],
                },
            )
        }
    }

    /// Writes the message.
    pub fn encode(&self) -> (bytes: Vec<u8>)
        ensures
            bytes@ == self.message(),
    {
        let mut buffer: Vec<u8> = Vec::new();
        buffer.push(FUNCTION_CODE_ENCAPSULATED_INTERFACE_TRANSPORT);
        buffer.push(MEI_TYPE_READ_DEVICE_IDENTIFICATION);
        buffer.push(self.read_device_id_code);
        buffer.push(self.object_id);
        assert(buffer@ =~= self.message());
        buffer
    }

    /// Reads the message.
    pub fn decode(bytes: &[u8]) -> (decoded: Result<Self, DecodeError>)
        ensures
            decoded == Self::parsed(bytes@),
    {
        if bytes.len() < 4 {
            return Err(DecodeError::TooShort);
        }
        if bytes[0] != FUNCTION_CODE_ENCAPSULATED_INTERFACE_TRANSPORT {
            return Err(
                DecodeError::UnexpectedFunctionCode {
                    expected: FUNCTION_CODE_ENCAPSULATED_INTERFACE_TRANSPORT,
                    actual: bytes[0],
                },
            );
        }
        if bytes[1] != MEI_TYPE_READ_DEVICE_IDENTIFICATION {
            return Err(
                DecodeError::UnexpectedMeiType {
                    expected: MEI_TYPE_READ_DEVICE_IDENTIFICATION,
                    actual: bytes[1],
                },
            );
        }
        Ok(
            ReadDeviceIdentificationRequest {
                read_device_id_code: bytes[2],
                object_id: bytes[3],
            },
        )
    }

    /// Reading the message that was written gives the same back.
    pub proof fn law_round_trip(self)
        ensures
            Self::parsed(self.message()) == Ok::<Self, DecodeError>(self),
    {
    }

    /// Writing what was read from a message without trailing bytes gives its
    /// bytes back.
    pub proof fn law_written_back(bytes: Seq<u8>)
        requires
            bytes.len() == 4,
            Self::parsed(bytes) is Ok,
        ensures
            Self::parsed(bytes)->Ok_0.message() == bytes,
    {
        assert(Self::parsed(bytes)->Ok_0.message() =~= bytes);
    }
}

/// One object of a device's identification.
#[derive(Debug, Clone, PartialEq, Eq)]
pub struct DeviceIdentificationObject {
    pub id: u8,
    pub value: Vec<u8>,
}

/// What an object holds: its number and its value.
pub type ObjectView = (u8, Seq<u8>);

/// What objects hold.
pub open spec fn object_views(objects: Seq<DeviceIdentificationObject>) -> Seq<ObjectView> {
    Seq::new(objects.len(), |i: int| (objects[i].id, objects[i].value@))
}

/// The objects of a message: each its number, how long its value is, and its
/// value.
pub open spec fn objects_bytes(objects: Seq<ObjectView>) -> Seq<u8>
    decreases objects.len(),
{
    if objects.len() == 0 {
        Seq::empty()
    } else {
        let last = objects.last();
        objects_bytes(objects.drop_last()) + seq![last.0, (last.1.len() % 256) as u8] + last.1
    }
}

/// The first `count` objects that `bytes` hold.
pub open spec fn objects_parsed(bytes: Seq<u8>, count: nat) -> Option<Seq<ObjectView>>
    decreases count,
{
    if count == 0 {
        Some(Seq::empty())
    } else if bytes.len() < 2 || bytes.len() < 2 + bytes[1] {
        None
    } else {
        match objects_parsed(
            bytes.subrange(2 + bytes[1], bytes.len() as int),
            (count - 1) as nat,
        ) {
            Some(rest) => Some(seq![(bytes[0], bytes.subrange(2, 2 + bytes[1]))] + rest),
            None => None,
        }
    }
}

/// Some objects of a device's identification, and where to go on where more
/// follow.
#[derive(Debug, Clone, PartialEq, Eq)]
pub struct ReadDeviceIdentificationResponse {
    pub read_device_id_code: u8,
    pub conformity_level: u8,
    pub more_follows: bool,
    pub next_object_id: u8,
    pub objects: Vec<DeviceIdentificationObject>,
}

/// What a [`ReadDeviceIdentificationResponse`] holds.
pub ghost struct DeviceIdentification {
    pub read_device_id_code: u8,
    pub conformity_level: u8,
    pub more_follows: bool,
    pub next_object_id: u8,
    pub objects: Seq<ObjectView>,
}

impl View for ReadDeviceIdentificationResponse {
    type V = DeviceIdentification;

    open spec fn view(&self) -> DeviceIdentification {
        DeviceIdentification {
            read_device_id_code: self.read_device_id_code,
            conformity_level: self.conformity_level,
            more_follows: self.more_follows,
            next_object_id: self.next_object_id,
            objects: object_views(self.objects@),
        }
    }
}

impl DeviceIdentification {
    /// The message on the wire.
    pub open spec fn message(self) -> Seq<u8> {
        seq![
            FUNCTION_CODE_ENCAPSULATED_INTERFACE_TRANSPORT,
            MEI_TYPE_READ_DEVICE_IDENTIFICATION,
            self.read_device_id_code,
            self.conformity_level,
            flag(self.more_follows),
            self.next_object_id,
            (self.objects.len() % 256) as u8,
        ] + objects_bytes(self.objects)
    }

    /// What `bytes` are as such a message. Any indicator but 0 says that more
    /// follows.
    pub open spec fn parsed(bytes: Seq<u8>) -> Result<Self, DecodeError> {
        if bytes.len() < 7 {
            Err(DecodeError::TooShort)
        } else if bytes[0] != FUNCTION_CODE_ENCAPSULATED_INTERFACE_TRANSPORT {
            Err(wrong_function(FUNCTION_CODE_ENCAPSULATED_INTERFACE_TRANSPORT, bytes[0]))
        } else if bytes[1] != MEI_TYPE_READ_DEVICE_IDENTIFICATION {
            Err(wrong_interface(bytes[1]))
        } else {
            match objects_parsed(bytes.subrange(7, bytes.len() as int), bytes[6] as nat) {
                Some(objects) => Ok(
                    DeviceIdentification {
                        read_device_id_code: bytes[2],
                        conformity_level: bytes[3],
                        more_follows: bytes[4] != 0,
                        next_object_id: bytes[5],
                        objects,
                    },
                ),
                None => Err(DecodeError::TooShort),
            }
        }
    }

    /// Reading the message that was written gives the same back. The message
    /// counts its objects, and the bytes of each, in a byte.
    pub proof fn law_round_trip(self)
        requires
            self.objects.len() <= 255,
            forall|i: int| 0 <= i < self.objects.len() ==> (#[trigger] self.objects[i]).1.len()
                <= 255,
        ensures
            Self::parsed(self.message()) == Ok::<Self, DecodeError>(self),
    {
        let m = self.message();
        assert(m.subrange(7, m.len() as int) =~= objects_bytes(self.objects));
        lemma_objects(self.objects);
    }
}

/// The bytes of objects are those of the first and those of the others.
proof fn lemma_objects_bytes_first(objects: Seq<ObjectView>)
    requires
        objects.len() > 0,
    ensures
        objects_bytes(objects) == seq![objects[0].0, (objects[0].1.len() % 256) as u8]
            + objects[0].1 + objects_bytes(objects.drop_first()),
    decreases objects.len(),
{
    let first = objects[0];
    let head = seq![first.0, (first.1.len() % 256) as u8] + first.1;
    if objects.len() == 1 {
        assert(objects.drop_last() =~= Seq::<ObjectView>::empty());
        assert(objects.drop_first() =~= Seq::<ObjectView>::empty());
        assert(objects_bytes(objects) =~= head + objects_bytes(objects.drop_first()));
    } else {
        lemma_objects_bytes_first(objects.drop_last());
        assert(objects.drop_last().drop_first() =~= objects.drop_first().drop_last());
        assert(objects.drop_last()[0] == first);
        assert(objects.drop_first().last() == objects.last());
        assert(objects_bytes(objects) =~= head + objects_bytes(objects.drop_first()));
    }
}

/// The objects that were written are read back.
proof fn lemma_objects(objects: Seq<ObjectView>)
    requires
        forall|i: int| 0 <= i < objects.len() ==> (#[trigger] objects[i]).1.len() <= 255,
    ensures
        objects_parsed(objects_bytes(objects), objects.len()) == Some(objects),
    decreases objects.len(),
{
    if objects.len() > 0 {
        lemma_objects_bytes_first(objects);
        let first = objects[0];
        let rest = objects.drop_first();
        assert forall|i: int| 0 <= i < rest.len() implies (#[trigger] rest[i]).1.len() <= 255 by {
            assert(rest[i] == objects[i + 1]);
        }
        lemma_objects(rest);
        let bytes = objects_bytes(objects);
        assert(bytes[0] == first.0);
        assert(bytes[1] == first.1.len());
        assert(bytes.subrange(2, 2 + bytes[1]) =~= first.1);
        assert(bytes.subrange(2 + bytes[1], bytes.len() as int) =~= objects_bytes(rest));
        assert(seq![first] + rest =~= objects);
    } else {
        assert(objects =~= Seq::<ObjectView>::empty());
    }
}

/// Reading objects one after the other: where `count` objects are read from
/// `bytes`, the rest gives the others.
proof fn lemma_objects_parsed_step(done: Seq<ObjectView>, bytes: Seq<u8>, count: nat)
    requires
        count > 0,
    ensures
        bytes.len() < 2 || bytes.len() < 2 + bytes[1] ==> objects_parsed(bytes, count) is None,
        bytes.len() >= 2 && bytes.len() >= 2 + bytes[1] ==> {
            let rest = bytes.subrange(2 + bytes[1], bytes.len() as int);
            let object = (bytes[0], bytes.subrange(2, 2 + bytes[1]));
            match (objects_parsed(bytes, count), objects_parsed(rest, (count - 1) as nat)) {
                (Some(all), Some(others)) => done + all == done.push(object) + others,
                (None, None) => true,
                _ => false,
            }
        },
{
    if bytes.len() >= 2 && bytes.len() >= 2 + bytes[1] {
        let rest = bytes.subrange(2 + bytes[1], bytes.len() as int);
        let object = (bytes[0], bytes.subrange(2, 2 + bytes[1]));
        if let Some(others) = objects_parsed(rest, (count - 1) as nat) {
            assert(done + (seq![object] + others) =~= done.push(object) + others);
        }
    }
}

impl ReadDeviceIdentificationResponse {
    /// Writes the message.
    pub fn encode(&self) -> (bytes: Vec<u8>)
        ensures
            bytes@ == self@.message(),
    {
        let mut buffer: Vec<u8> = Vec::new();
        buffer.push(FUNCTION_CODE_ENCAPSULATED_INTERFACE_TRANSPORT);
        buffer.push(MEI_TYPE_READ_DEVICE_IDENTIFICATION);
        buffer.push(self.read_device_id_code);
        buffer.push(self.conformity_level);
        buffer.push(flag_byte(self.more_follows));
        buffer.push(self.next_object_id);
        buffer.push((self.objects.len() % 256) as u8);
        let ghost header = buffer@;
        let ghost objects = object_views(self.objects@);
        let mut i: usize = 0;
        assert(objects.take(0) =~= Seq::<ObjectView>::empty());
        assert(header =~= header + objects_bytes(objects.take(0)));
        while i < self.objects.len()
            invariant
                i <= self.objects@.len(),
                objects == object_views(self.objects@),
                buffer@ == header + objects_bytes(objects.take(i as int)),
            decreases self.objects@.len() - i,
        {
            let object = &self.objects[i];
            assert(objects.take(i + 1).drop_last() =~= objects.take(i as int));
            buffer.push(object.id);
            buffer.push((object.value.len() % 256) as u8);
            push_bytes(&mut buffer, object.value.as_slice());
            assert(buffer@ =~= header + objects_bytes(objects.take(i + 1)));
            i = i + 1;
        }
        assert(objects.take(i as int) =~= objects);
        assert(buffer@ =~= self@.message());
        buffer
    }

    /// Reads the message.
    pub fn decode(bytes: &[u8]) -> (decoded: Result<Self, DecodeError>)
        ensures
            decoded matches Ok(response) ==> DeviceIdentification::parsed(bytes@) == Ok::<
                DeviceIdentification,
                DecodeError,
            >(response@),
            decoded matches Err(error) ==> DeviceIdentification::parsed(bytes@) == Err::<
                DeviceIdentification,
                DecodeError,
            >(error),
    {
        if bytes.len() < 7 {
            return Err(DecodeError::TooShort);
        }
        if bytes[0] != FUNCTION_CODE_ENCAPSULATED_INTERFACE_TRANSPORT {
            return Err(
                DecodeError::UnexpectedFunctionCode {
                    expected: FUNCTION_CODE_ENCAPSULATED_INTERFACE_TRANSPORT,
                    actual: bytes[0],
                },
            );
        }
        if bytes[1] != MEI_TYPE_READ_DEVICE_IDENTIFICATION {
            return Err(
                DecodeError::UnexpectedMeiType {
                    expected: MEI_TYPE_READ_DEVICE_IDENTIFICATION,
                    actual: bytes[1],
                },
            );
        }
        let number_of_objects: u8 = bytes[6];
        let mut objects: Vec<DeviceIdentificationObject> = Vec::new();
        let mut offset: usize = 7;
        let mut i: u8 = 0;
        let ghost body = bytes@.subrange(7, bytes@.len() as int);
        let ghost whole = objects_parsed(body, number_of_objects as nat);
        proof {
            assert(object_views(objects@) =~= Seq::<ObjectView>::empty());
            if let Some(all) = whole {
                assert(object_views(objects@) + all =~= all);
            }
        }
        while i < number_of_objects
            invariant
                i <= number_of_objects,
                7 <= offset <= bytes@.len(),
                number_of_objects == bytes@[6],
                bytes@[0] == FUNCTION_CODE_ENCAPSULATED_INTERFACE_TRANSPORT,
                bytes@[1] == MEI_TYPE_READ_DEVICE_IDENTIFICATION,
                whole == objects_parsed(
                    bytes@.subrange(7, bytes@.len() as int),
                    number_of_objects as nat,
                ),
                objects@.len() == i,
                ({
                    let rest = objects_parsed(
                        bytes@.subrange(offset as int, bytes@.len() as int),
                        (number_of_objects - i) as nat,
                    );
                    match (whole, rest) {
                        (Some(all), Some(others)) => object_views(objects@) + others == all,
                        (None, None) => true,
                        _ => false,
                    }
                }),
            decreases number_of_objects - i,
        {
            let ghost here = bytes@.subrange(offset as int, bytes@.len() as int);
            let ghost done = object_views(objects@);
            proof {
                lemma_objects_parsed_step(done, here, (number_of_objects - i) as nat);
            }
            if bytes.len() - offset < 2 {
                return Err(DecodeError::TooShort);
            }
            let id: u8 = bytes[offset];
            let length: usize = bytes[offset + 1] as usize;
            if bytes.len() - offset - 2 < length {
                return Err(DecodeError::TooShort);
            }
            let value_start: usize = offset + 2;
            let value = vstd::slice::slice_to_vec(
                vstd::slice::slice_subrange(bytes, value_start, value_start + length),
            );
            proof {
                assert(here[0] == id && here[1] == length);
                assert(here.subrange(2, 2 + here[1]) =~= value@);
                assert(here.subrange(2 + here[1], here.len() as int) =~= bytes@.subrange(
                    value_start + length,
                    bytes@.len() as int,
                ));
            }
            objects.push(DeviceIdentificationObject { id, value });
            assert(object_views(objects@) =~= done.push((id, value@)));
            offset = value_start + length;
            i = i + 1;
        }
        proof {
            assert(objects_parsed(bytes@.subrange(offset as int, bytes@.len() as int), 0) == Some(
                Seq::<ObjectView>::empty(),
            ));
            assert(object_views(objects@) + Seq::<ObjectView>::empty() =~= object_views(objects@));
        }
        Ok(
            ReadDeviceIdentificationResponse {
                read_device_id_code: bytes[2],
                conformity_level: bytes[3],
                more_follows: bytes[4] != 0,
                next_object_id: bytes[5],
                objects,
            },
        )
    }
}

/// A file record to be read: which file, which record, and how many registers
/// of it.
#[derive(Debug, Clone, Copy, PartialEq, Eq, Structural)]
pub struct FileRecordSubRequest {
    pub file_number: u16,
    pub record_number: u16,
    pub record_length: u16,
}

impl FileRecordSubRequest {
    /// The record as part of a message.
    pub open spec fn message(self) -> Seq<u8> {
        seq![FILE_RECORD_REFERENCE_TYPE] + be_bytes(self.file_number) + be_bytes(
            self.record_number,
        ) + be_bytes(self.record_length)
    }
}

/// Asks for file records.
#[derive(Debug, Clone, PartialEq, Eq)]
pub struct ReadFileRecordRequest {
    pub sub_requests: Vec<FileRecordSubRequest>,
}

/// The records asked for, one behind the other.
pub open spec fn sub_requests_bytes(sub_requests: Seq<FileRecordSubRequest>) -> Seq<u8>
    decreases sub_requests.len(),
{
    if sub_requests.len() == 0 {
        Seq::empty()
    } else {
        sub_requests_bytes(sub_requests.drop_last()) + sub_requests.last().message()
    }
}

impl ReadFileRecordRequest {
    /// The message on the wire.
    pub open spec fn message(sub_requests: Seq<FileRecordSubRequest>) -> Seq<u8> {
        seq![FUNCTION_CODE_READ_FILE_RECORD, ((7 * sub_requests.len()) % 256) as u8]
            + sub_requests_bytes(sub_requests)
    }

    /// Writes the message.
    pub fn encode(&self) -> (bytes: Vec<u8>)
        ensures
            bytes@ == Self::message(self.sub_requests@),
    {
        let mut buffer: Vec<u8> = Vec::new();
        buffer.push(FUNCTION_CODE_READ_FILE_RECORD);
        let count: usize = self.sub_requests.len();
        proof {
            vstd::arithmetic::div_mod::lemma_mod_multiples_vanish(
                7 * (count as int / 256),
                7 * (count as int % 256),
                256,
            );
        }
        buffer.push(((count % 256 * 7) % 256) as u8);
        assert(buffer@[1] == (7 * count) % 256);
        let ghost header = buffer@;
        let mut i: usize = 0;
        assert(header =~= header + sub_requests_bytes(self.sub_requests@.take(0)));
        while i < self.sub_requests.len()
            invariant
                i <= self.sub_requests@.len(),
                buffer@ == header + sub_requests_bytes(self.sub_requests@.take(i as int)),
            decreases self.sub_requests@.len() - i,
        {
            let record = self.sub_requests[i];
            assert(self.sub_requests@.take(i + 1).drop_last() =~= self.sub_requests@.take(
                i as int,
            ));
            buffer.push(FILE_RECORD_REFERENCE_TYPE);
            push_u16_be(&mut buffer, record.file_number);
            push_u16_be(&mut buffer, record.record_number);
            push_u16_be(&mut buffer, record.record_length);
            assert(buffer@ =~= header + sub_requests_bytes(self.sub_requests@.take(i + 1)));
            i = i + 1;
        }
        assert(self.sub_requests@.take(i as int) =~= self.sub_requests@);
        assert(buffer@ =~= Self::message(self.sub_requests@));
        buffer
    }
}

/// The contents of file records, as bytes.
#[derive(Debug, Clone, PartialEq, Eq)]
pub struct ReadFileRecordResponse {
    pub records: Vec<Vec<u8>>,
}

/// The bytes of each record.
pub open spec fn record_views(records: Seq<Vec<u8>>) -> Seq<Seq<u8>> {
    Seq::new(records.len(), |i: int| records[i]@)
}

/// The records of a message: each how long it is with its reference type, its
/// reference type, and its bytes.
pub open spec fn records_bytes(records: Seq<Seq<u8>>) -> Seq<u8>
    decreases records.len(),
{
    if records.len() == 0 {
        Seq::empty()
    } else {
        records_bytes(records.drop_last()) + seq![
            ((records.last().len() + 1) % 256) as u8,
            FILE_RECORD_REFERENCE_TYPE,
        ] + records.last()
    }
}

/// The records that `bytes` hold to their end.
pub open spec fn records_parsed(bytes: Seq<u8>) -> Option<Seq<Seq<u8>>>
    decreases bytes.len(),
{
    if bytes.len() == 0 {
        Some(Seq::empty())
    } else if bytes.len() < 2 || bytes[0] == 0 || bytes.len() < 1 + bytes[0] {
        None
    } else {
        match records_parsed(bytes.subrange(1 + bytes[0], bytes.len() as int)) {
            Some(rest) => Some(seq![bytes.subrange(2, 1 + bytes[0])] + rest),
            None => None,
        }
    }
}

impl ReadFileRecordResponse {
    /// The message on the wire.
    pub open spec fn message(records: Seq<Seq<u8>>) -> Seq<u8> {
        seq![FUNCTION_CODE_READ_FILE_RECORD, (records_bytes(records).len() % 256) as u8]
            + records_bytes(records)
    }

    /// The records that `bytes` are as such a message.
    pub open spec fn parsed(bytes: Seq<u8>) -> Result<Seq<Seq<u8>>, DecodeError> {
        if bytes.len() < 2 {
            Err(DecodeError::TooShort)
        } else if bytes[0] != FUNCTION_CODE_READ_FILE_RECORD {
            Err(wrong_function(FUNCTION_CODE_READ_FILE_RECORD, bytes[0]))
        } else if bytes.len() < 2 + bytes[1] {
            Err(DecodeError::TooShort)
        } else {
            match records_parsed(bytes.subrange(2, 2 + bytes[1])) {
                Some(records) => Ok(records),
                None => Err(DecodeError::TooShort),
            }
        }
    }

    /// Writes the message.
    pub fn encode(&self) -> (bytes: Vec<u8>)
        ensures
            bytes@ == Self::message(record_views(self.records@)),
    {
        let mut body: Vec<u8> = Vec::new();
        let ghost records = record_views(self.records@);
        let mut i: usize = 0;
        assert(records.take(0) =~= Seq::<Seq<u8>>::empty());
        while i < self.records.len()
            invariant
                i <= self.records@.len(),
                records == record_views(self.records@),
                body@ == records_bytes(records.take(i as int)),
            decreases self.records@.len() - i,
        {
            let record = &self.records[i];
            assert(records.take(i + 1).drop_last() =~= records.take(i as int));
            body.push(((record.len() % 256 + 1) % 256) as u8);
            body.push(FILE_RECORD_REFERENCE_TYPE);
            push_bytes(&mut body, record.as_slice());
            assert(body@ =~= records_bytes(records.take(i + 1)));
            i = i + 1;
        }
        assert(records.take(i as int) =~= records);
        let mut buffer: Vec<u8> = Vec::new();
        buffer.push(FUNCTION_CODE_READ_FILE_RECORD);
        buffer.push((body.len() % 256) as u8);
        push_bytes(&mut buffer, body.as_slice());
        assert(buffer@ =~= Self::message(records));
        buffer
    }

    /// Reads the message.
    pub fn decode(bytes: &[u8]) -> (decoded: Result<Self, DecodeError>)
        ensures
            decoded matches Ok(response) ==> Self::parsed(bytes@) == Ok::<
                Seq<Seq<u8>>,
                DecodeError,
            >(record_views(response.records@)),
            decoded matches Err(error) ==> Self::parsed(bytes@) == Err::<
                Seq<Seq<u8>>,
                DecodeError,
            >(error),
    {
        if bytes.len() < 2 {
            return Err(DecodeError::TooShort);
        }
        if bytes[0] != FUNCTION_CODE_READ_FILE_RECORD {
            return Err(
                DecodeError::UnexpectedFunctionCode {
                    expected: FUNCTION_CODE_READ_FILE_RECORD,
                    actual: bytes[0],
                },
            );
        }
        let byte_count: usize = bytes[1] as usize;
        if bytes.len() < 2 + byte_count {
            return Err(DecodeError::TooShort);
        }
        let body = vstd::slice::slice_subrange(bytes, 2, 2 + byte_count);
        let ghost whole = records_parsed(body@);
        let mut records: Vec<Vec<u8>> = Vec::new();
        let mut offset: usize = 0;
        proof {
            assert(body@.subrange(0, body@.len() as int) =~= body@);
            assert(record_views(records@) =~= Seq::<Seq<u8>>::empty());
            if let Some(all) = whole {
                assert(record_views(records@) + all =~= all);
            }
        }
        while offset < body.len()
            invariant
                offset <= body@.len(),
                bytes@.len() >= 2 + bytes@[1],
                bytes@[0] == FUNCTION_CODE_READ_FILE_RECORD,
                body@ == bytes@.subrange(2, 2 + bytes@[1]),
                whole == records_parsed(body@),
                ({
                    let rest = records_parsed(body@.subrange(offset as int, body@.len() as int));
                    match (whole, rest) {
                        (Some(all), Some(others)) => record_views(records@) + others == all,
                        (None, None) => true,
                        _ => false,
                    }
                }),
            decreases body@.len() - offset,
        {
            let ghost here = body@.subrange(offset as int, body@.len() as int);
            let ghost done = record_views(records@);
            let length: usize = body[offset] as usize;
            if body.len() - offset < 2 || length == 0 || body.len() - offset - 1 < length {
                return Err(DecodeError::TooShort);
            }
            let record = vstd::slice::slice_to_vec(
                vstd::slice::slice_subrange(body, offset + 2, offset + 1 + length),
            );
            proof {
                assert(here[0] == length);
                assert(here.subrange(2, 1 + here[0]) =~= record@);
                let rest = here.subrange(1 + here[0], here.len() as int);
                assert(rest =~= body@.subrange(offset + 1 + length, body@.len() as int));
                if let Some(others) = records_parsed(rest) {
                    assert(done + (seq![record@] + others) =~= done.push(record@) + others);
                }
            }
            records.push(record);
            assert(record_views(records@) =~= done.push(record@));
            offset = offset + 1 + length;
        }
        proof {
            assert(body@.subrange(offset as int, body@.len() as int) =~= Seq::<u8>::empty());
            assert(record_views(records@) + Seq::<Seq<u8>>::empty() =~= record_views(records@));
        }
        Ok(ReadFileRecordResponse { records })
    }

    /// Reading the message that was written gives the same records back. The
    /// message counts its bytes in a byte, which bounds how long they can be.
    pub proof fn law_round_trip(records: Seq<Seq<u8>>)
        requires
            records_bytes(records).len() <= 255,
        ensures
            Self::parsed(Self::message(records)) == Ok::<Seq<Seq<u8>>, DecodeError>(records),
    {
        let m = Self::message(records);
        assert(m.subrange(2, 2 + m[1]) =~= records_bytes(records));
        lemma_records(records);
    }
}

/// The bytes of records are those of the first and those of the others.
proof fn lemma_records_bytes_first(records: Seq<Seq<u8>>)
    requires
        records.len() > 0,
    ensures
        records_bytes(records) == seq![
            ((records[0].len() + 1) % 256) as u8,
            FILE_RECORD_REFERENCE_TYPE,
        ] + records[0] + records_bytes(records.drop_first()),
    decreases records.len(),
{
    let first = records[0];
    let head = seq![((first.len() + 1) % 256) as u8, FILE_RECORD_REFERENCE_TYPE] + first;
    if records.len() == 1 {
        assert(records.drop_last() =~= Seq::<Seq<u8>>::empty());
        assert(records.drop_first() =~= Seq::<Seq<u8>>::empty());
        assert(records_bytes(records) =~= head + records_bytes(records.drop_first()));
    } else {
        lemma_records_bytes_first(records.drop_last());
        assert(records.drop_last().drop_first() =~= records.drop_first().drop_last());
        assert(records.drop_last()[0] == first);
        assert(records.drop_first().last() == records.last());
        assert(records_bytes(records) =~= head + records_bytes(records.drop_first()));
    }
}

/// The records that were written are read back.
proof fn lemma_records(records: Seq<Seq<u8>>)
    requires
        records_bytes(records).len() <= 255,
    ensures
        records_parsed(records_bytes(records)) == Some(records),
    decreases records.len(),
{
    if records.len() > 0 {
        lemma_records_bytes_first(records);
        let first = records[0];
        let rest = records.drop_first();
        let bytes = records_bytes(records);
        assert(bytes.len() == 2 + first.len() + records_bytes(rest).len());
        lemma_records(rest);
        assert(bytes[0] == first.len() + 1);
        assert(bytes.subrange(2, 1 + bytes[0]) =~= first);
        assert(bytes.subrange(1 + bytes[0], bytes.len() as int) =~= records_bytes(rest));
        assert(seq![first] + rest =~= records);
    } else {
        assert(records =~= Seq::<Seq<u8>>::empty());
    }
}

/// Asks to write one file record.
#[derive(Debug, Clone, PartialEq, Eq)]
pub struct WriteFileRecordRequest {
    pub file_number: u16,
    pub record_number: u16,
    pub record_data: Vec<u8>,
}

impl WriteFileRecordRequest {
    /// The message on the wire. It gives the length of the record in
    /// registers, two bytes each.
    pub open spec fn message(file_number: u16, record_number: u16, data: Seq<u8>) -> Seq<u8> {
        seq![
            FUNCTION_CODE_WRITE_FILE_RECORD,
            ((data.len() + 7) % 256) as u8,
            FILE_RECORD_REFERENCE_TYPE,
        ] + be_bytes(file_number) + be_bytes(record_number) + be_bytes(
            ((data.len() / 2) % 65536) as u16,
        ) + data
    }

    /// Writes the message.
    pub fn encode(&self) -> (bytes: Vec<u8>)
        ensures
            bytes@ == Self::message(self.file_number, self.record_number, self.record_data@),
    {
        let length: usize = self.record_data.len();
        let byte_count: u8 = ((length % 256 + 7) % 256) as u8;
        assert(byte_count == (length + 7) % 256);
        let mut buffer: Vec<u8> = Vec::new();
        buffer.push(FUNCTION_CODE_WRITE_FILE_RECORD);
        buffer.push(byte_count);
        buffer.push(FILE_RECORD_REFERENCE_TYPE);
        let ghost header = buffer@;
        push_u16_be(&mut buffer, self.file_number);
        push_u16_be(&mut buffer, self.record_number);
        push_u16_be(&mut buffer, ((length / 2) % 65536) as u16);
        push_bytes(&mut buffer, self.record_data.as_slice());
        assert(header =~= seq![
            FUNCTION_CODE_WRITE_FILE_RECORD,
            byte_count,
            FILE_RECORD_REFERENCE_TYPE,
        ]);
        assert(buffer@ =~= Self::message(
            self.file_number,
            self.record_number,
            self.record_data@,
        ));
        buffer
    }
}

} // verus!
