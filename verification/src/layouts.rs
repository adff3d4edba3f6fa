//! Where each part of a message stands, byte by byte, and which bytes are taken for which
//! message.

use crate::device::{is_set, lemma_bit_in_bytes, lemma_is_set, lemma_number, number};
use crate::pdu::{
    objects_bytes, records_bytes, sub_requests_bytes, DeviceIdentification, ExceptionResponse,
    FileRecordSubRequest, MaskWriteRegisterRequest, MaskWriteRegisterResponse, ReadCoilsRequest,
    ReadCoilsResponse, ReadDeviceIdentificationRequest, ReadDiscreteInputsRequest,
    ReadDiscreteInputsResponse, ReadFileRecordRequest, ReadFileRecordResponse,
    ReadHoldingRegistersRequest, ReadHoldingRegistersResponse, ReadInputRegistersRequest,
    ReadInputRegistersResponse, ReportServerIdRequest, ReportServerIdResponse,
    WriteFileRecordRequest, WriteMultipleCoilsRequest, WriteMultipleCoilsResponse,
    WriteMultipleRegistersRequest, WriteMultipleRegistersResponse, WriteSingleCoilRequest,
    WriteSingleCoilResponse, WriteSingleRegisterRequest, WriteSingleRegisterResponse,
};
use crate::wire::{be_bytes, packed, unpacked, words_bytes};
use crate::DecodeError;
use vstd::prelude::*;

verus! {

proof fn lemma_two_numbers(code: u8, first: u16, second: u16)
    ensures
        ({
            let message = seq![code] + be_bytes(first) + be_bytes(second);
            &&& message.len() == 5
            &&& message[0] == code
            &&& number(message, 1) == first
            &&& number(message, 3) == second
        }),
{
    lemma_number(first);
    lemma_number(second);
}

/// The request for coils: the code 0x01, the first address and their number, in five
/// bytes. Any bytes that start so are taken for it, others are refused.
pub proof fn law_read_coils_request(message: ReadCoilsRequest, bytes: Seq<u8>)
    ensures
        message.message().len() == 5,
        message.message()[0] == 0x01,
        number(message.message(), 1) == message.starting_address,
        number(message.message(), 3) == message.quantity,
        ReadCoilsRequest::parsed(bytes) matches Ok(read) ==> bytes.len() >= 5 && bytes[0] == 0x01
            && number(bytes, 1) == read.starting_address && number(bytes, 3) == read.quantity,
        bytes.len() < 5 ==> ReadCoilsRequest::parsed(bytes) == Err::<ReadCoilsRequest, DecodeError>(
            DecodeError::TooShort,
        ),
        bytes.len() >= 5 && bytes[0] != 0x01 ==> ReadCoilsRequest::parsed(bytes)
            == Err::<ReadCoilsRequest, DecodeError>(
            DecodeError::UnexpectedFunctionCode { expected: 0x01, actual: bytes[0] },
        ),
        bytes.len() >= 5 && bytes[0] == 0x01 ==> ReadCoilsRequest::parsed(bytes) is Ok,
{
    lemma_two_numbers(0x01, message.starting_address, message.quantity);
}

/// The request for discrete inputs: the code 0x02, the first address and their number,
/// in five bytes. Any bytes that start so are taken for it, others are refused.
pub proof fn law_read_discrete_inputs_request(message: ReadDiscreteInputsRequest, bytes: Seq<u8>)
    ensures
        message.message().len() == 5,
        message.message()[0] == 0x02,
        number(message.message(), 1) == message.starting_address,
        number(message.message(), 3) == message.quantity,
        ReadDiscreteInputsRequest::parsed(bytes) matches Ok(read) ==> bytes.len() >= 5
            && bytes[0] == 0x02
            && number(bytes, 1) == read.starting_address && number(bytes, 3) == read.quantity,
        bytes.len() < 5 ==> ReadDiscreteInputsRequest::parsed(bytes)
            == Err::<ReadDiscreteInputsRequest, DecodeError>(DecodeError::TooShort),
        bytes.len() >= 5 && bytes[0] != 0x02 ==> ReadDiscreteInputsRequest::parsed(bytes)
            == Err::<ReadDiscreteInputsRequest, DecodeError>(
            DecodeError::UnexpectedFunctionCode { expected: 0x02, actual: bytes[0] },
        ),
        bytes.len() >= 5 && bytes[0] == 0x02 ==> ReadDiscreteInputsRequest::parsed(bytes) is Ok,
{
    lemma_two_numbers(0x02, message.starting_address, message.quantity);
}

/// The request for holding registers: the code 0x03, the first address and their
/// number, in five bytes. Any bytes that start so are taken for it, others are refused.
pub proof fn law_read_holding_registers_request(
    message: ReadHoldingRegistersRequest,
    bytes: Seq<u8>,
)
    ensures
        message.message().len() == 5,
        message.message()[0] == 0x03,
        number(message.message(), 1) == message.starting_address,
        number(message.message(), 3) == message.quantity,
        ReadHoldingRegistersRequest::parsed(bytes) matches Ok(read) ==> bytes.len() >= 5
            && bytes[0] == 0x03
            && number(bytes, 1) == read.starting_address && number(bytes, 3) == read.quantity,
        bytes.len() < 5 ==> ReadHoldingRegistersRequest::parsed(bytes)
            == Err::<ReadHoldingRegistersRequest, DecodeError>(DecodeError::TooShort),
        bytes.len() >= 5 && bytes[0] != 0x03 ==> ReadHoldingRegistersRequest::parsed(bytes)
            == Err::<ReadHoldingRegistersRequest, DecodeError>(
            DecodeError::UnexpectedFunctionCode { expected: 0x03, actual: bytes[0] },
        ),
        bytes.len() >= 5 && bytes[0] == 0x03 ==> ReadHoldingRegistersRequest::parsed(bytes) is Ok,
{
    lemma_two_numbers(0x03, message.starting_address, message.quantity);
}

/// The request for input registers: the code 0x04, the first address and their number,
/// in five bytes. Any bytes that start so are taken for it, others are refused.
pub proof fn law_read_input_registers_request(message: ReadInputRegistersRequest, bytes: Seq<u8>)
    ensures
        message.message().len() == 5,
        message.message()[0] == 0x04,
        number(message.message(), 1) == message.starting_address,
        number(message.message(), 3) == message.quantity,
        ReadInputRegistersRequest::parsed(bytes) matches Ok(read) ==> bytes.len() >= 5
            && bytes[0] == 0x04
            && number(bytes, 1) == read.starting_address && number(bytes, 3) == read.quantity,
        bytes.len() < 5 ==> ReadInputRegistersRequest::parsed(bytes)
            == Err::<ReadInputRegistersRequest, DecodeError>(DecodeError::TooShort),
        bytes.len() >= 5 && bytes[0] != 0x04 ==> ReadInputRegistersRequest::parsed(bytes)
            == Err::<ReadInputRegistersRequest, DecodeError>(
            DecodeError::UnexpectedFunctionCode { expected: 0x04, actual: bytes[0] },
        ),
        bytes.len() >= 5 && bytes[0] == 0x04 ==> ReadInputRegistersRequest::parsed(bytes) is Ok,
{
    lemma_two_numbers(0x04, message.starting_address, message.quantity);
}

/// The request to write a register: the code 0x06, its address and its word, in five
/// bytes. Any bytes that start so are taken for it, others are refused.
pub proof fn law_write_single_register_request(message: WriteSingleRegisterRequest, bytes: Seq<u8>)
    ensures
        message.message().len() == 5,
        message.message()[0] == 0x06,
        number(message.message(), 1) == message.register_address,
        number(message.message(), 3) == message.register_value,
        WriteSingleRegisterRequest::parsed(bytes) matches Ok(read) ==> bytes.len() >= 5
            && bytes[0] == 0x06
            && number(bytes, 1) == read.register_address && number(bytes, 3) == read.register_value,
        bytes.len() < 5 ==> WriteSingleRegisterRequest::parsed(bytes)
            == Err::<WriteSingleRegisterRequest, DecodeError>(DecodeError::TooShort),
        bytes.len() >= 5 && bytes[0] != 0x06 ==> WriteSingleRegisterRequest::parsed(bytes)
            == Err::<WriteSingleRegisterRequest, DecodeError>(
            DecodeError::UnexpectedFunctionCode { expected: 0x06, actual: bytes[0] },
        ),
        bytes.len() >= 5 && bytes[0] == 0x06 ==> WriteSingleRegisterRequest::parsed(bytes) is Ok,
{
    lemma_two_numbers(0x06, message.register_address, message.register_value);
}

/// The response to the write of a register: the code 0x06, its address and its word, in
/// five bytes. Any bytes that start so are taken for it, others are refused.
pub proof fn law_write_single_register_response(
    message: WriteSingleRegisterResponse,
    bytes: Seq<u8>,
)
    ensures
        message.message().len() == 5,
        message.message()[0] == 0x06,
        number(message.message(), 1) == message.register_address,
        number(message.message(), 3) == message.register_value,
        WriteSingleRegisterResponse::parsed(bytes) matches Ok(read) ==> bytes.len() >= 5
            && bytes[0] == 0x06
            && number(bytes, 1) == read.register_address && number(bytes, 3) == read.register_value,
        bytes.len() < 5 ==> WriteSingleRegisterResponse::parsed(bytes)
            == Err::<WriteSingleRegisterResponse, DecodeError>(DecodeError::TooShort),
        bytes.len() >= 5 && bytes[0] != 0x06 ==> WriteSingleRegisterResponse::parsed(bytes)
            == Err::<WriteSingleRegisterResponse, DecodeError>(
            DecodeError::UnexpectedFunctionCode { expected: 0x06, actual: bytes[0] },
        ),
        bytes.len() >= 5 && bytes[0] == 0x06 ==> WriteSingleRegisterResponse::parsed(bytes) is Ok,
{
    lemma_two_numbers(0x06, message.register_address, message.register_value);
}

/// The response to the write of coils: the code 0x0F, the first address and their
/// number, in five bytes. Any bytes that start so are taken for it, others are refused.
pub proof fn law_write_multiple_coils_response(message: WriteMultipleCoilsResponse, bytes: Seq<u8>)
    ensures
        message.message().len() == 5,
        message.message()[0] == 0x0F,
        number(message.message(), 1) == message.starting_address,
        number(message.message(), 3) == message.quantity,
        WriteMultipleCoilsResponse::parsed(bytes) matches Ok(read) ==> bytes.len() >= 5
            && bytes[0] == 0x0F
            && number(bytes, 1) == read.starting_address && number(bytes, 3) == read.quantity,
        bytes.len() < 5 ==> WriteMultipleCoilsResponse::parsed(bytes)
            == Err::<WriteMultipleCoilsResponse, DecodeError>(DecodeError::TooShort),
        bytes.len() >= 5 && bytes[0] != 0x0F ==> WriteMultipleCoilsResponse::parsed(bytes)
            == Err::<WriteMultipleCoilsResponse, DecodeError>(
            DecodeError::UnexpectedFunctionCode { expected: 0x0F, actual: bytes[0] },
        ),
        bytes.len() >= 5 && bytes[0] == 0x0F ==> WriteMultipleCoilsResponse::parsed(bytes) is Ok,
{
    lemma_two_numbers(0x0F, message.starting_address, message.quantity);
}

/// The response to the write of registers: the code 0x10, the first address and their
/// number, in five bytes. Any bytes that start so are taken for it, others are refused.
pub proof fn law_write_multiple_registers_response(
    message: WriteMultipleRegistersResponse,
    bytes: Seq<u8>,
)
    ensures
        message.message().len() == 5,
        message.message()[0] == 0x10,
        number(message.message(), 1) == message.starting_address,
        number(message.message(), 3) == message.quantity,
        WriteMultipleRegistersResponse::parsed(bytes) matches Ok(read) ==> bytes.len() >= 5
            && bytes[0] == 0x10
            && number(bytes, 1) == read.starting_address && number(bytes, 3) == read.quantity,
        bytes.len() < 5 ==> WriteMultipleRegistersResponse::parsed(bytes)
            == Err::<WriteMultipleRegistersResponse, DecodeError>(DecodeError::TooShort),
        bytes.len() >= 5 && bytes[0] != 0x10 ==> WriteMultipleRegistersResponse::parsed(bytes)
            == Err::<WriteMultipleRegistersResponse, DecodeError>(
            DecodeError::UnexpectedFunctionCode { expected: 0x10, actual: bytes[0] },
        ),
        bytes.len() >= 5 && bytes[0] == 0x10
            ==> WriteMultipleRegistersResponse::parsed(bytes) is Ok,
{
    lemma_two_numbers(0x10, message.starting_address, message.quantity);
}

/// The request to write a coil: the code 0x05, its address, and 0xFF00 for on or 0 for
/// off, in five bytes. Any bytes that start so are taken for it; another value is
/// refused.
pub proof fn law_write_single_coil_request(message: WriteSingleCoilRequest, bytes: Seq<u8>)
    ensures
        message.message().len() == 5,
        message.message()[0] == 0x05,
        number(message.message(), 1) == message.coil_address,
        number(message.message(), 3) == (if message.coil_value {
            0xFF00int
        } else {
            0int
        }),
        WriteSingleCoilRequest::parsed(bytes) is Ok <==> bytes.len() >= 5 && bytes[0] == 0x05
            && (number(bytes, 3)
            == 0xFF00 || number(bytes, 3) == 0),
        WriteSingleCoilRequest::parsed(bytes) matches Ok(read) ==> number(bytes, 1)
            == read.coil_address
            && read.coil_value == (number(bytes, 3) == 0xFF00),
        bytes.len() >= 5 && bytes[0] == 0x05 && number(bytes, 3) != 0xFF00 && number(bytes, 3) != 0
            ==> WriteSingleCoilRequest::parsed(bytes) == Err::<WriteSingleCoilRequest, DecodeError>(
            DecodeError::InvalidCoilValue { actual: number(bytes, 3) as u16 },
        ),
        bytes.len() >= 5 && bytes[0] != 0x05 ==> WriteSingleCoilRequest::parsed(bytes)
            == Err::<WriteSingleCoilRequest, DecodeError>(
            DecodeError::UnexpectedFunctionCode { expected: 0x05, actual: bytes[0] },
        ),
{
    lemma_two_numbers(0x05, message.coil_address, crate::pdu::coil_word(message.coil_value));
}

/// The response to the write of a coil: the code 0x05, its address, and 0xFF00 for on
/// or 0 for off, in five bytes. Any bytes that start so are taken for it; another value
/// is refused.
pub proof fn law_write_single_coil_response(message: WriteSingleCoilResponse, bytes: Seq<u8>)
    ensures
        message.message().len() == 5,
        message.message()[0] == 0x05,
        number(message.message(), 1) == message.coil_address,
        number(message.message(), 3) == (if message.coil_value {
            0xFF00int
        } else {
            0int
        }),
        WriteSingleCoilResponse::parsed(bytes) is Ok <==> bytes.len() >= 5 && bytes[0] == 0x05
            && (number(bytes, 3)
            == 0xFF00 || number(bytes, 3) == 0),
        WriteSingleCoilResponse::parsed(bytes) matches Ok(read) ==> number(bytes, 1)
            == read.coil_address
            && read.coil_value == (number(bytes, 3) == 0xFF00),
        bytes.len() >= 5 && bytes[0] == 0x05 && number(bytes, 3) != 0xFF00 && number(bytes, 3) != 0
            ==> WriteSingleCoilResponse::parsed(bytes)
                == Err::<WriteSingleCoilResponse, DecodeError>(
            DecodeError::InvalidCoilValue { actual: number(bytes, 3) as u16 },
        ),
        bytes.len() >= 5 && bytes[0] != 0x05 ==> WriteSingleCoilResponse::parsed(bytes)
            == Err::<WriteSingleCoilResponse, DecodeError>(
            DecodeError::UnexpectedFunctionCode { expected: 0x05, actual: bytes[0] },
        ),
{
    lemma_two_numbers(0x05, message.coil_address, crate::pdu::coil_word(message.coil_value));
}

/// The request to write some bits of a register: the code 0x16, its address and the two
/// masks, in seven bytes. Any bytes that start so are taken for it.
pub proof fn law_mask_write_register_request(message: MaskWriteRegisterRequest, bytes: Seq<u8>)
    ensures
        message.message().len() == 7,
        message.message()[0] == 0x16,
        number(message.message(), 1) == message.reference_address,
        number(message.message(), 3) == message.and_mask,
        number(message.message(), 5) == message.or_mask,
        MaskWriteRegisterRequest::parsed(bytes) is Ok <==> bytes.len() >= 7 && bytes[0] == 0x16,
        MaskWriteRegisterRequest::parsed(bytes) matches Ok(read) ==> number(bytes, 1)
            == read.reference_address
            && number(bytes, 3) == read.and_mask && number(bytes, 5) == read.or_mask,
        bytes.len() >= 7 && bytes[0] != 0x16 ==> MaskWriteRegisterRequest::parsed(bytes)
            == Err::<MaskWriteRegisterRequest, DecodeError>(
            DecodeError::UnexpectedFunctionCode { expected: 0x16, actual: bytes[0] },
        ),
{
    lemma_number(message.reference_address);
    lemma_number(message.and_mask);
    lemma_number(message.or_mask);
}

/// The response to the write of some bits of a register: the code 0x16, its address and
/// the two masks, in seven bytes. Any bytes that start so are taken for it.
pub proof fn law_mask_write_register_response(message: MaskWriteRegisterResponse, bytes: Seq<u8>)
    ensures
        message.message().len() == 7,
        message.message()[0] == 0x16,
        number(message.message(), 1) == message.reference_address,
        number(message.message(), 3) == message.and_mask,
        number(message.message(), 5) == message.or_mask,
        MaskWriteRegisterResponse::parsed(bytes) is Ok <==> bytes.len() >= 7 && bytes[0] == 0x16,
        MaskWriteRegisterResponse::parsed(bytes) matches Ok(read) ==> number(bytes, 1)
            == read.reference_address
            && number(bytes, 3) == read.and_mask && number(bytes, 5) == read.or_mask,
        bytes.len() >= 7 && bytes[0] != 0x16 ==> MaskWriteRegisterResponse::parsed(bytes)
            == Err::<MaskWriteRegisterResponse, DecodeError>(
            DecodeError::UnexpectedFunctionCode { expected: 0x16, actual: bytes[0] },
        ),
{
    lemma_number(message.reference_address);
    lemma_number(message.and_mask);
    lemma_number(message.or_mask);
}

proof fn lemma_words_message(code: u8, words: Seq<u16>, k: int)
    requires
        words.len() <= 127,
        0 <= k < words.len(),
    ensures
        ({
            let message = seq![code, ((2 * words.len()) % 256) as u8] + words_bytes(words);
            &&& message.len() == 2 + 2 * words.len()
            &&& message[0] == code
            &&& message[1] == 2 * words.len()
            &&& number(message, 2 + 2 * k) == words[k]
        }),
{
    let message = seq![code, ((2 * words.len()) % 256) as u8] + words_bytes(words);
    assert((2 * k) % 2 == 0 && (2 * k) / 2 == k);
    assert((2 * k + 1) % 2 == 1 && (2 * k + 1) / 2 == k);
    assert(message[2 + 2 * k] == words_bytes(words)[2 * k]);
    assert(message[3 + 2 * k] == words_bytes(words)[2 * k + 1]);
}

/// The response with holding registers: the code 0x03, twice the number of words, and the words.
pub proof fn law_read_holding_registers_response(words: Seq<u16>, k: int)
    requires
        words.len() <= 127,
        0 <= k < words.len(),
    ensures
        ReadHoldingRegistersResponse::message(words).len() == 2 + 2 * words.len(),
        ReadHoldingRegistersResponse::message(words)[0] == 0x03,
        ReadHoldingRegistersResponse::message(words)[1] == 2 * words.len(),
        number(ReadHoldingRegistersResponse::message(words), 2 + 2 * k) == words[k],
{
    lemma_words_message(0x03, words, k);
}

/// Bytes are taken for it where they start with the code 0x03 and an even number, and
/// are at least that many; what is read of them is as many words as half that number.
pub proof fn law_read_holding_registers_response_is_read(bytes: Seq<u8>, k: int)
    ensures
        ReadHoldingRegistersResponse::parsed(bytes) is Ok <==> bytes.len() >= 2 && bytes[0]
            == 0x03 && bytes[1] % 2 == 0
            && bytes.len() >= 2 + bytes[1],
        ReadHoldingRegistersResponse::parsed(bytes) matches Ok(words) ==> 2 * words.len()
            == bytes[1] && (0 <= k
            < words.len() ==> words[k] == number(bytes, 2 + 2 * k)),
        bytes.len() >= 2 && bytes[0] != 0x03 ==> ReadHoldingRegistersResponse::parsed(bytes)
            == Err::<
            Seq<u16>,
            DecodeError,
        >(DecodeError::UnexpectedFunctionCode { expected: 0x03, actual: bytes[0] }),
{
    if let Ok(words) = ReadHoldingRegistersResponse::parsed(bytes) {
        let body = bytes.subrange(2, 2 + bytes[1]);
        if 0 <= k < words.len() {
            assert(body[2 * k] == bytes[2 + 2 * k]);
            assert(body[2 * k + 1] == bytes[3 + 2 * k]);
        }
    }
}

/// The response with input registers: the code 0x04, twice the number of words, and the words.
pub proof fn law_read_input_registers_response(words: Seq<u16>, k: int)
    requires
        words.len() <= 127,
        0 <= k < words.len(),
    ensures
        ReadInputRegistersResponse::message(words).len() == 2 + 2 * words.len(),
        ReadInputRegistersResponse::message(words)[0] == 0x04,
        ReadInputRegistersResponse::message(words)[1] == 2 * words.len(),
        number(ReadInputRegistersResponse::message(words), 2 + 2 * k) == words[k],
{
    lemma_words_message(0x04, words, k);
}

/// Bytes are taken for it where they start with the code 0x04 and an even number, and
/// are at least that many; what is read of them is as many words as half that number.
pub proof fn law_read_input_registers_response_is_read(bytes: Seq<u8>, k: int)
    ensures
        ReadInputRegistersResponse::parsed(bytes) is Ok <==> bytes.len() >= 2 && bytes[0]
            == 0x04 && bytes[1] % 2 == 0
            && bytes.len() >= 2 + bytes[1],
        ReadInputRegistersResponse::parsed(bytes) matches Ok(words) ==> 2 * words.len()
            == bytes[1] && (0 <= k
            < words.len() ==> words[k] == number(bytes, 2 + 2 * k)),
        bytes.len() >= 2 && bytes[0] != 0x04 ==> ReadInputRegistersResponse::parsed(bytes) == Err::<
            Seq<u16>,
            DecodeError,
        >(DecodeError::UnexpectedFunctionCode { expected: 0x04, actual: bytes[0] }),
{
    if let Ok(words) = ReadInputRegistersResponse::parsed(bytes) {
        let body = bytes.subrange(2, 2 + bytes[1]);
        if 0 <= k < words.len() {
            assert(body[2 * k] == bytes[2 + 2 * k]);
            assert(body[2 * k + 1] == bytes[3 + 2 * k]);
        }
    }
}

proof fn lemma_bits_in(code: u8, bytes: Seq<u8>, bits: Seq<bool>, k: int)
    requires
        bits.len() <= 2040,
        bytes.len() == (bits.len() + 7) / 8,
        unpacked(bytes).take(bits.len() as int) == bits,
        0 <= k < bits.len(),
    ensures
        ({
            let message = seq![code, ((bits.len() + 7) / 8 % 256) as u8] + bytes;
            &&& message.len() == 2 + (bits.len() + 7) / 8
            &&& message[0] == code
            &&& message[1] == (bits.len() + 7) / 8
            &&& is_set(message[2 + k / 8], k % 8) == bits[k]
        }),
{
    let message = seq![code, ((bits.len() + 7) / 8 % 256) as u8] + bytes;
    lemma_bit_in_bytes(bytes, bits, k);
    assert(message[2 + k / 8] == bytes[k / 8]);
}

/// Where a response that carries bits has each of them.
#[verifier::opaque]
pub open spec fn carries_bit(message: Seq<u8>, code: u8, bits: Seq<bool>, k: int) -> bool {
    &&& message.len() == 2 + (bits.len() + 7) / 8
    &&& message[0] == code
    &&& message[1] == (bits.len() + 7) / 8
    &&& is_set(message[2 + k / 8], k % 8) == bits[k]
}

proof fn lemma_bits_carried(code: u8, bytes: Seq<u8>, bits: Seq<bool>, k: int)
    requires
        bits.len() <= 2040,
        bytes.len() == (bits.len() + 7) / 8,
        unpacked(bytes).take(bits.len() as int) == bits,
        0 <= k < bits.len(),
    ensures
        carries_bit(seq![code, ((bits.len() + 7) / 8 % 256) as u8] + bytes, code, bits, k),
{
    reveal(carries_bit);
    lemma_bits_in(code, bytes, bits, k);
}

/// The response with coils: the code 0x01, how many bytes the bits fill, and the bits,
/// the first one lowest in the first byte.
pub proof fn law_read_coils_response(bits: Seq<bool>, k: int)
    requires
        bits.len() <= 2040,
        0 <= k < bits.len(),
    ensures
        carries_bit(ReadCoilsResponse::message(bits), 0x01, bits, k),
{
    crate::device::lemma_packed(bits);
    lemma_bits_carried(0x01, packed(bits), bits, k);
}

/// Bytes are taken for it where they start with the code 0x01 and a number, and are at
/// least that many; what is read of them is eight bits of each.
pub proof fn law_read_coils_response_is_read(bytes: Seq<u8>, k: int)
    ensures
        ReadCoilsResponse::parsed(bytes) is Ok <==> bytes.len() >= 2 && bytes[0] == 0x01
            && bytes.len() >= 2
            + bytes[1],
        ReadCoilsResponse::parsed(bytes) matches Ok(bits) ==> bits.len() == 8 * bytes[1] && (0
            <= k < bits.len()
            ==> bits[k] == is_set(bytes[2 + k / 8], k % 8)),
        bytes.len() >= 2 && bytes[0] != 0x01 ==> ReadCoilsResponse::parsed(bytes) == Err::<
            Seq<bool>,
            DecodeError,
        >(DecodeError::UnexpectedFunctionCode { expected: 0x01, actual: bytes[0] }),
{
    if let Ok(bits) = ReadCoilsResponse::parsed(bytes) {
        let body = bytes.subrange(2, 2 + bytes[1]);
        if 0 <= k < bits.len() {
            assert(body[k / 8] == bytes[2 + k / 8]);
            lemma_is_set(bytes[2 + k / 8], k % 8);
        }
    }
}

/// The response with discrete inputs: the code 0x02, how many bytes the bits fill, and
/// the bits, the first one lowest in the first byte.
pub proof fn law_read_discrete_inputs_response(bits: Seq<bool>, k: int)
    requires
        bits.len() <= 2040,
        0 <= k < bits.len(),
    ensures
        carries_bit(ReadDiscreteInputsResponse::message(bits), 0x02, bits, k),
{
    crate::device::lemma_packed(bits);
    lemma_bits_carried(0x02, packed(bits), bits, k);
}

/// Bytes are taken for it where they start with the code 0x02 and a number, and are at
/// least that many; what is read of them is eight bits of each.
pub proof fn law_read_discrete_inputs_response_is_read(bytes: Seq<u8>, k: int)
    ensures
        ReadDiscreteInputsResponse::parsed(bytes) is Ok <==> bytes.len() >= 2 && bytes[0]
            == 0x02 && bytes.len() >= 2
            + bytes[1],
        ReadDiscreteInputsResponse::parsed(bytes) matches Ok(bits) ==> bits.len()
            == 8 * bytes[1] && (0 <= k < bits.len()
            ==> bits[k] == is_set(bytes[2 + k / 8], k % 8)),
        bytes.len() >= 2 && bytes[0] != 0x02 ==> ReadDiscreteInputsResponse::parsed(bytes) == Err::<
            Seq<bool>,
            DecodeError,
        >(DecodeError::UnexpectedFunctionCode { expected: 0x02, actual: bytes[0] }),
{
    if let Ok(bits) = ReadDiscreteInputsResponse::parsed(bytes) {
        let body = bytes.subrange(2, 2 + bytes[1]);
        if 0 <= k < bits.len() {
            assert(body[k / 8] == bytes[2 + k / 8]);
            lemma_is_set(bytes[2 + k / 8], k % 8);
        }
    }
}

/// Bytes are taken for a request to write coils where they start with the code 0x0F, and
/// count as many bytes as their number of coils fills, and are at least that many; what is
/// read of them is that number of bits.
pub proof fn law_write_multiple_coils_request_is_read(bytes: Seq<u8>, k: int)
    ensures
        WriteMultipleCoilsRequest::parsed(bytes) is Ok <==> bytes.len() >= 6 && bytes[0] == 0x0F
            && bytes[5] == (number(bytes, 3) + 7) / 8 && bytes.len() >= 6 + bytes[5],
        WriteMultipleCoilsRequest::parsed(bytes) matches Ok((start, bits)) ==> start == number(
            bytes,
            1,
        ) && bits.len() == number(bytes, 3) && (0 <= k < bits.len() ==> bits[k] == is_set(
            bytes[6 + k / 8],
            k % 8,
        )),
        bytes.len() >= 6 && bytes[0] == 0x0F && bytes[5] != (number(bytes, 3) + 7) / 8
            ==> WriteMultipleCoilsRequest::parsed(bytes) == Err::<(u16, Seq<bool>), DecodeError>(
            DecodeError::QuantityByteCountMismatch {
                quantity: number(bytes, 3) as u16,
                byte_count: bytes[5],
            },
        ),
{
    if let Ok((start, bits)) = WriteMultipleCoilsRequest::parsed(bytes) {
        let body = bytes.subrange(6, 6 + bytes[5]);
        assert(bits.len() == number(bytes, 3));
        if 0 <= k < bits.len() {
            assert(bits[k] == unpacked(body)[k]);
            assert(body[k / 8] == bytes[6 + k / 8]);
            lemma_is_set(bytes[6 + k / 8], k % 8);
        }
    }
}

/// Bytes are taken for a request to write registers where they start with the code 0x10,
/// count an even number of bytes, and are at least that many; what is read of them is
/// half as many words.
pub proof fn law_write_multiple_registers_request_is_read(bytes: Seq<u8>, k: int)
    ensures
        WriteMultipleRegistersRequest::parsed(bytes) is Ok <==> bytes.len() >= 6 && bytes[0]
            == 0x10 && bytes[5] % 2 == 0 && bytes.len() >= 6 + bytes[5],
        WriteMultipleRegistersRequest::parsed(bytes) matches Ok((start, words)) ==> start
            == number(bytes, 1) && 2 * words.len() == bytes[5] && (0 <= k < words.len()
            ==> words[k] == number(bytes, 6 + 2 * k)),
{
    if let Ok((start, words)) = WriteMultipleRegistersRequest::parsed(bytes) {
        let body = bytes.subrange(6, 6 + bytes[5]);
        if 0 <= k < words.len() {
            assert(body[2 * k] == bytes[6 + 2 * k]);
            assert(body[2 * k + 1] == bytes[7 + 2 * k]);
        }
    }
}

/// An exception is a code with its highest bit set and the number of the exception; any
/// two bytes of which the first has its highest bit set are taken for one.
pub proof fn law_exception_response(message: ExceptionResponse, bytes: Seq<u8>)
    ensures
        message.message().len() == 2,
        message.message()[0] >= 128,
        message.message()[0] % 128 == message.function_code % 128,
        message.message()[1] == message.exception_code,
        ExceptionResponse::parsed(bytes) is Ok <==> bytes.len() >= 2 && bytes[0] >= 128,
        ExceptionResponse::parsed(bytes) matches Ok(read) ==> read.function_code + 128 == bytes[0]
            && read.exception_code == bytes[1],
        bytes.len() >= 2 && bytes[0] < 128 ==> ExceptionResponse::parsed(bytes) == Err::<
            ExceptionResponse,
            DecodeError,
        >(DecodeError::NotAnExceptionResponse { function_code: bytes[0] }),
{
}

/// The request for a server's name is the code 0x11 alone, and whatever starts with it is
/// taken for it.
pub proof fn law_report_server_id_request(bytes: Seq<u8>)
    ensures
        ReportServerIdRequest::message() == seq![0x11u8],
        ReportServerIdRequest::parsed(bytes) is Ok <==> bytes.len() >= 1 && bytes[0] == 0x11,
{
}

/// The response with a server's name: the code 0x11, how many bytes follow, the name, and
/// 0xFF where the server runs or 0 where it does not.
pub proof fn law_report_server_id_response(name: Seq<u8>, running: bool, k: int)
    requires
        name.len() <= 254,
    ensures
        ({
            let message = ReportServerIdResponse::message(name, running);
            &&& message.len() == 3 + name.len()
            &&& message[0] == 0x11
            &&& message[1] == 1 + name.len()
            &&& 0 <= k < name.len() ==> message[2 + k] == name[k]
            &&& message[message.len() - 1] == (if running {
                0xFFu8
            } else {
                0u8
            })
        }),
{
}

/// Bytes are taken for it where they start with the code 0x11 and a number that is not 0,
/// and are at least that many; the last of these says whether the server runs, those
/// before it are its name.
pub proof fn law_report_server_id_response_is_read(bytes: Seq<u8>, k: int)
    ensures
        ReportServerIdResponse::parsed(bytes) is Ok <==> bytes.len() >= 2 && bytes[0] == 0x11
            && bytes[1] > 0 && bytes.len() >= 2 + bytes[1],
        ReportServerIdResponse::parsed(bytes) matches Ok((name, running)) ==> name.len() + 1
            == bytes[1] && (0 <= k < name.len() ==> name[k] == bytes[2 + k]) && running == (bytes[1
            + bytes[1]] != 0),
{
}

/// The request for identification: the codes 0x2B and 0x0E, which kind, and from which
/// object on. Any bytes that start so are taken for it.
pub proof fn law_read_device_identification_request(
    message: ReadDeviceIdentificationRequest,
    bytes: Seq<u8>,
)
    ensures
        message.message() == seq![0x2Bu8, 0x0Eu8, message.read_device_id_code, message.object_id],
        ReadDeviceIdentificationRequest::parsed(bytes) is Ok <==> bytes.len() >= 4 && bytes[0]
            == 0x2B && bytes[1] == 0x0E,
        ReadDeviceIdentificationRequest::parsed(bytes) matches Ok(read)
            ==> read.read_device_id_code == bytes[2] && read.object_id == bytes[3],
        bytes.len() >= 4 && bytes[0] == 0x2B && bytes[1] != 0x0E
            ==> ReadDeviceIdentificationRequest::parsed(bytes) == Err::<
            ReadDeviceIdentificationRequest,
            DecodeError,
        >(DecodeError::UnexpectedMeiType { expected: 0x0E, actual: bytes[1] }),
{
}

/// The response with identification: the codes 0x2B and 0x0E, which kind, how much the
/// device conforms to, 0xFF where more follows or 0, the next object, how many objects
/// there are, and the objects.
pub proof fn law_device_identification(page: DeviceIdentification)
    requires
        page.objects.len() <= 255,
    ensures
        ({
            let message = page.message();
            &&& message.len() >= 7
            &&& message.take(7) == seq![
                0x2Bu8,
                0x0Eu8,
                page.read_device_id_code,
                page.conformity_level,
                if page.more_follows {
                    0xFFu8
                } else {
                    0u8
                },
                page.next_object_id,
                page.objects.len() as u8,
            ]
        }),
{
    assert(page.message().take(7) =~= seq![
        0x2Bu8,
        0x0Eu8,
        page.read_device_id_code,
        page.conformity_level,
        if page.more_follows {
            0xFFu8
        } else {
            0u8
        },
        page.next_object_id,
        page.objects.len() as u8,
    ]);
}

/// Bytes that are taken for identification start with the codes 0x2B and 0x0E; the other
/// fields follow, and as many objects as are counted.
pub proof fn law_device_identification_is_read(bytes: Seq<u8>)
    ensures
        DeviceIdentification::parsed(bytes) matches Ok(page) ==> bytes.len() >= 7 && bytes[0]
            == 0x2B && bytes[1] == 0x0E && page.read_device_id_code == bytes[2]
            && page.conformity_level == bytes[3] && page.more_follows == (bytes[4] != 0)
            && page.next_object_id == bytes[5] && page.objects.len() == bytes[6],
{
    if let Ok(page) = DeviceIdentification::parsed(bytes) {
        lemma_object_count(bytes.subrange(7, bytes.len() as int), bytes[6] as nat);
    }
}

proof fn lemma_object_count(bytes: Seq<u8>, count: nat)
    ensures
        crate::pdu::objects_parsed(bytes, count) matches Some(objects) ==> objects.len() == count,
    decreases count,
{
    if count > 0 && !(bytes.len() < 2 || bytes.len() < 2 + bytes[1]) {
        lemma_object_count(bytes.subrange(2 + bytes[1], bytes.len() as int), (count - 1) as nat);
    }
}

/// An object is its id, its length and its bytes, and stands in front of those that come
/// behind it.
pub proof fn law_objects_stand_in_order(
    front: Seq<(u8, Seq<u8>)>,
    id: u8,
    value: Seq<u8>,
)
    requires
        value.len() <= 255,
    ensures
        objects_bytes(Seq::<(u8, Seq<u8>)>::empty()) == Seq::<u8>::empty(),
        objects_bytes(front.push((id, value))) == objects_bytes(front) + seq![
            id,
            value.len() as u8,
        ] + value,
{
    assert(front.push((id, value)).drop_last() =~= front);
}

/// The request for file records: the code 0x14, seven times their number, and of each the
/// type 6, the file, the record and its length in registers.
pub proof fn law_read_file_record_request(
    front: Seq<FileRecordSubRequest>,
    last: FileRecordSubRequest,
)
    requires
        front.len() < 36,
    ensures
        ({
            let before = ReadFileRecordRequest::message(front);
            let message = ReadFileRecordRequest::message(front.push(last));
            let at = before.len() as int;
            &&& ReadFileRecordRequest::message(Seq::empty()) == seq![0x14u8, 0u8]
            &&& message.len() == at + 7
            &&& message[0] == 0x14
            &&& message[1] == 7 * (front.len() + 1)
            &&& message.subrange(2, at) == before.skip(2)
            &&& message[at] == 6
            &&& number(message, at + 1) == last.file_number
            &&& number(message, at + 3) == last.record_number
            &&& number(message, at + 5) == last.record_length
        }),
{
    let before = ReadFileRecordRequest::message(front);
    let message = ReadFileRecordRequest::message(front.push(last));
    let at = before.len() as int;
    assert(front.push(last).drop_last() =~= front);
    lemma_number(last.file_number);
    lemma_number(last.record_number);
    lemma_number(last.record_length);
    assert(sub_requests_bytes(Seq::<FileRecordSubRequest>::empty()) =~= Seq::<u8>::empty());
    assert(ReadFileRecordRequest::message(Seq::empty()) =~= seq![0x14u8, 0u8]);
    assert(message.subrange(2, at) =~= before.skip(2));
    let body = last.message();
    assert(forall|k: int| 0 <= k < 7 ==> message[at + k] == #[trigger] body[k]);
    assert(body =~= seq![6u8] + be_bytes(last.file_number) + be_bytes(last.record_number)
        + be_bytes(last.record_length));
    assert(message[at] == body[0]);
    assert(message[at + 1] == body[1] && message[at + 2] == body[2]);
    assert(message[at + 3] == body[3] && message[at + 4] == body[4]);
    assert(message[at + 5] == body[5] && message[at + 6] == body[6]);
}

/// The response with file records: the code 0x14, how many bytes follow, and of each
/// record its length and one, the type 6, and its bytes.
pub proof fn law_read_file_record_response(front: Seq<Seq<u8>>, last: Seq<u8>)
    requires
        records_bytes(front).len() + 2 + last.len() <= 255,
    ensures
        ({
            let before = ReadFileRecordResponse::message(front);
            let message = ReadFileRecordResponse::message(front.push(last));
            &&& ReadFileRecordResponse::message(Seq::empty()) == seq![0x14u8, 0u8]
            &&& message[0] == 0x14
            &&& message[1] == message.len() - 2
            &&& message.skip(2) == before.skip(2) + seq![(last.len() + 1) as u8, 6u8] + last
        }),
{
    let before = ReadFileRecordResponse::message(front);
    let message = ReadFileRecordResponse::message(front.push(last));
    assert(front.push(last).drop_last() =~= front);
    assert(records_bytes(Seq::<Seq<u8>>::empty()) =~= Seq::<u8>::empty());
    assert(ReadFileRecordResponse::message(Seq::empty()) =~= seq![0x14u8, 0u8]);
    assert(message.skip(2) =~= before.skip(2) + seq![(last.len() + 1) as u8, 6u8] + last);
}

/// The request to write a file record: the code 0x15, how many bytes follow, the type 6,
/// the file, the record, its length in registers, and its bytes.
pub proof fn law_write_file_record_request(
    file_number: u16,
    record_number: u16,
    data: Seq<u8>,
    k: int,
)
    requires
        data.len() <= 248,
    ensures
        ({
            let message = WriteFileRecordRequest::message(file_number, record_number, data);
            &&& message.len() == 9 + data.len()
            &&& message[0] == 0x15
            &&& message[1] == 7 + data.len()
            &&& message[2] == 6
            &&& number(message, 3) == file_number
            &&& number(message, 5) == record_number
            &&& number(message, 7) == data.len() / 2
            &&& 0 <= k < data.len() ==> message[9 + k] == data[k]
        }),
{
    lemma_number(file_number);
    lemma_number(record_number);
    lemma_number((data.len() / 2) as u16);
    let message = WriteFileRecordRequest::message(file_number, record_number, data);
    assert(message[3] == be_bytes(file_number)[0]);
    assert(message[4] == be_bytes(file_number)[1]);
    assert(message[5] == be_bytes(record_number)[0]);
    assert(message[6] == be_bytes(record_number)[1]);
    assert(message[7] == be_bytes((data.len() / 2) as u16)[0]);
    assert(message[8] == be_bytes((data.len() / 2) as u16)[1]);
}

} // verus!
