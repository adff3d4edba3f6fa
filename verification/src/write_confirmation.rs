//! Turning a write into a request, and the device's answer into its outcome.

use crate::device_description::{CoilDescription, MemLayout, RegisterDescription};
use crate::numbers;
use crate::pdu::{
    ExceptionResponse, WriteMultipleCoilsRequest, WriteMultipleRegistersRequest,
    WriteSingleCoilRequest, WriteSingleRegisterRequest,
};
use crate::register_encoding::{law_word_count, register_value_to_words, value_words};
use crate::text::{holds, lemma_holds};
use crate::values::{CoilValue, Outcome, RegisterValue, WriteStatus};
use crate::DecodeError;
use vstd::prelude::*;
use vstd::string::StringExecFns;

verus! {

/// The request that writes `value` to `register`, which has to take one word
/// and to be of the value's type; or why there is none.
pub open spec fn write_request(
    register: RegisterDescription,
    value: RegisterValue,
    mem_layout: MemLayout,
) -> Result<Seq<u8>, Seq<char>> {
    if register.data_type.width() != 1 {
        Err(
            "register "@ + register.name@ + ": "@ + register.data_type.label() + " needs "@
                + numbers::decimal(register.data_type.width())
                + " registers, Write Single Register can't carry it"@,
        )
    } else if value.kind() != register.data_type {
        Err(mismatch(register.name@, register, value))
    } else {
        Ok(
            (WriteSingleRegisterRequest {
                register_address: register.address,
                register_value: value_words(value, mem_layout)[0],
            }).message(),
        )
    }
}

/// That a value has another type than the register `name`.
pub open spec fn mismatch(
    name: Seq<char>,
    register: RegisterDescription,
    value: RegisterValue,
) -> Seq<char> {
    "register "@ + name + ": expected a "@ + register.data_type.label() + " value but got a "@
        + value.kind().label() + " one"@
}

/// That a value has another type than the register `name`.
pub(crate) fn mismatch_text(
    name: &str,
    register: &RegisterDescription,
    value: &RegisterValue,
) -> (text: String)
    ensures
        text@ == mismatch(name@, *register, *value),
{
    let mut text = String::from_str("register ");
    text.append(name);
    text.append(": expected a ");
    text.append(register.data_type.name());
    text.append(" value but got a ");
    text.append(value.data_type().name());
    text.append(" one");
    assert(text@ =~= mismatch(name@, *register, *value));
    text
}

/// Writes the request that writes `value` to `register`: a Write Single
/// Register request, which carries one word.
pub fn encode_write_request(
    register: &RegisterDescription,
    value: RegisterValue,
    mem_layout: MemLayout,
) -> (request: Result<Vec<u8>, String>)
    ensures
        request matches Ok(bytes) ==> write_request(*register, value, mem_layout) == Ok::<
            Seq<u8>,
            Seq<char>,
        >(bytes@),
        request matches Err(reason) ==> write_request(*register, value, mem_layout) == Err::<
            Seq<u8>,
            Seq<char>,
        >(reason@),
{
    if register.data_type.register_count() != 1 {
        let mut reason = String::from_str("register ");
        reason.append(register.name.as_str());
        reason.append(": ");
        reason.append(register.data_type.name());
        reason.append(" needs ");
        numbers::push_decimal(&mut reason, register.data_type.register_count() as u64);
        reason.append(" registers, Write Single Register can't carry it");
        assert(reason@ =~= write_request(*register, value, mem_layout)->Err_0);
        return Err(reason);
    }
    if value.data_type() != register.data_type {
        return Err(mismatch_text(register.name.as_str(), register, &value));
    }
    proof {
        law_word_count(value, mem_layout);
    }
    let words = register_value_to_words(value, mem_layout);
    Ok(
        WriteSingleRegisterRequest {
            register_address: register.address,
            register_value: words[0],
        }.encode(),
    )
}

/// The request that writes `value` to `coil`.
pub open spec fn coil_request(coil: CoilDescription, value: CoilValue) -> Seq<u8> {
    (WriteSingleCoilRequest { coil_address: coil.address, coil_value: value.0 }).message()
}

/// The request that writes `words` to the registers from `starting_address` on.
pub open spec fn words_request(starting_address: u16, words: Seq<u16>) -> Seq<u8> {
    WriteMultipleRegistersRequest::message(starting_address, words)
}

/// The request that writes `bits` to the coils from `starting_address` on.
pub open spec fn bits_request(starting_address: u16, bits: Seq<bool>) -> Seq<u8> {
    WriteMultipleCoilsRequest::message(starting_address, bits)
}

/// Writes the request that writes `value` to `coil`.
pub fn encode_coil_write_request(coil: &CoilDescription, value: CoilValue) -> (request: Vec<u8>)
    ensures
        request@ == coil_request(*coil, value),
{
    WriteSingleCoilRequest { coil_address: coil.address, coil_value: value.0 }.encode()
}

/// What a response to a write says: an exception that the device refused it, any
/// other message that it went well.
pub open spec fn response_outcome(response: Seq<u8>) -> Outcome {
    match ExceptionResponse::parsed(response) {
        Ok(exception) => Outcome::Failed(
            "device returned Modbus exception code "@ + numbers::decimal(
                exception.exception_code as nat,
            ),
        ),
        Err(DecodeError::NotAnExceptionResponse { .. }) => Outcome::Succeeded,
        Err(error) => Outcome::Failed("malformed write response: "@ + error.text()),
    }
}

/// Reads the response to a write.
pub fn interpret_write_response(response_pdu: &[u8]) -> (status: WriteStatus)
    ensures
        status@ == response_outcome(response_pdu@),
{
    match ExceptionResponse::decode(response_pdu) {
        Ok(exception) => {
            let mut reason = String::from_str("device returned Modbus exception code ");
            numbers::push_decimal(&mut reason, exception.exception_code as u64);
            WriteStatus::Failed(reason)
        },
        Err(DecodeError::NotAnExceptionResponse { .. }) => WriteStatus::Succeeded,
        Err(error) => {
            let mut reason = String::from_str("malformed write response: ");
            reason.append(error.to_string().as_str());
            WriteStatus::Failed(reason)
        },
    }
}

/// The outcome of a write whose request was answered by a response, or was not
/// answered and why.
pub open spec fn reply_outcome(reply: Result<Seq<u8>, Seq<char>>) -> Outcome {
    match reply {
        Ok(response) => response_outcome(response),
        Err(error) => Outcome::Failed("write failed: "@ + error),
    }
}

/// A reply as its bytes or the text of its error.
pub open spec fn reply_view(reply: Result<Vec<u8>, String>) -> Result<Seq<u8>, Seq<char>> {
    match reply {
        Ok(response) => Ok(response@),
        Err(error) => Err(error@),
    }
}

/// Reads the reply to a write. Where none came, the write failed as it does where
/// the device refuses it.
pub fn confirm_reply(reply: &Result<Vec<u8>, String>) -> (status: WriteStatus)
    ensures
        status@ == reply_outcome(reply_view(*reply)),
{
    match reply {
        Ok(response) => interpret_write_response(response.as_slice()),
        Err(error) => {
            let mut reason = String::from_str("write failed: ");
            reason.append(error.as_str());
            WriteStatus::Failed(reason)
        },
    }
}

/// Whether `status` is the outcome of sending `request` by `send`.
pub open spec fn outcome_of_sending<F: FnOnce(Vec<u8>) -> Result<Vec<u8>, String>>(
    send: F,
    request: Seq<u8>,
    status: WriteStatus,
) -> bool {
    exists|sent: Vec<u8>, reply: Result<Vec<u8>, String>|
        {
            &&& sent@ == request
            &&& #[trigger] call_ensures(send, (sent,), reply)
            &&& status@ == reply_outcome(reply_view(reply))
        }
}

/// Sends `request` by `send`, and reads the reply.
fn confirm<F: FnOnce(Vec<u8>) -> Result<Vec<u8>, String>>(send: F, request: Vec<u8>) -> (status:
    WriteStatus)
    requires
        call_requires(send, (request,)),
    ensures
        outcome_of_sending(send, request@, status),
{
    let reply = send(request);
    confirm_reply(&reply)
}

/// Writes `value` to `register` by `send`, which gives the reply to a request or why
/// none came. A value that no single-register request carries is not sent.
pub fn confirm_write<F: FnOnce(Vec<u8>) -> Result<Vec<u8>, String>>(
    send: F,
    register: &RegisterDescription,
    value: RegisterValue,
    mem_layout: MemLayout,
) -> (status: WriteStatus)
    requires
        forall|request: Vec<u8>| #[trigger] call_requires(send, (request,)),
    ensures
        match write_request(*register, value, mem_layout) {
            Ok(request) => outcome_of_sending(send, request, status),
            Err(reason) => status@ == Outcome::Failed(reason),
        },
{
    match encode_write_request(register, value, mem_layout) {
        Ok(request) => confirm(send, request),
        Err(reason) => WriteStatus::Failed(reason),
    }
}

/// Writes `value` to `coil` by `send`.
pub fn confirm_coil_write<F: FnOnce(Vec<u8>) -> Result<Vec<u8>, String>>(
    send: F,
    coil: &CoilDescription,
    value: CoilValue,
) -> (status: WriteStatus)
    requires
        forall|request: Vec<u8>| #[trigger] call_requires(send, (request,)),
    ensures
        outcome_of_sending(send, coil_request(*coil, value), status),
{
    confirm(send, encode_coil_write_request(coil, value))
}

/// Writes `values` to consecutive registers by `send`, with one request.
pub fn confirm_write_multiple<F: FnOnce(Vec<u8>) -> Result<Vec<u8>, String>>(
    send: F,
    starting_address: u16,
    values: &[u16],
) -> (status: WriteStatus)
    requires
        forall|request: Vec<u8>| #[trigger] call_requires(send, (request,)),
    ensures
        outcome_of_sending(send, words_request(starting_address, values@), status),
{
    let register_values = vstd::slice::slice_to_vec(values);
    let request = WriteMultipleRegistersRequest { starting_address, register_values }.encode();
    confirm(send, request)
}

/// Writes `values` to consecutive coils by `send`, with one request.
pub fn confirm_coil_write_multiple<F: FnOnce(Vec<u8>) -> Result<Vec<u8>, String>>(
    send: F,
    starting_address: u16,
    values: &[bool],
) -> (status: WriteStatus)
    requires
        forall|request: Vec<u8>| #[trigger] call_requires(send, (request,)),
    ensures
        outcome_of_sending(send, bits_request(starting_address, values@), status),
{
    let coil_values = vstd::slice::slice_to_vec(values);
    let request = WriteMultipleCoilsRequest { starting_address, coil_values }.encode();
    confirm(send, request)
}

/// A device confirms a write by repeating its request, or the front of it: any
/// message whose function code leaves its highest bit free says that the write
/// went well, whatever follows.
pub proof fn law_echo_confirms(response: Seq<u8>)
    requires
        response.len() >= 2,
        response[0] < 128,
    ensures
        response_outcome(response) == Outcome::Succeeded,
{
}

/// An exception is reported with its code.
pub proof fn law_exception_is_reported(exception: ExceptionResponse)
    requires
        exception.function_code < 128,
    ensures
        response_outcome(exception.message()) == Outcome::Failed(
            "device returned Modbus exception code "@ + numbers::decimal(
                exception.exception_code as nat,
            ),
        ),
{
    ExceptionResponse::law_round_trip(exception);
}

/// What a reply to a write says, by its bytes: one whose first bit is free says that the
/// write went well, one whose first bit is set says with which code it was refused. A
/// reply of less than two bytes, and none at all, say that it failed.
pub proof fn law_outcome_of_a_reply(reply: Result<Seq<u8>, Seq<char>>)
    ensures
        reply matches Ok(response) ==> {
            &&& response.len() >= 2 && response[0] < 128 ==> reply_outcome(reply)
                == Outcome::Succeeded
            &&& response.len() >= 2 && response[0] >= 128 ==> reply_outcome(reply)
                == Outcome::Failed(
                "device returned Modbus exception code "@ + numbers::decimal(response[1] as nat),
            )
            &&& response.len() < 2 ==> reply_outcome(reply) is Failed
        },
        reply matches Err(error) ==> reply_outcome(reply) == Outcome::Failed(
            "write failed: "@ + error,
        ),
{
}

/// The reason for which no request is made names the register and its type; where the
/// value is of another type, that too.
pub proof fn law_reason_names_the_register(
    register: RegisterDescription,
    value: RegisterValue,
    mem_layout: MemLayout,
)
    requires
        write_request(register, value, mem_layout) is Err,
    ensures
        holds(write_request(register, value, mem_layout)->Err_0, register.name@),
        holds(write_request(register, value, mem_layout)->Err_0, register.data_type.label()),
        register.data_type.width() == 1 ==> holds(
            write_request(register, value, mem_layout)->Err_0,
            value.kind().label(),
        ),
{
    let reason = write_request(register, value, mem_layout)->Err_0;
    let label = register.data_type.label();
    if register.data_type.width() != 1 {
        let back = " needs "@ + numbers::decimal(register.data_type.width())
            + " registers, Write Single Register can't carry it"@;
        lemma_holds("register "@, register.name@, ": "@ + label + back);
        assert(reason =~= "register "@ + register.name@ + (": "@ + label + back));
        lemma_holds("register "@ + register.name@ + ": "@, label, back);
        assert(reason =~= "register "@ + register.name@ + ": "@ + label + back);
    } else {
        let back = " value but got a "@ + value.kind().label() + " one"@;
        lemma_holds("register "@, register.name@, ": expected a "@ + label + back);
        assert(reason =~= "register "@ + register.name@ + (": expected a "@ + label + back));
        lemma_holds("register "@ + register.name@ + ": expected a "@, label, back);
        assert(reason =~= "register "@ + register.name@ + ": expected a "@ + label + back);
        lemma_holds(
            "register "@ + register.name@ + ": expected a "@ + label + " value but got a "@,
            value.kind().label(),
            " one"@,
        );
    }
}

} // verus!
