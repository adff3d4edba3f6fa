//! Putting the messages to the test with random input: reading any bytes never
//! fails otherwise than by an error, and what was written is read back.

use crate::pdu::{
    ExceptionResponse, ReadHoldingRegistersRequest, ReadHoldingRegistersResponse,
    WriteMultipleRegistersRequest, WriteMultipleRegistersResponse, WriteSingleRegisterRequest,
    WriteSingleRegisterResponse,
};
use vstd::prelude::*;

verus! {

/// How many random inputs each decoder is given.
pub const DECODE_FUZZ_ITERATIONS: usize = 20_000;

/// How many random messages of each kind are written and read back.
pub const ROUND_TRIP_FUZZ_ITERATIONS: usize = 5_000;

/// The longest random input.
pub const MAX_FUZZ_BUFFER_LEN: usize = 300;

/// How many registers a device lets one request read.
pub const MAX_READ_HOLDING_REGISTERS_COUNT: usize = 125;

/// How many registers a device lets one request write.
pub const MAX_WRITE_MULTIPLE_REGISTERS_COUNT: usize = 123;

/// A generator of pseudo-random numbers.
#[derive(Debug, Clone, Copy, PartialEq, Eq, Structural)]
pub struct Xorshift64 {
    pub state: u64,
}

/// The number that follows `x`.
pub open spec fn shifted(x: u64) -> u64 {
    let a = x ^ (x << 13u64);
    let b = a ^ (a >> 7u64);
    b ^ (b << 17u64)
}

/// The number that follows `x` after `n` steps.
pub open spec fn state_after(x: u64, n: nat) -> u64
    decreases n,
{
    if n == 0 {
        x
    } else {
        shifted(state_after(x, (n - 1) as nat))
    }
}

proof fn lemma_steps_join(x: u64, m: nat, n: nat)
    ensures
        state_after(state_after(x, m), n) == state_after(x, m + n),
    decreases n,
{
    if n > 0 {
        lemma_steps_join(x, m, (n - 1) as nat);
    }
}

impl Xorshift64 {
    /// The generator that starts at `seed`, or at 1 where that is 0.
    pub fn new(seed: u64) -> (rng: Self)
        ensures
            rng.state == (if seed == 0 {
                1
            } else {
                seed
            }),
    {
        Xorshift64 {
            state: if seed == 0 {
                1
            } else {
                seed
            },
        }
    }

    /// Draws a number.
    pub fn next_u64(&mut self) -> (number: u64)
        ensures
            number == shifted(old(self).state),
            final(self).state == number,
    {
        let mut x: u64 = self.state;
        x = x ^ (x << 13u64);
        x = x ^ (x >> 7u64);
        x = x ^ (x << 17u64);
        self.state = x;
        x
    }

    /// Draws a byte.
    pub fn next_u8(&mut self) -> (number: u8)
        ensures
            number == shifted(old(self).state) as u8,
            final(self).state == shifted(old(self).state),
    {
        self.next_u64() as u8
    }

    /// Draws a word.
    pub fn next_u16(&mut self) -> (number: u16)
        ensures
            number == shifted(old(self).state) as u16,
            final(self).state == shifted(old(self).state),
    {
        self.next_u64() as u16
    }

    /// Draws a number below `bound`.
    pub fn next_usize_below(&mut self, bound: usize) -> (number: usize)
        requires
            bound > 0,
        ensures
            number == (shifted(old(self).state) as usize) % bound,
            number < bound,
            final(self).state == shifted(old(self).state),
    {
        (self.next_u64() as usize) % bound
    }

    /// Draws `len` bytes.
    pub fn next_bytes(&mut self, len: usize) -> (bytes: Vec<u8>)
        ensures
            bytes@ == Seq::new(
                len as nat,
                |i: int| state_after(old(self).state, (i + 1) as nat) as u8,
            ),
            final(self).state == state_after(old(self).state, len as nat),
    {
        let mut bytes: Vec<u8> = Vec::new();
        let mut i: usize = 0;
        while i < len
            invariant
                i <= len,
                self.state == state_after(old(self).state, i as nat),
                bytes@ == Seq::new(
                    i as nat,
                    |k: int| state_after(old(self).state, (k + 1) as nat) as u8,
                ),
            decreases len - i,
        {
            bytes.push(self.next_u8());
            i = i + 1;
            assert(bytes@ =~= Seq::new(
                i as nat,
                |k: int| state_after(old(self).state, (k + 1) as nat) as u8,
            ));
        }
        bytes
    }

    /// Draws `len` words.
    pub fn next_u16_vec(&mut self, len: usize) -> (words: Vec<u16>)
        ensures
            words@ == Seq::new(
                len as nat,
                |i: int| state_after(old(self).state, (i + 1) as nat) as u16,
            ),
            final(self).state == state_after(old(self).state, len as nat),
    {
        let mut words: Vec<u16> = Vec::new();
        let mut i: usize = 0;
        while i < len
            invariant
                i <= len,
                self.state == state_after(old(self).state, i as nat),
                words@ == Seq::new(
                    i as nat,
                    |k: int| state_after(old(self).state, (k + 1) as nat) as u16,
                ),
            decreases len - i,
        {
            words.push(self.next_u16());
            i = i + 1;
            assert(words@ =~= Seq::new(
                i as nat,
                |k: int| state_after(old(self).state, (k + 1) as nat) as u16,
            ));
        }
        words
    }
}

/// No number but 0 is followed by 0, so a generator never gets stuck.
pub proof fn law_generator_never_stops(x: u64, n: nat)
    requires
        x != 0,
    ensures
        state_after(x, n) != 0,
    decreases n,
{
    if n > 0 {
        law_generator_never_stops(x, (n - 1) as nat);
        let y = state_after(x, (n - 1) as nat);
        let a = y ^ (y << 13u64);
        let b = a ^ (a >> 7u64);
        assert(y != 0 ==> (y ^ (y << 13u64)) != 0) by (bit_vector);
        assert(a != 0 ==> (a ^ (a >> 7u64)) != 0) by (bit_vector);
        assert(b != 0 ==> (b ^ (b << 17u64)) != 0) by (bit_vector);
    }
}

/// The kinds of messages that are put to the test.
#[derive(Debug, Clone, Copy, PartialEq, Eq, Structural)]
pub enum Message {
    ReadHoldingRegistersRequest,
    ReadHoldingRegistersResponse,
    WriteSingleRegisterRequest,
    WriteSingleRegisterResponse,
    WriteMultipleRegistersRequest,
    WriteMultipleRegistersResponse,
    ExceptionResponse,
}

/// All the kinds of messages, in the order in which they are tested.
pub open spec fn all_messages() -> Seq<Message> {
    seq![
        Message::ReadHoldingRegistersRequest,
        Message::ReadHoldingRegistersResponse,
        Message::WriteSingleRegisterRequest,
        Message::WriteSingleRegisterResponse,
        Message::WriteMultipleRegistersRequest,
        Message::WriteMultipleRegistersResponse,
        Message::ExceptionResponse,
    ]
}

/// All the kinds of messages, in the order in which they are tested.
pub fn messages() -> (all: Vec<Message>)
    ensures
        all@ == all_messages(),
{
    let mut all: Vec<Message> = Vec::new();
    all.push(Message::ReadHoldingRegistersRequest);
    all.push(Message::ReadHoldingRegistersResponse);
    all.push(Message::WriteSingleRegisterRequest);
    all.push(Message::WriteSingleRegisterResponse);
    all.push(Message::WriteMultipleRegistersRequest);
    all.push(Message::WriteMultipleRegistersResponse);
    all.push(Message::ExceptionResponse);
    assert(all@ =~= all_messages());
    all
}

/// Where the generator stands after one random input.
pub open spec fn input_round(x: u64) -> u64 {
    state_after(x, 1 + ((shifted(x) as usize) % 301usize) as nat)
}

/// Where the generator stands after one random message of the kind `message`.
pub open spec fn message_round(message: Message, x: u64) -> u64 {
    match message {
        Message::ReadHoldingRegistersResponse => state_after(
            x,
            1 + ((shifted(x) as usize) % 126usize) as nat,
        ),
        Message::WriteMultipleRegistersRequest => state_after(
            x,
            2 + ((shifted(x) as usize) % 124usize) as nat,
        ),
        _ => state_after(x, 2),
    }
}

/// Where the generator stands after `n` random inputs.
pub open spec fn input_rounds(x: u64, n: nat) -> u64
    decreases n,
{
    if n == 0 {
        x
    } else {
        input_round(input_rounds(x, (n - 1) as nat))
    }
}

/// Where the generator stands after `n` random messages of one kind.
pub open spec fn message_rounds(message: Message, x: u64, n: nat) -> u64
    decreases n,
{
    if n == 0 {
        x
    } else {
        message_round(message, message_rounds(message, x, (n - 1) as nat))
    }
}

/// Where the generator stands after all messages of the kinds `kinds`.
pub open spec fn all_rounds(kinds: Seq<Message>, x: u64) -> u64
    decreases kinds.len(),
{
    if kinds.len() == 0 {
        x
    } else {
        message_rounds(
            kinds.last(),
            all_rounds(kinds.drop_last(), x),
            ROUND_TRIP_FUZZ_ITERATIONS as nat,
        )
    }
}

/// Whether the bytes are a message of the kind `message`.
pub open spec fn reads(message: Message, bytes: Seq<u8>) -> bool {
    match message {
        Message::ReadHoldingRegistersRequest => ReadHoldingRegistersRequest::parsed(bytes) is Ok,
        Message::ReadHoldingRegistersResponse => ReadHoldingRegistersResponse::parsed(bytes) is Ok,
        Message::WriteSingleRegisterRequest => WriteSingleRegisterRequest::parsed(bytes) is Ok,
        Message::WriteSingleRegisterResponse => WriteSingleRegisterResponse::parsed(bytes) is Ok,
        Message::WriteMultipleRegistersRequest => {
            WriteMultipleRegistersRequest::parsed(bytes) is Ok
        },
        Message::WriteMultipleRegistersResponse => {
            WriteMultipleRegistersResponse::parsed(bytes) is Ok
        },
        Message::ExceptionResponse => ExceptionResponse::parsed(bytes) is Ok,
    }
}

/// Reads the bytes as a message of the kind `message`, and says whether they are
/// one.
pub fn try_decode(message: Message, bytes: &[u8]) -> (accepted: bool)
    ensures
        accepted == reads(message, bytes@),
{
    match message {
        Message::ReadHoldingRegistersRequest => {
            ReadHoldingRegistersRequest::decode(bytes).is_ok()
        },
        Message::ReadHoldingRegistersResponse => {
            ReadHoldingRegistersResponse::decode(bytes).is_ok()
        },
        Message::WriteSingleRegisterRequest => WriteSingleRegisterRequest::decode(bytes).is_ok(),
        Message::WriteSingleRegisterResponse => WriteSingleRegisterResponse::decode(bytes).is_ok(),
        Message::WriteMultipleRegistersRequest => {
            WriteMultipleRegistersRequest::decode(bytes).is_ok()
        },
        Message::WriteMultipleRegistersResponse => {
            WriteMultipleRegistersResponse::decode(bytes).is_ok()
        },
        Message::ExceptionResponse => ExceptionResponse::decode(bytes).is_ok(),
    }
}

/// The random input that is drawn next.
pub open spec fn input(x: u64) -> Seq<u8> {
    Seq::new(
        ((shifted(x) as usize) % 301usize) as nat,
        |i: int| state_after(shifted(x), (i + 1) as nat) as u8,
    )
}

/// How many of the next `n` random inputs are messages of the kind `message`.
pub open spec fn accepted_inputs(message: Message, x: u64, n: nat) -> nat
    decreases n,
{
    if n == 0 {
        0
    } else {
        accepted_inputs(message, x, (n - 1) as nat) + if reads(
            message,
            input(input_rounds(x, (n - 1) as nat)),
        ) {
            1nat
        } else {
            0nat
        }
    }
}

/// Gives the decoder of one kind of message its random inputs, and counts those
/// that it accepts.
pub fn fuzz_decoder(message: Message, rng: &mut Xorshift64) -> (accepted: usize)
    ensures
        accepted == accepted_inputs(message, old(rng).state, DECODE_FUZZ_ITERATIONS as nat),
        final(rng).state == input_rounds(old(rng).state, DECODE_FUZZ_ITERATIONS as nat),
{
    let mut accepted: usize = 0;
    let mut i: usize = 0;
    while i < DECODE_FUZZ_ITERATIONS
        invariant
            accepted <= i <= DECODE_FUZZ_ITERATIONS,
            accepted == accepted_inputs(message, old(rng).state, i as nat),
            rng.state == input_rounds(old(rng).state, i as nat),
        decreases DECODE_FUZZ_ITERATIONS - i,
    {
        let ghost start = rng.state;
        let length: usize = rng.next_usize_below(MAX_FUZZ_BUFFER_LEN + 1);
        let bytes = rng.next_bytes(length);
        proof {
            lemma_first_step(start);
            lemma_steps_join(start, 1, length as nat);
            assert(bytes@ =~= input(start));
        }
        if try_decode(message, bytes.as_slice()) {
            accepted = accepted + 1;
        }
        i = i + 1;
    }
    accepted
}

proof fn lemma_first_step(x: u64)
    ensures
        state_after(x, 1) == shifted(x),
        state_after(x, 2) == shifted(shifted(x)),
{
    assert(state_after(x, 0) == x);
    assert(state_after(x, 1) == shifted(x));
}

/// Where the generator stands after the decoders of `n` kinds of messages got their
/// inputs.
pub open spec fn decoder_start(x: u64, n: nat) -> u64
    decreases n,
{
    if n == 0 {
        x
    } else {
        input_rounds(decoder_start(x, (n - 1) as nat), DECODE_FUZZ_ITERATIONS as nat)
    }
}

/// Gives the decoder of every kind of message its random inputs, and counts those
/// that each accepts.
pub fn fuzz_decoders(rng: &mut Xorshift64) -> (accepted: Vec<usize>)
    ensures
        accepted@.len() == all_messages().len(),
        forall|k: int|
            0 <= k < accepted@.len() ==> #[trigger] accepted@[k] == accepted_inputs(
                all_messages()[k],
                decoder_start(old(rng).state, k as nat),
                DECODE_FUZZ_ITERATIONS as nat,
            ),
        final(rng).state == decoder_start(old(rng).state, all_messages().len()),
{
    let all = messages();
    let mut accepted: Vec<usize> = Vec::new();
    let mut i: usize = 0;
    while i < all.len()
        invariant
            i <= all@.len(),
            all@ == all_messages(),
            accepted@.len() == i,
            forall|k: int|
                0 <= k < i ==> #[trigger] accepted@[k] == accepted_inputs(
                    all_messages()[k],
                    decoder_start(old(rng).state, k as nat),
                    DECODE_FUZZ_ITERATIONS as nat,
                ),
            rng.state == decoder_start(old(rng).state, i as nat),
        decreases all@.len() - i,
    {
        accepted.push(fuzz_decoder(all[i], rng));
        i = i + 1;
    }
    accepted
}

/// Whether two lists of words are the same.
fn same_words(x: &[u16], y: &[u16]) -> (same: bool)
    ensures
        same == (x@ == y@),
{
    if x.len() != y.len() {
        return false;
    }
    let mut i: usize = 0;
    while i < x.len()
        invariant
            i <= x@.len(),
            x@.len() == y@.len(),
            forall|k: int| 0 <= k < i ==> x@[k] == y@[k],
        decreases x@.len() - i,
    {
        if x[i] != y[i] {
            return false;
        }
        i = i + 1;
    }
    assert(x@ =~= y@);
    true
}

/// Draws a message of the kind `message`, writes it, and says whether it is read
/// back as it was: it always is.
pub fn round_trip(message: Message, rng: &mut Xorshift64) -> (same: bool)
    ensures
        same,
        final(rng).state == message_round(message, old(rng).state),
{
    let ghost start = rng.state;
    proof {
        lemma_first_step(start);
    }
    match message {
        Message::ReadHoldingRegistersRequest => {
            let starting_address: u16 = rng.next_u16();
            let quantity: u16 = rng.next_u16();
            let request = ReadHoldingRegistersRequest { starting_address, quantity };
            proof {
                request.law_round_trip();
            }
            match ReadHoldingRegistersRequest::decode(request.encode().as_slice()) {
                Ok(decoded) => decoded == request,
                Err(_) => false,
            }
        },
        Message::ReadHoldingRegistersResponse => {
            let count: usize = rng.next_usize_below(MAX_READ_HOLDING_REGISTERS_COUNT + 1);
            let response = ReadHoldingRegistersResponse {
                register_values: rng.next_u16_vec(count),
            };
            proof {
                lemma_steps_join(start, 1, count as nat);
                ReadHoldingRegistersResponse::law_round_trip(response.register_values@);
            }
            match ReadHoldingRegistersResponse::decode(response.encode().as_slice()) {
                Ok(decoded) => same_words(
                    decoded.register_values.as_slice(),
                    response.register_values.as_slice(),
                ),
                Err(_) => false,
            }
        },
        Message::WriteSingleRegisterRequest => {
            let register_address: u16 = rng.next_u16();
            let register_value: u16 = rng.next_u16();
            let request = WriteSingleRegisterRequest { register_address, register_value };
            proof {
                request.law_round_trip();
            }
            match WriteSingleRegisterRequest::decode(request.encode().as_slice()) {
                Ok(decoded) => decoded == request,
                Err(_) => false,
            }
        },
        Message::WriteSingleRegisterResponse => {
            let register_address: u16 = rng.next_u16();
            let register_value: u16 = rng.next_u16();
            let response = WriteSingleRegisterResponse { register_address, register_value };
            proof {
                response.law_round_trip();
            }
            match WriteSingleRegisterResponse::decode(response.encode().as_slice()) {
                Ok(decoded) => decoded == response,
                Err(_) => false,
            }
        },
        Message::WriteMultipleRegistersRequest => {
            let count: usize = rng.next_usize_below(MAX_WRITE_MULTIPLE_REGISTERS_COUNT + 1);
            let starting_address: u16 = rng.next_u16();
            let register_values = rng.next_u16_vec(count);
            let request = WriteMultipleRegistersRequest { starting_address, register_values };
            proof {
                lemma_steps_join(start, 2, count as nat);
                WriteMultipleRegistersRequest::law_round_trip(
                    starting_address,
                    request.register_values@,
                );
            }
            match WriteMultipleRegistersRequest::decode(request.encode().as_slice()) {
                Ok(decoded) => decoded.starting_address == request.starting_address && same_words(
                    decoded.register_values.as_slice(),
                    request.register_values.as_slice(),
                ),
                Err(_) => false,
            }
        },
        Message::WriteMultipleRegistersResponse => {
            let starting_address: u16 = rng.next_u16();
            let quantity: u16 = rng.next_u16();
            let response = WriteMultipleRegistersResponse { starting_address, quantity };
            proof {
                response.law_round_trip();
            }
            match WriteMultipleRegistersResponse::decode(response.encode().as_slice()) {
                Ok(decoded) => decoded == response,
                Err(_) => false,
            }
        },
        Message::ExceptionResponse => {
            let function_code: u8 = rng.next_u8() % 128;
            let exception_code: u8 = rng.next_u8();
            let response = ExceptionResponse { function_code, exception_code };
            proof {
                response.law_round_trip();
            }
            match ExceptionResponse::decode(response.encode().as_slice()) {
                Ok(decoded) => decoded == response,
                Err(_) => false,
            }
        },
    }
}

/// Writes random messages of one kind and reads them back; says whether each came
/// back as it was: they all do.
pub fn fuzz_round_trip(message: Message, rng: &mut Xorshift64) -> (same: bool)
    ensures
        same,
        final(rng).state == message_rounds(
            message,
            old(rng).state,
            ROUND_TRIP_FUZZ_ITERATIONS as nat,
        ),
{
    let mut i: usize = 0;
    while i < ROUND_TRIP_FUZZ_ITERATIONS
        invariant
            i <= ROUND_TRIP_FUZZ_ITERATIONS,
            rng.state == message_rounds(message, old(rng).state, i as nat),
        decreases ROUND_TRIP_FUZZ_ITERATIONS - i,
    {
        if !round_trip(message, rng) {
            return false;
        }
        i = i + 1;
    }
    true
}

/// Writes random messages of every kind and reads them back; gives the first kind
/// of which one came back changed: there is none.
pub fn fuzz_round_trips(rng: &mut Xorshift64) -> (outcome: Result<(), Message>)
    ensures
        outcome is Ok,
        final(rng).state == all_rounds(all_messages(), old(rng).state),
{
    let all = messages();
    let mut i: usize = 0;
    while i < all.len()
        invariant
            i <= all@.len(),
            all@ == all_messages(),
            rng.state == all_rounds(all@.take(i as int), old(rng).state),
        decreases all@.len() - i,
    {
        assert(all@.take(i + 1).drop_last() =~= all@.take(i as int));
        if !fuzz_round_trip(all[i], rng) {
            return Err(all[i]);
        }
        i = i + 1;
    }
    assert(all@.take(i as int) =~= all@);
    Ok(())
}

impl Message {
    /// The name of the kind of message.
    pub open spec fn label(self) -> Seq<char> {
        match self {
            Message::ReadHoldingRegistersRequest => "ReadHoldingRegistersRequest"@,
            Message::ReadHoldingRegistersResponse => "ReadHoldingRegistersResponse"@,
            Message::WriteSingleRegisterRequest => "WriteSingleRegisterRequest"@,
            Message::WriteSingleRegisterResponse => "WriteSingleRegisterResponse"@,
            Message::WriteMultipleRegistersRequest => "WriteMultipleRegistersRequest"@,
            Message::WriteMultipleRegistersResponse => "WriteMultipleRegistersResponse"@,
            Message::ExceptionResponse => "ExceptionResponse"@,
        }
    }

    /// The name of the kind of message.
    pub fn name(self) -> (name: &'static str)
        ensures
            name@ == self.label(),
    {
        match self {
            Message::ReadHoldingRegistersRequest => "ReadHoldingRegistersRequest",
            Message::ReadHoldingRegistersResponse => "ReadHoldingRegistersResponse",
            Message::WriteSingleRegisterRequest => "WriteSingleRegisterRequest",
            Message::WriteSingleRegisterResponse => "WriteSingleRegisterResponse",
            Message::WriteMultipleRegistersRequest => "WriteMultipleRegistersRequest",
            Message::WriteMultipleRegistersResponse => "WriteMultipleRegistersResponse",
            Message::ExceptionResponse => "ExceptionResponse",
        }
    }
}

/// Bytes are taken for a message by its own code and length.
pub proof fn law_messages_are_told_apart(bytes: Seq<u8>)
    ensures
        reads(Message::ReadHoldingRegistersRequest, bytes) <==> bytes.len() >= 5 && bytes[0]
            == 0x03,
        reads(Message::ReadHoldingRegistersResponse, bytes) <==> bytes.len() >= 2 && bytes[0]
            == 0x03 && bytes[1] % 2 == 0 && bytes.len() >= 2 + bytes[1],
        reads(Message::WriteSingleRegisterRequest, bytes) <==> bytes.len() >= 5 && bytes[0] == 0x06,
        reads(Message::WriteSingleRegisterResponse, bytes) <==> bytes.len() >= 5 && bytes[0]
            == 0x06,
        reads(Message::WriteMultipleRegistersRequest, bytes) <==> bytes.len() >= 6 && bytes[0]
            == 0x10 && bytes[5] % 2 == 0 && bytes.len() >= 6 + bytes[5],
        reads(Message::WriteMultipleRegistersResponse, bytes) <==> bytes.len() >= 5 && bytes[0]
            == 0x10,
        reads(Message::ExceptionResponse, bytes) <==> bytes.len() >= 2 && bytes[0] >= 128,
{
}

/// The number before a number can be told from it: each step of the generator is undone by
/// shifting what it shifted until nothing is left.
pub proof fn law_generator_steps_back(x: u64)
    ensures
        ({
            let y = shifted(x);
            let b = y ^ (y << 17u64) ^ (y << 34u64) ^ (y << 51u64);
            let a = b ^ (b >> 7u64) ^ (b >> 14u64) ^ (b >> 21u64) ^ (b >> 28u64) ^ (b >> 35u64) ^ (b
                >> 42u64) ^ (b >> 49u64) ^ (b >> 56u64) ^ (b >> 63u64);
            x == a ^ (a << 13u64) ^ (a << 26u64) ^ (a << 39u64) ^ (a << 52u64)
        }),
{
    let a = x ^ (x << 13u64);
    let b = a ^ (a >> 7u64);
    let y = b ^ (b << 17u64);
    assert(b == y ^ (y << 17u64) ^ (y << 34u64) ^ (y << 51u64)) by (bit_vector)
        requires
            y == b ^ (b << 17u64),
    ;
    assert(a == b ^ (b >> 7u64) ^ (b >> 14u64) ^ (b >> 21u64) ^ (b >> 28u64) ^ (b >> 35u64) ^ (b
        >> 42u64) ^ (b >> 49u64) ^ (b >> 56u64) ^ (b >> 63u64)) by (bit_vector)
        requires
            b == a ^ (a >> 7u64),
    ;
    assert(x == a ^ (a << 13u64) ^ (a << 26u64) ^ (a << 39u64) ^ (a << 52u64)) by (bit_vector)
        requires
            a == x ^ (x << 13u64),
    ;
}

} // verus!
