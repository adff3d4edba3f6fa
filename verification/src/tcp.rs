//! Exchanging messages over TCP: how long a frame is, which reply belongs to a
//! request, and the numbers of the requests.

use crate::adu::{TcpAdu, TcpFrame, MBAP_MAX_LENGTH};
use crate::numbers;
use crate::text::{holds, lemma_holds};
use crate::wire::{read_u16_be, word_at};
use vstd::prelude::*;
use vstd::string::StringExecFns;

verus! {

/// How many bytes follow the seven bytes of `header` in their frame, or what is
/// wrong with the length that they give.
pub open spec fn body_length(header: Seq<u8>) -> Result<int, Seq<char>> {
    let length = word_at(header, 4);
    if length == 0 || length > MBAP_MAX_LENGTH {
        Err("invalid MBAP length field: "@ + numbers::decimal(length as nat))
    } else {
        Ok(length - 1)
    }
}

/// Reads how many bytes follow the header of a frame. A length that no frame can
/// have is refused before anything more is read.
pub fn read_body_length(header: &[u8]) -> (length: Result<usize, String>)
    requires
        header@.len() >= 7,
    ensures
        length matches Ok(n) ==> body_length(header@) == Ok::<int, Seq<char>>(n as int),
        length matches Err(reason) ==> body_length(header@) == Err::<int, Seq<char>>(reason@),
{
    let length: u16 = read_u16_be(header, 4);
    if length == 0 || length > MBAP_MAX_LENGTH {
        let mut reason = String::from_str("invalid MBAP length field: ");
        numbers::push_decimal(&mut reason, length as u64);
        return Err(reason);
    }
    Ok(length as usize - 1)
}

/// The response that `frame` is to the request with the number `transaction_id`,
/// or why it is none.
pub open spec fn response(transaction_id: u16, frame: Seq<u8>) -> Result<TcpFrame, Seq<char>> {
    match TcpFrame::parsed(frame) {
        Err(error) => Err(error.text()),
        Ok(adu) => if adu.transaction_id != transaction_id {
            Err(
                "transaction id mismatch: sent "@ + numbers::decimal(transaction_id as nat)
                    + ", received "@ + numbers::decimal(adu.transaction_id as nat),
            )
        } else {
            Ok(adu)
        },
    }
}

/// Reads the response to the request with the number `transaction_id`.
pub fn read_response(transaction_id: u16, frame: &[u8]) -> (read: Result<TcpAdu, String>)
    ensures
        read matches Ok(adu) ==> response(transaction_id, frame@) == Ok::<TcpFrame, Seq<char>>(
            adu@,
        ),
        read matches Err(reason) ==> response(transaction_id, frame@) == Err::<
            TcpFrame,
            Seq<char>,
        >(reason@),
{
    match TcpAdu::decode(frame) {
        Err(error) => Err(error.to_string()),
        Ok(adu) => {
            if adu.transaction_id != transaction_id {
                let mut reason = String::from_str("transaction id mismatch: sent ");
                numbers::push_decimal(&mut reason, transaction_id as u64);
                reason.append(", received ");
                numbers::push_decimal(&mut reason, adu.transaction_id as u64);
                return Err(reason);
            }
            Ok(adu)
        },
    }
}

/// The requests of one connection: each gets the next number.
#[derive(Debug, Clone, Copy, PartialEq, Eq, Structural)]
pub struct TcpSession {
    pub next_transaction_id: u16,
}

impl TcpSession {
    /// The number after `count` more requests.
    pub open spec fn number_after(self, count: nat) -> u16 {
        ((self.next_transaction_id + count) % 65536) as u16
    }

    /// The next request.
    pub open spec fn next_request(self, unit_id: u8, pdu: Seq<u8>) -> TcpFrame {
        TcpFrame { transaction_id: self.number_after(1), unit_id, pdu }
    }

    /// A connection on which nothing was sent.
    pub fn new() -> (session: Self)
        ensures
            session.next_transaction_id == 0,
    {
        TcpSession { next_transaction_id: 0 }
    }

    /// Makes the next request.
    pub fn request(&mut self, unit_id: u8, pdu: Vec<u8>) -> (request: TcpAdu)
        ensures
            final(self).next_transaction_id == old(self).number_after(1),
            request@ == old(self).next_request(unit_id, pdu@),
    {
        self.next_transaction_id = self.next_transaction_id.wrapping_add(1);
        TcpAdu { transaction_id: self.next_transaction_id, unit_id, pdu }
    }

    /// Two requests of a connection have different numbers, unless so many lie
    /// between them that the numbers came round.
    pub proof fn law_numbers_differ(self, earlier: nat, later: nat)
        requires
            earlier < later < earlier + 65536,
        ensures
            self.number_after(earlier) != self.number_after(later),
    {
        let a = self.next_transaction_id + earlier;
        let b = self.next_transaction_id + later;
        assert(a % 65536 != b % 65536) by (nonlinear_arith)
            requires
                a < b < a + 65536,
                0 <= a,
        ;
    }
}

/// A response is read back as it was sent: the header says how many bytes follow,
/// and the frame is the response to the request whose number it bears, and to no
/// other.
pub proof fn law_response_is_read_back(frame: TcpFrame, transaction_id: u16)
    requires
        frame.pdu.len() < MBAP_MAX_LENGTH,
    ensures
        body_length(frame.bytes().take(7)) == Ok::<int, Seq<char>>(frame.bytes().len() - 7),
        response(frame.transaction_id, frame.bytes()) == Ok::<TcpFrame, Seq<char>>(frame),
        transaction_id != frame.transaction_id ==> response(transaction_id, frame.bytes()) is Err,
{
    let bytes = frame.bytes();
    frame.law_round_trip(Seq::empty());
    assert(bytes + Seq::<u8>::empty() =~= bytes);
    let header = bytes.take(7);
    assert(word_at(header, 4) == word_at(bytes, 4));
    assert(word_at(bytes, 4) == frame.pdu.len() + 1);
}

/// The header gives the number of bytes that follow it, and one for the unit, in its fifth
/// and sixth byte: from 1 to 254. Any other number is refused.
pub proof fn law_length_of_a_frame(header: Seq<u8>)
    requires
        header.len() >= 7,
    ensures
        ({
            let given = header[4] * 256 + header[5];
            &&& body_length(header) is Ok <==> 1 <= given <= 254
            &&& body_length(header) matches Ok(length) ==> length == given - 1
        }),
{
}

/// Each request of a connection bears the number behind that of the one before; behind
/// 65535 comes 0.
pub proof fn law_numbers_follow_each_other(session: TcpSession, count: nat)
    ensures
        session.number_after(0) == session.next_transaction_id,
        session.number_after(count) < 65535 ==> session.number_after(count + 1)
            == session.number_after(count) + 1,
        session.number_after(count) == 65535 ==> session.number_after(count + 1) == 0,
{
}

/// A request bears, on the wire, the number behind the last one, the unit it is for, and
/// the message.
pub proof fn law_request_on_the_wire(session: TcpSession, unit_id: u8, pdu: Seq<u8>, k: int)
    requires
        pdu.len() < 254,
    ensures
        ({
            let bytes = session.next_request(unit_id, pdu).bytes();
            &&& bytes[0] * 256 + bytes[1] == (session.next_transaction_id + 1) % 65536
            &&& bytes[6] == unit_id
            &&& bytes.len() == 7 + pdu.len()
            &&& 0 <= k < pdu.len() ==> bytes[7 + k] == pdu[k]
        }),
{
    crate::adu::law_tcp_frame_layout(session.next_request(unit_id, pdu), k);
}

/// A length that no frame can have is named in the reason, and so are the two numbers where
/// a response bears another than its request.
pub proof fn law_reasons_name_the_numbers(
    header: Seq<u8>,
    transaction_id: u16,
    frame: TcpFrame,
)
    requires
        frame.pdu.len() < 254,
        frame.transaction_id != transaction_id,
    ensures
        body_length(header) matches Err(reason) ==> holds(
            reason,
            numbers::decimal((header[4] * 256 + header[5]) as nat),
        ),
        response(transaction_id, frame.bytes()) matches Err(reason) && holds(
            reason,
            numbers::decimal(transaction_id as nat),
        ) && holds(reason, numbers::decimal(frame.transaction_id as nat)),
{
    let empty = Seq::<char>::empty();
    if let Err(reason) = body_length(header) {
        let number = numbers::decimal(word_at(header, 4) as nat);
        lemma_holds("invalid MBAP length field: "@, number, empty);
        assert(reason =~= "invalid MBAP length field: "@ + number + empty);
    }
    frame.law_round_trip(Seq::empty());
    assert(frame.bytes() + Seq::<u8>::empty() =~= frame.bytes());
    let sent = numbers::decimal(transaction_id as nat);
    let came = numbers::decimal(frame.transaction_id as nat);
    let reason = response(transaction_id, frame.bytes())->Err_0;
    let front = "transaction id mismatch: sent "@;
    lemma_holds(front, sent, ", received "@ + came);
    assert(reason =~= front + sent + (", received "@ + came));
    lemma_holds(front + sent + ", received "@, came, empty);
    assert(reason =~= front + sent + ", received "@ + came + empty);
}

} // verus!
