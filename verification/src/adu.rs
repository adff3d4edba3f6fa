//! The frames that carry messages: over TCP, and over a serial line.

use crate::wire::{
    be_bytes, push_bytes, push_u16_be, read_u16_be, word_at,
};
use crate::DecodeError;
use vstd::prelude::*;

verus! {

/// How long the header of a TCP frame is.
pub const MBAP_HEADER_LEN: usize = 7;

/// The largest length that the header of a TCP frame may give: a unit and the
/// longest message there is.
pub const MBAP_MAX_LENGTH: u16 = 254;

/// A message over TCP, with the number of the request it belongs to.
#[derive(Debug, Clone, PartialEq, Eq)]
pub struct TcpAdu {
    pub transaction_id: u16,
    pub unit_id: u8,
    pub pdu: Vec<u8>,
}

/// What a [`TcpAdu`] holds.
pub ghost struct TcpFrame {
    pub transaction_id: u16,
    pub unit_id: u8,
    pub pdu: Seq<u8>,
}

impl View for TcpAdu {
    type V = TcpFrame;

    open spec fn view(&self) -> TcpFrame {
        TcpFrame {
            transaction_id: self.transaction_id,
            unit_id: self.unit_id,
            pdu: self.pdu@,
        }
    }
}

impl TcpFrame {
    /// The frame on the wire: the number, the protocol 0, the length of what
    /// follows, the unit and the message.
    pub open spec fn bytes(self) -> Seq<u8> {
        be_bytes(self.transaction_id) + be_bytes(0) + be_bytes(
            ((self.pdu.len() + 1) % 65536) as u16,
        ) + seq![self.unit_id] + self.pdu
    }

    /// What `bytes` are as such a frame; bytes behind it are left alone.
    pub open spec fn parsed(bytes: Seq<u8>) -> Result<Self, DecodeError> {
        if bytes.len() < 7 {
            Err(DecodeError::TooShort)
        } else if word_at(bytes, 2) != 0 {
            Err(DecodeError::UnexpectedProtocolId { actual: word_at(bytes, 2) })
        } else if word_at(bytes, 4) == 0 || word_at(bytes, 4) > MBAP_MAX_LENGTH {
            Err(DecodeError::InvalidAduLength { length: word_at(bytes, 4) })
        } else if bytes.len() < 6 + word_at(bytes, 4) {
            Err(DecodeError::TooShort)
        } else {
            Ok(
                TcpFrame {
                    transaction_id: word_at(bytes, 0),
                    unit_id: bytes[6],
                    pdu: bytes.subrange(7, 6 + word_at(bytes, 4)),
                },
            )
        }
    }

    /// Reading the frame that was written gives the same back, for every
    /// message that is not longer than messages may be; what follows the frame
    /// does not matter.
    pub proof fn law_round_trip(self, behind: Seq<u8>)
        requires
            self.pdu.len() < MBAP_MAX_LENGTH,
        ensures
            Self::parsed(self.bytes() + behind) == Ok::<Self, DecodeError>(self),
    {
        let b = self.bytes() + behind;
        let length = (self.pdu.len() + 1) as u16;
        assert(b[0] == (self.transaction_id / 256) as u8);
        assert(b[1] == (self.transaction_id % 256) as u8);
        assert(b[2] == 0 && b[3] == 0);
        assert(b[4] == (length / 256) as u8);
        assert(b[5] == (length % 256) as u8);
        assert(b[6] == self.unit_id);
        assert(b.subrange(7, 6 + word_at(b, 4)) =~= self.pdu);
    }
}

impl TcpAdu {
    /// Writes the frame.
    pub fn encode(&self) -> (bytes: Vec<u8>)
        ensures
            bytes@ == self@.bytes(),
    {
        let mut buffer: Vec<u8> = Vec::new();
        push_u16_be(&mut buffer, self.transaction_id);
        push_u16_be(&mut buffer, 0);
        push_u16_be(&mut buffer, ((self.pdu.len() % 65536 + 1) % 65536) as u16);
        buffer.push(self.unit_id);
        push_bytes(&mut buffer, self.pdu.as_slice());
        assert(buffer@ =~= self@.bytes());
        buffer
    }

    /// Reads the frame.
    pub fn decode(bytes: &[u8]) -> (decoded: Result<Self, DecodeError>)
        ensures
            decoded matches Ok(adu) ==> TcpFrame::parsed(bytes@) == Ok::<TcpFrame, DecodeError>(
                adu@,
            ),
            decoded matches Err(error) ==> TcpFrame::parsed(bytes@) == Err::<
                TcpFrame,
                DecodeError,
            >(error),
    {
        if bytes.len() < MBAP_HEADER_LEN {
            return Err(DecodeError::TooShort);
        }
        let protocol_id: u16 = read_u16_be(bytes, 2);
        if protocol_id != 0 {
            return Err(DecodeError::UnexpectedProtocolId { actual: protocol_id });
        }
        let length: u16 = read_u16_be(bytes, 4);
        if length == 0 || length > MBAP_MAX_LENGTH {
            return Err(DecodeError::InvalidAduLength { length });
        }
        let end: usize = 6 + length as usize;
        if bytes.len() < end {
            return Err(DecodeError::TooShort);
        }
        let transaction_id: u16 = read_u16_be(bytes, 0);
        let unit_id: u8 = bytes[6];
        let pdu = vstd::slice::slice_to_vec(
            vstd::slice::slice_subrange(bytes, MBAP_HEADER_LEN, end),
        );
        Ok(TcpAdu { transaction_id, unit_id, pdu })
    }
}

/// A message over a serial line.
#[derive(Debug, Clone, PartialEq, Eq)]
pub struct RtuAdu {
    pub unit_id: u8,
    pub pdu: Vec<u8>,
}

/// What a [`RtuAdu`] holds.
pub ghost struct RtuFrame {
    pub unit_id: u8,
    pub pdu: Seq<u8>,
}

impl View for RtuAdu {
    type V = RtuFrame;

    open spec fn view(&self) -> RtuFrame {
        RtuFrame { unit_id: self.unit_id, pdu: self.pdu@ }
    }
}

/// One step of the checksum: a shift, and where a bit falls out, the
/// polynomial.
pub open spec fn crc_shift(crc: u16) -> u16 {
    if crc % 2 == 1 {
        (crc / 2) ^ 0xA001u16
    } else {
        (crc / 2) as u16
    }
}

/// `n` steps of the checksum.
pub open spec fn crc_shifts(crc: u16, n: nat) -> u16
    decreases n,
{
    if n == 0 {
        crc
    } else {
        crc_shift(crc_shifts(crc, (n - 1) as nat))
    }
}

/// The CRC-16 checksum of `data` that Modbus uses: from all ones, each byte is
/// added in and shifted out.
pub open spec fn crc16(data: Seq<u8>) -> u16
    decreases data.len(),
{
    if data.len() == 0 {
        0xFFFF
    } else {
        crc_shifts(crc16(data.drop_last()) ^ (data.last() as u16), 8)
    }
}

/// The checksum of `data`.
pub fn crc16_modbus(data: &[u8]) -> (checksum: u16)
    ensures
        checksum == crc16(data@),
{
    let mut crc: u16 = 0xFFFF;
    let mut i: usize = 0;
    while i < data.len()
        invariant
            i <= data@.len(),
            crc == crc16(data@.take(i as int)),
        decreases data@.len() - i,
    {
        assert(data@.take(i + 1).drop_last() =~= data@.take(i as int));
        crc = crc ^ (data[i] as u16);
        let ghost start = crc;
        let mut step: u8 = 0;
        while step < 8
            invariant
                step <= 8,
                crc == crc_shifts(start, step as nat),
            decreases 8 - step,
        {
            if crc % 2 == 1 {
                crc = (crc / 2) ^ 0xA001;
            } else {
                crc = crc / 2;
            }
            step = step + 1;
        }
        i = i + 1;
    }
    assert(data@.take(data@.len() as int) =~= data@);
    crc
}

impl RtuFrame {
    /// What the checksum is taken of.
    pub open spec fn body(self) -> Seq<u8> {
        seq![self.unit_id] + self.pdu
    }

    /// The frame on the wire: the unit, the message, and the checksum, its
    /// less significant byte first.
    pub open spec fn bytes(self) -> Seq<u8> {
        let crc = crc16(self.body());
        self.body() + seq![(crc % 256) as u8, (crc / 256) as u8]
    }

    /// What `bytes` are as such a frame.
    pub open spec fn parsed(bytes: Seq<u8>) -> Result<Self, DecodeError> {
        if bytes.len() < 3 {
            Err(DecodeError::TooShort)
        } else {
            let n = bytes.len() as int;
            let expected = crc16(bytes.take(n - 2));
            let actual = crate::wire::be16(bytes[n - 1], bytes[n - 2]);
            if actual != expected {
                Err(DecodeError::CrcMismatch { expected, actual })
            } else {
                Ok(RtuFrame { unit_id: bytes[0], pdu: bytes.subrange(1, n - 2) })
            }
        }
    }

    /// Reading the frame that was written gives the same back.
    pub proof fn law_round_trip(self)
        ensures
            Self::parsed(self.bytes()) == Ok::<Self, DecodeError>(self),
    {
        let b = self.bytes();
        let n = b.len() as int;
        assert(b.take(n - 2) =~= self.body());
        assert(b.subrange(1, n - 2) =~= self.pdu);
    }

    /// Writing what was read gives the bytes back.
    pub proof fn law_written_back(bytes: Seq<u8>)
        requires
            Self::parsed(bytes) is Ok,
        ensures
            Self::parsed(bytes)->Ok_0.bytes() == bytes,
    {
        let n = bytes.len() as int;
        let frame = Self::parsed(bytes)->Ok_0;
        assert(frame.body() =~= bytes.take(n - 2));
        assert(frame.bytes() =~= bytes);
    }

    /// A frame of which one byte has changed is refused.
    pub proof fn law_changed_byte_is_refused(self, i: int, byte: u8)
        requires
            0 <= i < self.bytes().len(),
            byte != self.bytes()[i],
        ensures
            Self::parsed(self.bytes().update(i, byte)) is Err,
    {
        let good = self.bytes();
        let bad = good.update(i, byte);
        let n = good.len() as int;
        assert(good.take(n - 2) =~= self.body());
        if i < n - 2 {
            assert(bad.take(n - 2) =~= self.body().update(i, byte));
            lemma_crc_one_byte(self.body(), i, byte);
        } else {
            assert(bad.take(n - 2) =~= self.body());
        }
    }
}

/// Different checksums stay different when the same bytes are added in.
proof fn lemma_crc_shift_injective(a: u16, b: u16)
    requires
        a != b,
    ensures
        crc_shift(a) != crc_shift(b),
{
    assert(a != b ==> (if a % 2 == 1 {
        (a / 2) ^ 0xA001u16
    } else {
        a / 2
    }) != (if b % 2 == 1 {
        (b / 2) ^ 0xA001u16
    } else {
        b / 2
    })) by (bit_vector);
}

proof fn lemma_crc_shifts_injective(a: u16, b: u16, n: nat)
    requires
        a != b,
    ensures
        crc_shifts(a, n) != crc_shifts(b, n),
    decreases n,
{
    if n > 0 {
        lemma_crc_shifts_injective(a, b, (n - 1) as nat);
        lemma_crc_shift_injective(crc_shifts(a, (n - 1) as nat), crc_shifts(b, (n - 1) as nat));
    }
}

/// Changing one byte changes the checksum.
proof fn lemma_crc_one_byte(data: Seq<u8>, i: int, byte: u8)
    requires
        0 <= i < data.len(),
        byte != data[i],
    ensures
        crc16(data.update(i, byte)) != crc16(data),
    decreases data.len(),
{
    let changed = data.update(i, byte);
    let last = data.len() - 1;
    let before = crc16(data.drop_last());
    if i == last {
        assert(changed.drop_last() =~= data.drop_last());
        let x = data.last() as u16;
        let y = byte as u16;
        assert(x != y ==> before ^ x != before ^ y) by (bit_vector);
        lemma_crc_shifts_injective(before ^ y, before ^ x, 8);
    } else {
        assert(changed.drop_last() =~= data.drop_last().update(i, byte));
        lemma_crc_one_byte(data.drop_last(), i, byte);
        let other = crc16(changed.drop_last());
        let x = data.last() as u16;
        assert(before != other ==> before ^ x != other ^ x) by (bit_vector);
        lemma_crc_shifts_injective(other ^ x, before ^ x, 8);
    }
}

impl RtuAdu {
    /// Writes the frame.
    pub fn encode(&self) -> (bytes: Vec<u8>)
        ensures
            bytes@ == self@.bytes(),
    {
        let mut buffer: Vec<u8> = Vec::new();
        buffer.push(self.unit_id);
        push_bytes(&mut buffer, self.pdu.as_slice());
        assert(buffer@ =~= self@.body());
        let crc: u16 = crc16_modbus(buffer.as_slice());
        buffer.push((crc % 256) as u8);
        buffer.push((crc / 256) as u8);
        assert(buffer@ =~= self@.bytes());
        buffer
    }

    /// Reads the frame.
    pub fn decode(bytes: &[u8]) -> (decoded: Result<Self, DecodeError>)
        ensures
            decoded matches Ok(adu) ==> RtuFrame::parsed(bytes@) == Ok::<RtuFrame, DecodeError>(
                adu@,
            ),
            decoded matches Err(error) ==> RtuFrame::parsed(bytes@) == Err::<
                RtuFrame,
                DecodeError,
            >(error),
    {
        if bytes.len() < 3 {
            return Err(DecodeError::TooShort);
        }
        let crc_start: usize = bytes.len() - 2;
        let body = vstd::slice::slice_subrange(bytes, 0, crc_start);
        assert(body@ =~= bytes@.take(crc_start as int));
        let expected: u16 = crc16_modbus(body);
        let actual: u16 = bytes[crc_start + 1] as u16 * 256 + bytes[crc_start] as u16;
        if actual != expected {
            return Err(DecodeError::CrcMismatch { expected, actual });
        }
        let pdu = vstd::slice::slice_to_vec(vstd::slice::slice_subrange(bytes, 1, crc_start));
        Ok(RtuAdu { unit_id: bytes[0], pdu })
    }
}

/// A TCP frame on the wire: the number of its request, two zeros, how many bytes follow,
/// the unit, and the message.
pub proof fn law_tcp_frame_layout(frame: TcpFrame, k: int)
    requires
        frame.pdu.len() < 254,
    ensures
        ({
            let bytes = frame.bytes();
            &&& bytes.len() == 7 + frame.pdu.len()
            &&& bytes[0] * 256 + bytes[1] == frame.transaction_id
            &&& bytes[2] == 0 && bytes[3] == 0
            &&& bytes[4] * 256 + bytes[5] == bytes.len() - 6
            &&& bytes[6] == frame.unit_id
            &&& 0 <= k < frame.pdu.len() ==> bytes[7 + k] == frame.pdu[k]
        }),
{
    let bytes = frame.bytes();
    let length = (frame.pdu.len() + 1) as u16;
    assert(bytes[0] == (frame.transaction_id / 256) as u8);
    assert(bytes[1] == (frame.transaction_id % 256) as u8);
    assert(bytes[4] == (length / 256) as u8);
    assert(bytes[5] == (length % 256) as u8);
}

/// Bytes are taken for a TCP frame where the third and fourth are 0, the next two give a
/// length from 1 to 254, and as many bytes follow; bytes behind them are left alone.
pub proof fn law_tcp_frame_is_read(bytes: Seq<u8>, k: int)
    ensures
        TcpFrame::parsed(bytes) is Ok <==> bytes.len() >= 7 && bytes[2] == 0 && bytes[3] == 0 && 1
            <= bytes[4] * 256 + bytes[5] <= 254 && bytes.len() >= 6 + bytes[4] * 256 + bytes[5],
        TcpFrame::parsed(bytes) matches Ok(frame) ==> {
            &&& frame.transaction_id == bytes[0] * 256 + bytes[1]
            &&& frame.unit_id == bytes[6]
            &&& frame.pdu.len() + 1 == bytes[4] * 256 + bytes[5]
            &&& 0 <= k < frame.pdu.len() ==> frame.pdu[k] == bytes[7 + k]
        },
        bytes.len() >= 7 && bytes[2] * 256 + bytes[3] != 0 ==> TcpFrame::parsed(bytes) == Err::<
            TcpFrame,
            DecodeError,
        >(DecodeError::UnexpectedProtocolId { actual: (bytes[2] * 256 + bytes[3]) as u16 }),
        bytes.len() >= 7 && bytes[2] == 0 && bytes[3] == 0 && !(1 <= bytes[4] * 256 + bytes[5]
            <= 254) ==> TcpFrame::parsed(bytes) == Err::<TcpFrame, DecodeError>(
            DecodeError::InvalidAduLength { length: (bytes[4] * 256 + bytes[5]) as u16 },
        ),
{
}

/// A frame on a serial line: the unit, the message, and the checksum of both, its less
/// significant byte first.
pub proof fn law_rtu_frame_layout(frame: RtuFrame, k: int)
    ensures
        ({
            let bytes = frame.bytes();
            let n = bytes.len();
            &&& n == frame.pdu.len() + 3
            &&& bytes[0] == frame.unit_id
            &&& 0 <= k < frame.pdu.len() ==> bytes[1 + k] == frame.pdu[k]
            &&& bytes[n - 2] + 256 * bytes[n - 1] == crc16(bytes.take(n - 2))
        }),
{
    let bytes = frame.bytes();
    assert(bytes.take(bytes.len() - 2) =~= frame.body());
}

/// Bytes are taken for a frame on a serial line where there are at least three, and the
/// last two are the checksum of the others.
pub proof fn law_rtu_frame_is_read(bytes: Seq<u8>, k: int)
    ensures
        RtuFrame::parsed(bytes) is Ok <==> bytes.len() >= 3 && bytes[bytes.len() - 2] + 256
            * bytes[bytes.len() - 1] == crc16(bytes.take(bytes.len() - 2)),
        RtuFrame::parsed(bytes) matches Ok(frame) ==> {
            &&& frame.unit_id == bytes[0]
            &&& frame.pdu.len() + 3 == bytes.len()
            &&& 0 <= k < frame.pdu.len() ==> frame.pdu[k] == bytes[1 + k]
        },
{
}

} // verus!
