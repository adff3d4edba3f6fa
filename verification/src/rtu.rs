//! Exchanging messages over a serial line, where silence marks the end of a frame.

use crate::adu::{RtuAdu, RtuFrame};
use std::time::Duration;
use vstd::prelude::*;
use vstd::string::StringExecFns;

verus! {

/// The longest frame: a unit, a message and a checksum.
pub const RTU_MAX_FRAME_LEN: usize = 256;

/// The baud rate from which on the silence between frames is fixed.
pub const HIGH_BAUD_RATE_THRESHOLD: u32 = 19200;

/// The silence between frames at high baud rates, in nanoseconds.
pub const HIGH_BAUD_RATE_SILENCE_NANOS: u64 = 1_750_000;

/// What `Duration::from_nanos` makes of a number of nanoseconds.
pub uninterp spec fn duration_from_nanos(nanos: u64) -> Duration;

/// `Duration::from_nanos` gives the duration of that many nanoseconds, the same
/// for the same number.
pub assume_specification[ Duration::from_nanos ](nanos: u64) -> (duration: Duration)
    ensures
        duration == duration_from_nanos(nanos),
;

/// How many nanoseconds of silence end a frame: at low baud rates the time of
/// three and a half characters of eleven bits, where that of one character is
/// rounded down.
pub open spec fn silence_nanos(baud_rate: u32) -> int {
    if baud_rate >= HIGH_BAUD_RATE_THRESHOLD {
        HIGH_BAUD_RATE_SILENCE_NANOS as int
    } else {
        11_000_000_000int / baud_rate as int * 7 / 2
    }
}

/// How many nanoseconds of silence end a frame on a line of this speed.
pub fn frame_silence_nanos(baud_rate: u32) -> (nanos: u64)
    requires
        baud_rate > 0,
    ensures
        nanos == silence_nanos(baud_rate),
{
    if baud_rate >= HIGH_BAUD_RATE_THRESHOLD {
        HIGH_BAUD_RATE_SILENCE_NANOS
    } else {
        let char_time_nanos: u64 = 11_000_000_000 / baud_rate as u64;
        assert(char_time_nanos <= 11_000_000_000) by (nonlinear_arith)
            requires
                char_time_nanos == 11_000_000_000int / baud_rate as int,
                baud_rate >= 1,
        ;
        char_time_nanos * 7 / 2
    }
}

/// The silence that ends a frame on a line of this speed.
pub fn frame_silence_for_baud_rate(baud_rate: u32) -> (silence: Duration)
    requires
        baud_rate > 0,
    ensures
        silence == duration_from_nanos(silence_nanos(baud_rate) as u64),
{
    Duration::from_nanos(frame_silence_nanos(baud_rate))
}

/// A slower line never needs less silence.
pub proof fn law_slower_lines_wait_longer(slow: u32, fast: u32)
    requires
        0 < slow <= fast,
    ensures
        silence_nanos(slow) >= silence_nanos(fast),
{
    let x = 11_000_000_000int / slow as int;
    if slow < HIGH_BAUD_RATE_THRESHOLD {
        if fast < HIGH_BAUD_RATE_THRESHOLD {
            let y = 11_000_000_000int / fast as int;
            assert(x >= y) by (nonlinear_arith)
                requires
                    x == 11_000_000_000int / slow as int,
                    y == 11_000_000_000int / fast as int,
                    0 < slow <= fast,
            ;
        } else {
            assert(x >= 572_916) by (nonlinear_arith)
                requires
                    x == 11_000_000_000int / slow as int,
                    0 < slow < 19200,
            ;
        }
    }
}

/// What happens on a line while a frame is read: a byte comes, the other end
/// closes it, or nothing comes for as long as is waited.
#[derive(Debug, Clone, Copy, PartialEq, Eq, Structural)]
pub enum LineEvent {
    Byte(u8),
    Closed,
    Elapsed,
}

/// Why no frame could be read.
#[derive(Debug, Clone, Copy, PartialEq, Eq, Structural)]
pub enum LineFailure {
    Closed,
    TooLong,
    TimedOut,
}

impl LineFailure {
    /// The message of the failure.
    pub open spec fn message(self) -> Seq<char> {
        match self {
            LineFailure::Closed => "connection closed before any RTU frame data arrived"@,
            LineFailure::TooLong => {
                "RTU frame exceeded the maximum possible ADU length without a silence gap"@
            },
            LineFailure::TimedOut => "Modbus operation timed out"@,
        }
    }

    /// The message of the failure.
    pub fn to_string(self) -> (text: String)
        ensures
            text@ == self.message(),
    {
        match self {
            LineFailure::Closed => String::from_str(
                "connection closed before any RTU frame data arrived",
            ),
            LineFailure::TooLong => String::from_str(
                "RTU frame exceeded the maximum possible ADU length without a silence gap",
            ),
            LineFailure::TimedOut => String::from_str("Modbus operation timed out"),
        }
    }
}

/// A frame of which some bytes came.
#[derive(Debug, PartialEq, Eq)]
pub struct FrameReader {
    pub frame: Vec<u8>,
}

/// How a frame is read on: wait for more, or stop with the frame or a failure.
#[derive(Debug, PartialEq, Eq)]
pub enum LineStep {
    Wait(FrameReader),
    Frame(Vec<u8>),
    Failed(LineFailure),
}

/// What a [`LineStep`] says.
pub ghost enum Reading {
    Wait(Seq<u8>),
    Frame(Seq<u8>),
    Failed(LineFailure),
}

impl View for LineStep {
    type V = Reading;

    open spec fn view(&self) -> Reading {
        match self {
            LineStep::Wait(reader) => Reading::Wait(reader.frame@),
            LineStep::Frame(frame) => Reading::Frame(frame@),
            LineStep::Failed(failure) => Reading::Failed(*failure),
        }
    }
}

/// How a frame is read on after `event`, where `frame` came before.
pub open spec fn read_on(frame: Seq<u8>, event: LineEvent) -> Reading {
    match event {
        LineEvent::Byte(byte) => if frame.len() >= RTU_MAX_FRAME_LEN {
            Reading::Failed(LineFailure::TooLong)
        } else {
            Reading::Wait(frame.push(byte))
        },
        LineEvent::Closed => if frame.len() == 0 {
            Reading::Failed(LineFailure::Closed)
        } else {
            Reading::Frame(frame)
        },
        LineEvent::Elapsed => if frame.len() == 0 {
            Reading::Failed(LineFailure::TimedOut)
        } else {
            Reading::Frame(frame)
        },
    }
}

impl FrameReader {
    /// A frame of which nothing came.
    pub fn new() -> (reader: Self)
        ensures
            reader.frame@ == Seq::<u8>::empty(),
    {
        FrameReader { frame: Vec::new() }
    }

    /// Whether a byte came: from then on, silence ends the frame. Before it, the
    /// time that a whole exchange may take runs.
    pub fn has_started(&self) -> (started: bool)
        ensures
            started == (self.frame@.len() > 0),
    {
        self.frame.len() > 0
    }

    /// Reads on after `event`.
    pub fn receive(self, event: LineEvent) -> (step: LineStep)
        ensures
            step@ == read_on(self.frame@, event),
    {
        let mut frame = self.frame;
        match event {
            LineEvent::Byte(byte) => {
                frame.push(byte);
                if frame.len() > RTU_MAX_FRAME_LEN {
                    return LineStep::Failed(LineFailure::TooLong);
                }
                LineStep::Wait(FrameReader { frame })
            },
            LineEvent::Closed => {
                if frame.len() == 0 {
                    return LineStep::Failed(LineFailure::Closed);
                }
                LineStep::Frame(frame)
            },
            LineEvent::Elapsed => {
                if frame.len() == 0 {
                    return LineStep::Failed(LineFailure::TimedOut);
                }
                LineStep::Frame(frame)
            },
        }
    }
}

/// How a frame is read over `events`, up to the one that ends it.
pub open spec fn reading(frame: Seq<u8>, events: Seq<LineEvent>) -> Reading
    decreases events.len(),
{
    if events.len() == 0 {
        Reading::Wait(frame)
    } else {
        match read_on(frame, events[0]) {
            Reading::Wait(longer) => reading(longer, events.drop_first()),
            last => last,
        }
    }
}

/// The message in `frame`, or why it holds none.
pub open spec fn received(frame: Seq<u8>) -> Result<RtuFrame, Seq<char>> {
    match RtuFrame::parsed(frame) {
        Ok(adu) => Ok(adu),
        Err(error) => Err(error.text()),
    }
}

/// Reads the message in `frame`. Only one request is under way on a line, so
/// whatever comes is taken as its response.
pub fn read_frame(frame: &[u8]) -> (read: Result<RtuAdu, String>)
    ensures
        read matches Ok(adu) ==> received(frame@) == Ok::<RtuFrame, Seq<char>>(adu@),
        read matches Err(reason) ==> received(frame@) == Err::<RtuFrame, Seq<char>>(reason@),
{
    match RtuAdu::decode(frame) {
        Ok(adu) => Ok(adu),
        Err(error) => Err(error.to_string()),
    }
}

/// The response to `request` with the message `pdu`.
pub open spec fn answer(request: RtuFrame, pdu: Seq<u8>) -> RtuFrame {
    RtuFrame { unit_id: request.unit_id, pdu }
}

/// The response to `request` with the message `response_pdu`: it comes from the
/// unit that was asked.
pub fn respond(request: &RtuAdu, response_pdu: Vec<u8>) -> (response: RtuAdu)
    ensures
        response@ == answer(request@, response_pdu@),
{
    RtuAdu { unit_id: request.unit_id, pdu: response_pdu }
}

proof fn lemma_bytes_are_read(frame: Seq<u8>, bytes: Seq<u8>, behind: Seq<LineEvent>)
    requires
        frame.len() + bytes.len() <= RTU_MAX_FRAME_LEN,
    ensures
        reading(frame, bytes.map_values(|byte: u8| LineEvent::Byte(byte)) + behind) == reading(
            frame + bytes,
            behind,
        ),
    decreases bytes.len(),
{
    let events = bytes.map_values(|byte: u8| LineEvent::Byte(byte));
    if bytes.len() == 0 {
        assert(events + behind =~= behind);
        assert(frame + bytes =~= frame);
    } else {
        let rest = bytes.drop_first();
        lemma_bytes_are_read(frame.push(bytes[0]), rest, behind);
        assert((events + behind).drop_first() =~= rest.map_values(
            |byte: u8| LineEvent::Byte(byte),
        ) + behind);
        assert(frame.push(bytes[0]) + rest =~= frame + bytes);
    }
}

/// A frame that is sent byte by byte, and then silence or the end of the line, is
/// read as it was sent, and holds the message that was sent.
pub proof fn law_frame_is_read_back(frame: RtuFrame, end: LineEvent, behind: Seq<LineEvent>)
    requires
        frame.bytes().len() <= RTU_MAX_FRAME_LEN,
        !(end is Byte),
    ensures
        reading(
            Seq::empty(),
            frame.bytes().map_values(|byte: u8| LineEvent::Byte(byte)) + (seq![end] + behind),
        ) == Reading::Frame(frame.bytes()),
        received(frame.bytes()) == Ok::<RtuFrame, Seq<char>>(frame),
{
    let bytes = frame.bytes();
    lemma_bytes_are_read(Seq::empty(), bytes, seq![end] + behind);
    assert(Seq::<u8>::empty() + bytes =~= bytes);
    assert((seq![end] + behind)[0] == end);
    frame.law_round_trip();
}

/// Bytes that come without a pause, more than a frame can have, are refused.
pub proof fn law_endless_frame_is_refused(bytes: Seq<u8>, behind: Seq<LineEvent>)
    requires
        bytes.len() > RTU_MAX_FRAME_LEN,
    ensures
        reading(
            Seq::empty(),
            bytes.map_values(|byte: u8| LineEvent::Byte(byte)) + behind,
        ) == Reading::Failed(LineFailure::TooLong),
{
    let events = bytes.map_values(|byte: u8| LineEvent::Byte(byte));
    let front = bytes.take(RTU_MAX_FRAME_LEN as int);
    let rest = bytes.skip(RTU_MAX_FRAME_LEN as int).map_values(|byte: u8| LineEvent::Byte(byte))
        + behind;
    assert(events + behind =~= front.map_values(|byte: u8| LineEvent::Byte(byte)) + rest);
    lemma_bytes_are_read(Seq::empty(), front, rest);
    assert(Seq::<u8>::empty() + front =~= front);
    assert(rest[0] == LineEvent::Byte(bytes[RTU_MAX_FRAME_LEN as int]));
}

/// Below 19200 baud the silence is that of three and a half characters of eleven bits, to
/// the precision of one nanosecond a character: three and a half times `11_000_000_000`
/// by the baud rate. From there on it is 1.75 milliseconds.
pub proof fn law_silence_is_three_and_a_half_characters(baud_rate: u32)
    requires
        baud_rate > 0,
    ensures
        baud_rate >= 19200 ==> silence_nanos(baud_rate) == 1_750_000,
        baud_rate < 19200 ==> 2 * silence_nanos(baud_rate) * baud_rate <= 77_000_000_000 < 2 * (
        silence_nanos(baud_rate) + 4) * baud_rate,
{
    if baud_rate < 19200 {
        let b = baud_rate as int;
        let c = 11_000_000_000int / b;
        let n = c * 7 / 2;
        assert(c * b <= 11_000_000_000 < (c + 1) * b) by (nonlinear_arith)
            requires
                c == 11_000_000_000int / b,
                b > 0,
        ;
        assert(2 * n <= 7 * c <= 2 * n + 1);
        assert(2 * n * b <= 77_000_000_000 < 2 * (n + 4) * b) by (nonlinear_arith)
            requires
                2 * n <= 7 * c <= 2 * n + 1,
                c * b <= 11_000_000_000 < (c + 1) * b,
                b > 0,
        ;
    }
}

/// Nothing is read where nothing came: the end of the line and a wait without an answer
/// fail, each as what it is.
pub proof fn law_nothing_is_read_of_nothing(behind: Seq<LineEvent>)
    ensures
        reading(Seq::empty(), seq![LineEvent::Closed] + behind) == Reading::Failed(
            LineFailure::Closed,
        ),
        reading(Seq::empty(), seq![LineEvent::Elapsed] + behind) == Reading::Failed(
            LineFailure::TimedOut,
        ),
{
    assert((seq![LineEvent::Closed] + behind)[0] == LineEvent::Closed);
    assert((seq![LineEvent::Elapsed] + behind)[0] == LineEvent::Elapsed);
}

/// The longest frame that is read has 256 bytes, and one of that length is read.
pub proof fn law_longest_frame(bytes: Seq<u8>, end: LineEvent)
    requires
        bytes.len() > 0,
        !(end is Byte),
    ensures
        reading(
            Seq::empty(),
            bytes.map_values(|byte: u8| LineEvent::Byte(byte)) + seq![end],
        ) == (if bytes.len() <= 256 {
            Reading::Frame(bytes)
        } else {
            Reading::Failed(LineFailure::TooLong)
        }),
{
    let events = bytes.map_values(|byte: u8| LineEvent::Byte(byte));
    if bytes.len() <= 256 {
        lemma_bytes_are_read(Seq::empty(), bytes, seq![end]);
        assert(Seq::<u8>::empty() + bytes =~= bytes);
    } else {
        law_endless_frame_is_refused(bytes, seq![end]);
    }
}

/// A response starts, on the wire, with the unit that its request started with, and the
/// message follows.
pub proof fn law_answer_comes_from_the_unit_asked(request: RtuFrame, pdu: Seq<u8>, k: int)
    ensures
        answer(request, pdu).bytes()[0] == request.bytes()[0],
        answer(request, pdu).bytes().len() == pdu.len() + 3,
        0 <= k < pdu.len() ==> answer(request, pdu).bytes()[1 + k] == pdu[k],
{
    crate::adu::law_rtu_frame_layout(request, 0);
    crate::adu::law_rtu_frame_layout(answer(request, pdu), k);
}

} // verus!
