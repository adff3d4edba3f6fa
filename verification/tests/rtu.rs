use infused_modbus::adu::RtuAdu;
use infused_modbus::rtu::{
    frame_silence_for_baud_rate, frame_silence_nanos, read_frame, respond, FrameReader, LineEvent,
    LineFailure, LineStep, RTU_MAX_FRAME_LEN,
};
use std::time::Duration;

#[test]
fn frame_silence_is_a_flat_1_75ms_at_high_baud_rates() {
    assert_eq!(
        frame_silence_for_baud_rate(19200),
        Duration::from_micros(1750)
    );
    assert_eq!(
        frame_silence_for_baud_rate(115200),
        Duration::from_micros(1750)
    );
}

#[test]
fn frame_silence_follows_the_3_5_character_time_formula_below_19200() {
    // At 9600 baud, one character (11 bits) takes 11/9600 s ≈ 1145.83µs;
    // 3.5 character times ≈ 4010.4µs.
    let silence = frame_silence_for_baud_rate(9600);
    assert!(
        silence >= Duration::from_micros(4000) && silence <= Duration::from_micros(4020),
        "expected ~4010µs, got {silence:?}"
    );
}

/// Reads a frame from `events`, and says how many were needed.
fn read_line(events: &[LineEvent]) -> (LineStep, usize) {
    let mut reader = FrameReader::new();
    for (index, event) in events.iter().enumerate() {
        assert_eq!(reader.has_started(), index > 0);
        match reader.receive(*event) {
            LineStep::Wait(next) => reader = next,
            step => return (step, index + 1),
        }
    }
    (LineStep::Wait(reader), events.len())
}

fn bytes(frame: &[u8]) -> Vec<LineEvent> {
    frame.iter().map(|byte| LineEvent::Byte(*byte)).collect()
}

#[test]
fn send_request_returns_the_response_after_a_silence_gap() {
    let response = RtuAdu {
        unit_id: 0x01,
        pdu: vec![0x03, 0x04, 0x00, 0x01, 0x00, 0x02],
    };
    let mut events = bytes(&response.encode());
    events.push(LineEvent::Elapsed);
    events.push(LineEvent::Byte(0xFF));

    let (step, used) = read_line(&events);
    assert_eq!(used, events.len() - 1);
    match step {
        LineStep::Frame(frame) => assert_eq!(read_frame(&frame), Ok(response)),
        _ => panic!("expected a frame"),
    }
}

#[test]
fn send_request_times_out_when_nothing_ever_arrives() {
    let (step, _) = read_line(&[LineEvent::Elapsed]);
    assert_eq!(step, LineStep::Failed(LineFailure::TimedOut));
    assert_eq!(
        LineFailure::TimedOut.to_string(),
        "Modbus operation timed out"
    );
}

#[test]
fn serve_request_dispatches_to_handler_and_writes_response() {
    let request = RtuAdu {
        unit_id: 0x07,
        pdu: vec![0x03, 0x00, 0x00, 0x00, 0x0A],
    };
    let mut events = bytes(&request.encode());
    events.push(LineEvent::Elapsed);
    let frame = match read_line(&events).0 {
        LineStep::Frame(frame) => frame,
        _ => panic!("expected a frame"),
    };
    let received = read_frame(&frame).unwrap();
    assert_eq!(received.pdu, vec![0x03, 0x00, 0x00, 0x00, 0x0A]);

    let response = respond(&received, vec![0x03, 0x04, 0x00, 0x01, 0x00, 0x02]);
    assert_eq!(
        RtuAdu::decode(&response.encode()).unwrap(),
        RtuAdu {
            unit_id: 0x07,
            pdu: vec![0x03, 0x04, 0x00, 0x01, 0x00, 0x02],
        }
    );
}

#[test]
fn serve_request_times_out_when_request_never_arrives() {
    let reader = FrameReader::new();
    assert!(!reader.has_started());
    assert_eq!(
        reader.receive(LineEvent::Elapsed),
        LineStep::Failed(LineFailure::TimedOut)
    );
}

#[test]
fn send_request_rejects_a_frame_with_a_bad_crc() {
    let result = read_frame(&[0x01, 0x03, 0x04, 0x00, 0x01, 0x00, 0x02, 0x00, 0x00]);
    let reason = result.unwrap_err();
    assert!(reason.starts_with("CrcMismatch { expected: "));
    assert!(reason.ends_with(", actual: 0 }"));
}

#[test]
fn a_line_that_closes_ends_the_frame_or_fails() {
    assert_eq!(
        read_line(&[LineEvent::Closed]).0,
        LineStep::Failed(LineFailure::Closed)
    );
    assert_eq!(
        LineFailure::Closed.to_string(),
        "connection closed before any RTU frame data arrived"
    );
    assert_eq!(
        read_line(&[LineEvent::Byte(1), LineEvent::Closed]).0,
        LineStep::Frame(vec![1])
    );
}

#[test]
fn a_frame_of_256_bytes_is_read_and_a_longer_one_is_refused() {
    let mut events = bytes(&[0xAA; RTU_MAX_FRAME_LEN]);
    events.push(LineEvent::Elapsed);
    assert_eq!(read_line(&events).0, LineStep::Frame(vec![0xAA; 256]));

    let (step, used) = read_line(&bytes(&[0xAA; 300]));
    assert_eq!(step, LineStep::Failed(LineFailure::TooLong));
    assert_eq!(used, 257);
    assert_eq!(
        LineFailure::TooLong.to_string(),
        "RTU frame exceeded the maximum possible ADU length without a silence gap"
    );
}

#[test]
fn the_silence_is_exact_to_the_nanosecond() {
    assert_eq!(frame_silence_nanos(9600), 4_010_415);
    assert_eq!(frame_silence_nanos(19199), 2_005_311);
    assert_eq!(frame_silence_nanos(19200), 1_750_000);
    assert_eq!(frame_silence_nanos(1), 38_500_000_000);
    assert_eq!(
        frame_silence_for_baud_rate(9600),
        Duration::from_nanos(4_010_415)
    );
    assert_ne!(
        frame_silence_for_baud_rate(9600),
        frame_silence_for_baud_rate(4800)
    );
}

#[test]
fn a_slower_line_never_waits_less() {
    let rates = [300, 1200, 9600, 19199, 19200, 115200];
    for pair in rates.windows(2) {
        assert!(frame_silence_nanos(pair[0]) >= frame_silence_nanos(pair[1]));
    }
}
