use infused_modbus::adu::{RtuAdu, TcpAdu, crc16_modbus};
use infused_modbus::DecodeError;

#[test]
fn tcp_adu_round_trip() {
    let adu = TcpAdu {
        transaction_id: 0x0001,
        unit_id: 0x01,
        pdu: vec![0x03, 0x00, 0x01, 0x00, 0x02],
    };
    let encoded = adu.encode();
    let decoded = TcpAdu::decode(&encoded).unwrap();
    assert_eq!(adu, decoded);
}

#[test]
fn tcp_adu_encode_produces_expected_bytes() {
    let adu = TcpAdu {
        transaction_id: 0x0001,
        unit_id: 0x01,
        pdu: vec![0x03, 0x00, 0x01, 0x00, 0x02],
    };
    assert_eq!(
        adu.encode(),
        vec![
            0x00, 0x01, 0x00, 0x00, 0x00, 0x06, 0x01, 0x03, 0x00, 0x01, 0x00, 0x02
        ]
    );
}

#[test]
fn tcp_adu_decode_rejects_too_short_header() {
    let bytes = [0x00, 0x01, 0x00, 0x00, 0x00, 0x06];
    assert_eq!(TcpAdu::decode(&bytes), Err(DecodeError::TooShort));
}

#[test]
fn tcp_adu_decode_rejects_buffer_shorter_than_declared_length() {
    let bytes = [0x00, 0x01, 0x00, 0x00, 0x00, 0x06, 0x01, 0x03, 0x00];
    assert_eq!(TcpAdu::decode(&bytes), Err(DecodeError::TooShort));
}

#[test]
fn tcp_adu_decode_rejects_unexpected_protocol_id() {
    let bytes = [0x00, 0x01, 0x00, 0x01, 0x00, 0x02, 0x01, 0x03];
    assert_eq!(
        TcpAdu::decode(&bytes),
        Err(DecodeError::UnexpectedProtocolId { actual: 0x0001 })
    );
}

#[test]
fn tcp_adu_decode_rejects_zero_length() {
    let bytes = [0x00, 0x01, 0x00, 0x00, 0x00, 0x00, 0x01];
    assert_eq!(
        TcpAdu::decode(&bytes),
        Err(DecodeError::InvalidAduLength { length: 0 })
    );
}

#[test]
fn tcp_adu_decode_rejects_length_exceeding_maximum() {
    let mut bytes = vec![0x00, 0x01, 0x00, 0x00, 0xFF, 0xFF, 0x01];
    bytes.extend(std::iter::repeat_n(0u8, 0xFFFF - 1));
    assert_eq!(
        TcpAdu::decode(&bytes),
        Err(DecodeError::InvalidAduLength { length: 0xFFFF })
    );
}

#[test]
fn crc16_modbus_matches_known_vector() {
    // Widely cited Modbus RTU example: slave 1, Read Holding Registers,
    // starting address 0, quantity 10.
    let data = [0x01, 0x03, 0x00, 0x00, 0x00, 0x0A];
    assert_eq!(crc16_modbus(&data), 0xCDC5);
}

#[test]
fn rtu_adu_round_trip() {
    let adu = RtuAdu {
        unit_id: 0x01,
        pdu: vec![0x03, 0x00, 0x00, 0x00, 0x0A],
    };
    let encoded = adu.encode();
    let decoded = RtuAdu::decode(&encoded).unwrap();
    assert_eq!(adu, decoded);
}

#[test]
fn rtu_adu_encode_produces_expected_bytes() {
    let adu = RtuAdu {
        unit_id: 0x01,
        pdu: vec![0x03, 0x00, 0x00, 0x00, 0x0A],
    };
    assert_eq!(
        adu.encode(),
        vec![0x01, 0x03, 0x00, 0x00, 0x00, 0x0A, 0xC5, 0xCD]
    );
}

#[test]
fn rtu_adu_decode_rejects_too_short_buffer() {
    let bytes = [0x01, 0xC5];
    assert_eq!(RtuAdu::decode(&bytes), Err(DecodeError::TooShort));
}

#[test]
fn rtu_adu_decode_rejects_crc_mismatch() {
    let bytes = [0x01, 0x03, 0x00, 0x00, 0x00, 0x0A, 0x00, 0x00];
    assert_eq!(
        RtuAdu::decode(&bytes),
        Err(DecodeError::CrcMismatch {
            expected: 0xCDC5,
            actual: 0x0000
        })
    );
}

#[test]
fn a_frame_with_any_byte_changed_is_refused() {
    let frame = RtuAdu {
        unit_id: 0x01,
        pdu: vec![0x03, 0x04, 0x00, 0x01, 0x00, 0x02],
    }
    .encode();
    for index in 0..frame.len() {
        for change in 1..=255u8 {
            let mut changed = frame.clone();
            changed[index] ^= change;
            assert!(RtuAdu::decode(&changed).is_err());
        }
    }
}

#[test]
fn bytes_behind_a_tcp_frame_are_left_alone() {
    let adu = TcpAdu {
        transaction_id: 7,
        unit_id: 1,
        pdu: vec![0x03],
    };
    let mut bytes = adu.encode();
    bytes.extend_from_slice(&[0xAA, 0xBB]);
    assert_eq!(TcpAdu::decode(&bytes), Ok(adu));
}

#[test]
fn errors_are_told_by_name_and_fields() {
    assert_eq!(DecodeError::TooShort.to_string(), "TooShort");
    for error in [
        DecodeError::UnexpectedFunctionCode {
            expected: 3,
            actual: 4,
        },
        DecodeError::OddByteCount { byte_count: 3 },
        DecodeError::QuantityByteCountMismatch {
            quantity: 2,
            byte_count: 3,
        },
        DecodeError::NotAnExceptionResponse { function_code: 5 },
        DecodeError::InvalidCoilValue { actual: 0x1234 },
        DecodeError::UnexpectedMeiType {
            expected: 14,
            actual: 13,
        },
        DecodeError::UnexpectedProtocolId { actual: 1 },
        DecodeError::InvalidAduLength { length: 0 },
        DecodeError::CrcMismatch {
            expected: 1,
            actual: 2,
        },
    ] {
        assert_eq!(error.to_string(), format!("{error:?}"));
    }
}
