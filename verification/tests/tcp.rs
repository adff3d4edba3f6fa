use infused_modbus::adu::{TcpAdu, MBAP_HEADER_LEN};
use infused_modbus::pdu::{ReadHoldingRegistersRequest, ReadHoldingRegistersResponse};
use infused_modbus::tcp::{read_body_length, read_response, TcpSession};

/// Reads a frame as it arrives: its header, and as many bytes as that says.
fn receive(transaction_id: u16, stream: &[u8]) -> Result<TcpAdu, String> {
    let body = read_body_length(&stream[..MBAP_HEADER_LEN])?;
    read_response(transaction_id, &stream[..MBAP_HEADER_LEN + body])
}

#[test]
fn send_request_returns_matching_response() {
    let response = TcpAdu {
        transaction_id: 0x0042,
        unit_id: 0x01,
        pdu: vec![0x03, 0x04, 0x00, 0x01, 0x00, 0x02],
    };
    let mut stream = response.encode();
    stream.push(0xFF);
    assert_eq!(receive(0x0042, &stream), Ok(response));
}

#[test]
fn send_request_rejects_mismatched_transaction_id() {
    let response = TcpAdu {
        transaction_id: 0x0002,
        unit_id: 0x01,
        pdu: vec![0x03, 0x04, 0x00, 0x01, 0x00, 0x02],
    };
    assert_eq!(
        receive(0x0001, &response.encode()),
        Err("transaction id mismatch: sent 1, received 2".to_string())
    );
}

#[test]
fn send_request_rejects_oversized_length_without_reading_body() {
    let header = [0x00, 0x01, 0x00, 0x00, 0xFF, 0xFF, 0x01];
    assert_eq!(
        receive(0x0001, &header),
        Err("invalid MBAP length field: 65535".to_string())
    );
}

#[test]
fn a_length_of_nothing_or_too_much_is_refused() {
    assert_eq!(read_body_length(&[0, 1, 0, 0, 0, 254, 1]), Ok(253));
    assert_eq!(read_body_length(&[0, 1, 0, 0, 0, 1, 1]), Ok(0));
    assert_eq!(
        read_body_length(&[0, 1, 0, 0, 0, 0, 1]),
        Err("invalid MBAP length field: 0".to_string())
    );
    assert_eq!(
        read_body_length(&[0, 1, 0, 0, 0, 255, 1]),
        Err("invalid MBAP length field: 255".to_string())
    );
}

#[test]
fn another_protocol_is_refused() {
    assert_eq!(
        receive(1, &[0, 1, 0, 5, 0, 2, 1, 3]),
        Err("UnexpectedProtocolId { actual: 5 }".to_string())
    );
}

#[test]
fn tcp_connection_sends_a_request_and_returns_the_response_pdu() {
    let mut session = TcpSession::new();
    let request_pdu = ReadHoldingRegistersRequest {
        starting_address: 40001,
        quantity: 1,
    }
    .encode();
    let request = session.request(0x01, request_pdu.clone());
    let mut response = request.encode()[..7].to_vec();
    assert_eq!(&request.encode()[7..], &request_pdu[..]);

    let response_pdu = ReadHoldingRegistersResponse {
        register_values: vec![42],
    }
    .encode();
    let length = (response_pdu.len() + 1) as u16;
    response[4..6].copy_from_slice(&length.to_be_bytes());
    response.extend_from_slice(&response_pdu);

    let received = receive(request.transaction_id, &response).unwrap();
    assert_eq!(
        ReadHoldingRegistersResponse::decode(&received.pdu).unwrap(),
        ReadHoldingRegistersResponse {
            register_values: vec![42]
        }
    );
}

#[test]
fn requests_are_numbered_from_one_and_the_numbers_come_round() {
    let mut session = TcpSession::new();
    assert_eq!(session.request(1, vec![]).transaction_id, 1);
    assert_eq!(session.request(1, vec![]).transaction_id, 2);
    session.next_transaction_id = 0xFFFF;
    assert_eq!(session.request(1, vec![]).transaction_id, 0);
}
