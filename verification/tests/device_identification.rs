use infused_modbus::device_identification::{DescriptionFetch, FetchFailure, FetchStep};
use infused_modbus::pdu::{
    DeviceIdentificationObject, ExceptionResponse, ReadDeviceIdentificationRequest,
    ReadDeviceIdentificationResponse, EXCEPTION_ILLEGAL_FUNCTION, READ_DEVICE_ID_EXTENDED,
};

fn object(id: u8, value: &[u8]) -> DeviceIdentificationObject {
    DeviceIdentificationObject {
        id,
        value: value.to_vec(),
    }
}

fn page(
    more_follows: bool,
    next_object_id: u8,
    objects: Vec<DeviceIdentificationObject>,
) -> Vec<u8> {
    ReadDeviceIdentificationResponse {
        read_device_id_code: READ_DEVICE_ID_EXTENDED,
        conformity_level: 0x03,
        more_follows,
        next_object_id,
        objects,
    }
    .encode()
}

/// Runs an exchange in which the device expects the requests for `expected`, and
/// gives the replies `replies`.
fn fetch(expected: &[u8], replies: &[Vec<u8>]) -> Result<String, FetchFailure> {
    let mut state = DescriptionFetch::new();
    for (object_id, reply) in expected.iter().zip(replies) {
        let request = ReadDeviceIdentificationRequest::decode(&state.request()).unwrap();
        assert_eq!(request.read_device_id_code, READ_DEVICE_ID_EXTENDED);
        assert_eq!(request.object_id, *object_id);
        match state.receive(Some(reply)) {
            FetchStep::Ask(next) => state = next,
            FetchStep::Fetched(description) => return Ok(description),
            FetchStep::Failed(failure) => return Err(failure),
        }
    }
    match state.receive(None) {
        FetchStep::Failed(failure) => Err(failure),
        _ => panic!("a missing reply has to end the exchange"),
    }
}

#[test]
fn fetches_a_description_that_fits_in_one_response() {
    let reply = page(
        false,
        0,
        vec![object(0x80, &[0x01]), object(0x81, b"name = \"X\"")],
    );
    assert_eq!(fetch(&[0x80], &[reply]), Ok("name = \"X\"".to_string()));
}

#[test]
fn fetches_a_description_split_across_multiple_responses() {
    let replies = [
        page(true, 0x81, vec![object(0x80, &[0x01])]),
        page(true, 0x82, vec![object(0x81, b"part one, ")]),
        page(false, 0, vec![object(0x82, b"part two")]),
    ];
    assert_eq!(
        fetch(&[0x80, 0x81, 0x82], &replies),
        Ok("part one, part two".to_string())
    );
}

#[test]
fn falls_back_when_the_server_has_no_description() {
    let reply = page(false, 0, vec![object(0x80, &[0x00])]);
    assert_eq!(fetch(&[0x80], &[reply]), Err(FetchFailure::NotOffered));
    let empty = page(false, 0, vec![object(0x80, &[])]);
    assert_eq!(fetch(&[0x80], &[empty]), Err(FetchFailure::NotOffered));
}

#[test]
fn falls_back_when_the_server_does_not_support_fc43() {
    let exception = ExceptionResponse {
        function_code: 0x2B,
        exception_code: EXCEPTION_ILLEGAL_FUNCTION,
    };
    assert_eq!(
        fetch(&[0x80], &[exception.encode()]),
        Err(FetchFailure::Exception(EXCEPTION_ILLEGAL_FUNCTION))
    );
}

#[test]
fn falls_back_when_the_server_never_responds() {
    assert_eq!(fetch(&[], &[]), Err(FetchFailure::NoReply));
}

#[test]
fn falls_back_when_the_response_is_no_identification() {
    assert_eq!(
        fetch(&[0x80], &[vec![0x03, 0x02, 0x00, 0x01]]),
        Err(FetchFailure::Malformed)
    );
}

#[test]
fn falls_back_when_the_description_is_no_utf_8() {
    let reply = page(false, 0, vec![object(0x81, &[0xC3, 0x28])]);
    assert_eq!(fetch(&[0x80], &[reply]), Err(FetchFailure::NotUtf8));
}

#[test]
fn a_character_may_be_cut_between_two_pieces() {
    let replies = [
        page(true, 0x82, vec![object(0x80, &[0x01]), object(0x81, &[0xC3])]),
        page(false, 0, vec![object(0x82, &[0xA4]), object(0x00, b"vendor")]),
    ];
    assert_eq!(fetch(&[0x80, 0x82], &replies), Ok("\u{e4}".to_string()));
}
