use infused_modbus::pdu::{
    DeviceIdentificationObject, ExceptionResponse, FUNCTION_CODE_READ_HOLDING_REGISTERS,
    MaskWriteRegisterRequest, MaskWriteRegisterResponse, READ_DEVICE_ID_EXTENDED, ReadCoilsRequest,
    ReadCoilsResponse, ReadDeviceIdentificationRequest, ReadDeviceIdentificationResponse,
    ReadDiscreteInputsRequest, ReadDiscreteInputsResponse, ReadHoldingRegistersRequest,
    ReadHoldingRegistersResponse, ReadInputRegistersRequest, ReadInputRegistersResponse,
    ReportServerIdRequest, ReportServerIdResponse, WriteMultipleCoilsRequest,
    WriteMultipleCoilsResponse, WriteMultipleRegistersRequest, WriteMultipleRegistersResponse,
    WriteSingleCoilRequest, WriteSingleCoilResponse, WriteSingleRegisterRequest,
    WriteSingleRegisterResponse,
};
use infused_modbus::DecodeError;

#[test]
fn read_coils_request_round_trip() {
    let request = ReadCoilsRequest {
        starting_address: 0x0001,
        quantity: 10,
    };
    let encoded = request.encode();
    let decoded = ReadCoilsRequest::decode(&encoded).unwrap();
    assert_eq!(request, decoded);
}

#[test]
fn read_coils_request_encode_produces_expected_bytes() {
    let request = ReadCoilsRequest {
        starting_address: 0x0001,
        quantity: 0x0002,
    };
    assert_eq!(request.encode(), vec![0x01, 0x00, 0x01, 0x00, 0x02]);
}

#[test]
fn read_coils_request_decode_rejects_too_short_buffer() {
    let bytes = [0x01, 0x00, 0x01, 0x00];
    assert_eq!(ReadCoilsRequest::decode(&bytes), Err(DecodeError::TooShort));
}

#[test]
fn read_coils_request_decode_rejects_wrong_function_code() {
    let bytes = [0x03, 0x00, 0x01, 0x00, 0x02];
    assert_eq!(
        ReadCoilsRequest::decode(&bytes),
        Err(DecodeError::UnexpectedFunctionCode {
            expected: 0x01,
            actual: 0x03
        })
    );
}

#[test]
fn read_coils_response_round_trip() {
    // 10 coils, not a multiple of 8, so the last byte carries padding
    // bits that must survive the round trip unchanged.
    let response = ReadCoilsResponse {
        coil_values: vec![
            true, false, true, true, false, false, false, true, true, false, false, false,
            false, false, false, false,
        ],
    };
    let encoded = response.encode();
    let decoded = ReadCoilsResponse::decode(&encoded).unwrap();
    assert_eq!(response, decoded);
}

#[test]
fn read_coils_response_encode_produces_expected_bytes() {
    let response = ReadCoilsResponse {
        coil_values: vec![true, false, true, true, false, false, false, true],
    };
    assert_eq!(response.encode(), vec![0x01, 0x01, 0x8D]);
}

#[test]
fn read_coils_response_decode_rejects_too_short_header() {
    let bytes = [0x01];
    assert_eq!(
        ReadCoilsResponse::decode(&bytes),
        Err(DecodeError::TooShort)
    );
}

#[test]
fn read_coils_response_decode_rejects_declared_byte_count_exceeding_buffer() {
    let bytes = [0x01, 0x02, 0x8D];
    assert_eq!(
        ReadCoilsResponse::decode(&bytes),
        Err(DecodeError::TooShort)
    );
}

#[test]
fn read_coils_response_decode_rejects_wrong_function_code() {
    let bytes = [0x03, 0x01, 0x8D];
    assert_eq!(
        ReadCoilsResponse::decode(&bytes),
        Err(DecodeError::UnexpectedFunctionCode {
            expected: 0x01,
            actual: 0x03
        })
    );
}

#[test]
fn read_discrete_inputs_request_round_trip() {
    let request = ReadDiscreteInputsRequest {
        starting_address: 0x0001,
        quantity: 10,
    };
    let encoded = request.encode();
    let decoded = ReadDiscreteInputsRequest::decode(&encoded).unwrap();
    assert_eq!(request, decoded);
}

#[test]
fn read_discrete_inputs_request_encode_produces_expected_bytes() {
    let request = ReadDiscreteInputsRequest {
        starting_address: 0x0001,
        quantity: 0x0002,
    };
    assert_eq!(request.encode(), vec![0x02, 0x00, 0x01, 0x00, 0x02]);
}

#[test]
fn read_discrete_inputs_request_decode_rejects_too_short_buffer() {
    let bytes = [0x02, 0x00, 0x01, 0x00];
    assert_eq!(
        ReadDiscreteInputsRequest::decode(&bytes),
        Err(DecodeError::TooShort)
    );
}

#[test]
fn read_discrete_inputs_request_decode_rejects_wrong_function_code() {
    let bytes = [0x01, 0x00, 0x01, 0x00, 0x02];
    assert_eq!(
        ReadDiscreteInputsRequest::decode(&bytes),
        Err(DecodeError::UnexpectedFunctionCode {
            expected: 0x02,
            actual: 0x01
        })
    );
}

#[test]
fn read_discrete_inputs_response_round_trip() {
    let response = ReadDiscreteInputsResponse {
        discrete_input_values: vec![
            true, false, true, true, false, false, false, true, true, false, false, false,
            false, false, false, false,
        ],
    };
    let encoded = response.encode();
    let decoded = ReadDiscreteInputsResponse::decode(&encoded).unwrap();
    assert_eq!(response, decoded);
}

#[test]
fn read_discrete_inputs_response_encode_produces_expected_bytes() {
    let response = ReadDiscreteInputsResponse {
        discrete_input_values: vec![true, false, true, true, false, false, false, true],
    };
    assert_eq!(response.encode(), vec![0x02, 0x01, 0x8D]);
}

#[test]
fn read_discrete_inputs_response_decode_rejects_too_short_header() {
    let bytes = [0x02];
    assert_eq!(
        ReadDiscreteInputsResponse::decode(&bytes),
        Err(DecodeError::TooShort)
    );
}

#[test]
fn read_discrete_inputs_response_decode_rejects_declared_byte_count_exceeding_buffer() {
    let bytes = [0x02, 0x02, 0x8D];
    assert_eq!(
        ReadDiscreteInputsResponse::decode(&bytes),
        Err(DecodeError::TooShort)
    );
}

#[test]
fn read_discrete_inputs_response_decode_rejects_wrong_function_code() {
    let bytes = [0x03, 0x01, 0x8D];
    assert_eq!(
        ReadDiscreteInputsResponse::decode(&bytes),
        Err(DecodeError::UnexpectedFunctionCode {
            expected: 0x02,
            actual: 0x03
        })
    );
}

#[test]
fn request_round_trip() {
    let request = ReadHoldingRegistersRequest {
        starting_address: 0x0001,
        quantity: 10,
    };
    let encoded = request.encode();
    let decoded = ReadHoldingRegistersRequest::decode(&encoded).unwrap();
    assert_eq!(request, decoded);
}

#[test]
fn request_encode_produces_expected_bytes() {
    let request = ReadHoldingRegistersRequest {
        starting_address: 0x0001,
        quantity: 0x0002,
    };
    assert_eq!(request.encode(), vec![0x03, 0x00, 0x01, 0x00, 0x02]);
}

#[test]
fn request_decode_rejects_too_short_buffer() {
    let bytes = [0x03, 0x00, 0x01, 0x00];
    assert_eq!(
        ReadHoldingRegistersRequest::decode(&bytes),
        Err(DecodeError::TooShort)
    );
}

#[test]
fn request_decode_rejects_wrong_function_code() {
    let bytes = [0x04, 0x00, 0x01, 0x00, 0x02];
    assert_eq!(
        ReadHoldingRegistersRequest::decode(&bytes),
        Err(DecodeError::UnexpectedFunctionCode {
            expected: 0x03,
            actual: 0x04
        })
    );
}

#[test]
fn response_round_trip() {
    let response = ReadHoldingRegistersResponse {
        register_values: vec![0x0001, 0xBEEF, 0x0000],
    };
    let encoded = response.encode();
    let decoded = ReadHoldingRegistersResponse::decode(&encoded).unwrap();
    assert_eq!(response, decoded);
}

#[test]
fn response_encode_produces_expected_bytes() {
    let response = ReadHoldingRegistersResponse {
        register_values: vec![0x0001, 0x0002],
    };
    assert_eq!(response.encode(), vec![0x03, 0x04, 0x00, 0x01, 0x00, 0x02]);
}

#[test]
fn response_decode_rejects_too_short_header() {
    let bytes = [0x03];
    assert_eq!(
        ReadHoldingRegistersResponse::decode(&bytes),
        Err(DecodeError::TooShort)
    );
}

#[test]
fn response_decode_rejects_declared_byte_count_exceeding_buffer() {
    let bytes = [0x03, 0x04, 0x00, 0x01];
    assert_eq!(
        ReadHoldingRegistersResponse::decode(&bytes),
        Err(DecodeError::TooShort)
    );
}

#[test]
fn response_decode_rejects_wrong_function_code() {
    let bytes = [0x04, 0x00];
    assert_eq!(
        ReadHoldingRegistersResponse::decode(&bytes),
        Err(DecodeError::UnexpectedFunctionCode {
            expected: 0x03,
            actual: 0x04
        })
    );
}

#[test]
fn response_decode_rejects_odd_byte_count() {
    let bytes = [0x03, 0x03, 0x00, 0x01, 0x00];
    assert_eq!(
        ReadHoldingRegistersResponse::decode(&bytes),
        Err(DecodeError::OddByteCount { byte_count: 3 })
    );
}

#[test]
fn read_input_registers_request_round_trip() {
    let request = ReadInputRegistersRequest {
        starting_address: 0x0001,
        quantity: 10,
    };
    let encoded = request.encode();
    let decoded = ReadInputRegistersRequest::decode(&encoded).unwrap();
    assert_eq!(request, decoded);
}

#[test]
fn read_input_registers_request_encode_produces_expected_bytes() {
    let request = ReadInputRegistersRequest {
        starting_address: 0x0001,
        quantity: 0x0002,
    };
    assert_eq!(request.encode(), vec![0x04, 0x00, 0x01, 0x00, 0x02]);
}

#[test]
fn read_input_registers_request_decode_rejects_too_short_buffer() {
    let bytes = [0x04, 0x00, 0x01, 0x00];
    assert_eq!(
        ReadInputRegistersRequest::decode(&bytes),
        Err(DecodeError::TooShort)
    );
}

#[test]
fn read_input_registers_request_decode_rejects_wrong_function_code() {
    let bytes = [0x03, 0x00, 0x01, 0x00, 0x02];
    assert_eq!(
        ReadInputRegistersRequest::decode(&bytes),
        Err(DecodeError::UnexpectedFunctionCode {
            expected: 0x04,
            actual: 0x03
        })
    );
}

#[test]
fn read_input_registers_response_round_trip() {
    let response = ReadInputRegistersResponse {
        register_values: vec![0x0001, 0xBEEF, 0x0000],
    };
    let encoded = response.encode();
    let decoded = ReadInputRegistersResponse::decode(&encoded).unwrap();
    assert_eq!(response, decoded);
}

#[test]
fn read_input_registers_response_encode_produces_expected_bytes() {
    let response = ReadInputRegistersResponse {
        register_values: vec![0x0001, 0x0002],
    };
    assert_eq!(response.encode(), vec![0x04, 0x04, 0x00, 0x01, 0x00, 0x02]);
}

#[test]
fn read_input_registers_response_decode_rejects_too_short_header() {
    let bytes = [0x04];
    assert_eq!(
        ReadInputRegistersResponse::decode(&bytes),
        Err(DecodeError::TooShort)
    );
}

#[test]
fn read_input_registers_response_decode_rejects_declared_byte_count_exceeding_buffer() {
    let bytes = [0x04, 0x04, 0x00, 0x01];
    assert_eq!(
        ReadInputRegistersResponse::decode(&bytes),
        Err(DecodeError::TooShort)
    );
}

#[test]
fn read_input_registers_response_decode_rejects_wrong_function_code() {
    let bytes = [0x03, 0x00];
    assert_eq!(
        ReadInputRegistersResponse::decode(&bytes),
        Err(DecodeError::UnexpectedFunctionCode {
            expected: 0x04,
            actual: 0x03
        })
    );
}

#[test]
fn read_input_registers_response_decode_rejects_odd_byte_count() {
    let bytes = [0x04, 0x03, 0x00, 0x01, 0x00];
    assert_eq!(
        ReadInputRegistersResponse::decode(&bytes),
        Err(DecodeError::OddByteCount { byte_count: 3 })
    );
}

#[test]
fn write_single_coil_request_round_trip() {
    let request = WriteSingleCoilRequest {
        coil_address: 0x0001,
        coil_value: true,
    };
    let encoded = request.encode();
    let decoded = WriteSingleCoilRequest::decode(&encoded).unwrap();
    assert_eq!(request, decoded);
}

#[test]
fn write_single_coil_request_encode_produces_expected_bytes() {
    let request = WriteSingleCoilRequest {
        coil_address: 0x0001,
        coil_value: true,
    };
    assert_eq!(request.encode(), vec![0x05, 0x00, 0x01, 0xFF, 0x00]);

    let request_off = WriteSingleCoilRequest {
        coil_address: 0x0001,
        coil_value: false,
    };
    assert_eq!(request_off.encode(), vec![0x05, 0x00, 0x01, 0x00, 0x00]);
}

#[test]
fn write_single_coil_request_decode_rejects_too_short_buffer() {
    let bytes = [0x05, 0x00, 0x01, 0xFF];
    assert_eq!(
        WriteSingleCoilRequest::decode(&bytes),
        Err(DecodeError::TooShort)
    );
}

#[test]
fn write_single_coil_request_decode_rejects_wrong_function_code() {
    let bytes = [0x06, 0x00, 0x01, 0xFF, 0x00];
    assert_eq!(
        WriteSingleCoilRequest::decode(&bytes),
        Err(DecodeError::UnexpectedFunctionCode {
            expected: 0x05,
            actual: 0x06
        })
    );
}

#[test]
fn write_single_coil_request_decode_rejects_invalid_coil_value() {
    let bytes = [0x05, 0x00, 0x01, 0x12, 0x34];
    assert_eq!(
        WriteSingleCoilRequest::decode(&bytes),
        Err(DecodeError::InvalidCoilValue { actual: 0x1234 })
    );
}

#[test]
fn write_single_coil_response_round_trip() {
    let response = WriteSingleCoilResponse {
        coil_address: 0x0001,
        coil_value: true,
    };
    let encoded = response.encode();
    let decoded = WriteSingleCoilResponse::decode(&encoded).unwrap();
    assert_eq!(response, decoded);
}

#[test]
fn write_single_coil_response_encode_produces_expected_bytes() {
    let response = WriteSingleCoilResponse {
        coil_address: 0x0001,
        coil_value: true,
    };
    assert_eq!(response.encode(), vec![0x05, 0x00, 0x01, 0xFF, 0x00]);
}

#[test]
fn write_single_coil_response_decode_rejects_too_short_buffer() {
    let bytes = [0x05, 0x00, 0x01, 0xFF];
    assert_eq!(
        WriteSingleCoilResponse::decode(&bytes),
        Err(DecodeError::TooShort)
    );
}

#[test]
fn write_single_coil_response_decode_rejects_wrong_function_code() {
    let bytes = [0x06, 0x00, 0x01, 0xFF, 0x00];
    assert_eq!(
        WriteSingleCoilResponse::decode(&bytes),
        Err(DecodeError::UnexpectedFunctionCode {
            expected: 0x05,
            actual: 0x06
        })
    );
}

#[test]
fn write_single_coil_response_decode_rejects_invalid_coil_value() {
    let bytes = [0x05, 0x00, 0x01, 0x12, 0x34];
    assert_eq!(
        WriteSingleCoilResponse::decode(&bytes),
        Err(DecodeError::InvalidCoilValue { actual: 0x1234 })
    );
}

#[test]
fn write_single_register_request_round_trip() {
    let request = WriteSingleRegisterRequest {
        register_address: 0x0001,
        register_value: 0x00FF,
    };
    let encoded = request.encode();
    let decoded = WriteSingleRegisterRequest::decode(&encoded).unwrap();
    assert_eq!(request, decoded);
}

#[test]
fn write_single_register_request_encode_produces_expected_bytes() {
    let request = WriteSingleRegisterRequest {
        register_address: 0x0001,
        register_value: 0x00FF,
    };
    assert_eq!(request.encode(), vec![0x06, 0x00, 0x01, 0x00, 0xFF]);
}

#[test]
fn write_single_register_request_decode_rejects_too_short_buffer() {
    let bytes = [0x06, 0x00, 0x01, 0x00];
    assert_eq!(
        WriteSingleRegisterRequest::decode(&bytes),
        Err(DecodeError::TooShort)
    );
}

#[test]
fn write_single_register_request_decode_rejects_wrong_function_code() {
    let bytes = [0x03, 0x00, 0x01, 0x00, 0xFF];
    assert_eq!(
        WriteSingleRegisterRequest::decode(&bytes),
        Err(DecodeError::UnexpectedFunctionCode {
            expected: 0x06,
            actual: 0x03
        })
    );
}

#[test]
fn write_single_register_response_round_trip() {
    let response = WriteSingleRegisterResponse {
        register_address: 0x0001,
        register_value: 0x00FF,
    };
    let encoded = response.encode();
    let decoded = WriteSingleRegisterResponse::decode(&encoded).unwrap();
    assert_eq!(response, decoded);
}

#[test]
fn write_single_register_response_encode_produces_expected_bytes() {
    let response = WriteSingleRegisterResponse {
        register_address: 0x0001,
        register_value: 0x00FF,
    };
    assert_eq!(response.encode(), vec![0x06, 0x00, 0x01, 0x00, 0xFF]);
}

#[test]
fn write_single_register_response_decode_rejects_too_short_buffer() {
    let bytes = [0x06, 0x00, 0x01, 0x00];
    assert_eq!(
        WriteSingleRegisterResponse::decode(&bytes),
        Err(DecodeError::TooShort)
    );
}

#[test]
fn write_single_register_response_decode_rejects_wrong_function_code() {
    let bytes = [0x03, 0x00, 0x01, 0x00, 0xFF];
    assert_eq!(
        WriteSingleRegisterResponse::decode(&bytes),
        Err(DecodeError::UnexpectedFunctionCode {
            expected: 0x06,
            actual: 0x03
        })
    );
}

#[test]
fn mask_write_register_request_round_trip() {
    let request = MaskWriteRegisterRequest {
        reference_address: 0x0004,
        and_mask: 0x00F2,
        or_mask: 0x0025,
    };
    let encoded = request.encode();
    let decoded = MaskWriteRegisterRequest::decode(&encoded).unwrap();
    assert_eq!(request, decoded);
}

#[test]
fn mask_write_register_request_encode_produces_expected_bytes() {
    let request = MaskWriteRegisterRequest {
        reference_address: 0x0004,
        and_mask: 0x00F2,
        or_mask: 0x0025,
    };
    assert_eq!(
        request.encode(),
        vec![0x16, 0x00, 0x04, 0x00, 0xF2, 0x00, 0x25]
    );
}

#[test]
fn mask_write_register_request_decode_rejects_too_short_buffer() {
    let bytes = [0x16, 0x00, 0x04, 0x00, 0xF2, 0x00];
    assert_eq!(
        MaskWriteRegisterRequest::decode(&bytes),
        Err(DecodeError::TooShort)
    );
}

#[test]
fn mask_write_register_request_decode_rejects_wrong_function_code() {
    let bytes = [0x06, 0x00, 0x04, 0x00, 0xF2, 0x00, 0x25];
    assert_eq!(
        MaskWriteRegisterRequest::decode(&bytes),
        Err(DecodeError::UnexpectedFunctionCode {
            expected: 0x16,
            actual: 0x06
        })
    );
}

#[test]
fn mask_write_register_response_round_trip() {
    let response = MaskWriteRegisterResponse {
        reference_address: 0x0004,
        and_mask: 0x00F2,
        or_mask: 0x0025,
    };
    let encoded = response.encode();
    let decoded = MaskWriteRegisterResponse::decode(&encoded).unwrap();
    assert_eq!(response, decoded);
}

#[test]
fn mask_write_register_response_encode_produces_expected_bytes() {
    let response = MaskWriteRegisterResponse {
        reference_address: 0x0004,
        and_mask: 0x00F2,
        or_mask: 0x0025,
    };
    assert_eq!(
        response.encode(),
        vec![0x16, 0x00, 0x04, 0x00, 0xF2, 0x00, 0x25]
    );
}

#[test]
fn mask_write_register_response_decode_rejects_too_short_buffer() {
    let bytes = [0x16, 0x00, 0x04, 0x00, 0xF2, 0x00];
    assert_eq!(
        MaskWriteRegisterResponse::decode(&bytes),
        Err(DecodeError::TooShort)
    );
}

#[test]
fn mask_write_register_response_decode_rejects_wrong_function_code() {
    let bytes = [0x06, 0x00, 0x04, 0x00, 0xF2, 0x00, 0x25];
    assert_eq!(
        MaskWriteRegisterResponse::decode(&bytes),
        Err(DecodeError::UnexpectedFunctionCode {
            expected: 0x16,
            actual: 0x06
        })
    );
}

#[test]
fn report_server_id_request_round_trip() {
    let request = ReportServerIdRequest;
    let encoded = request.encode();
    let decoded = ReportServerIdRequest::decode(&encoded).unwrap();
    assert_eq!(request, decoded);
}

#[test]
fn report_server_id_request_encode_produces_expected_bytes() {
    assert_eq!(ReportServerIdRequest.encode(), vec![0x11]);
}

#[test]
fn report_server_id_request_decode_rejects_empty_buffer() {
    assert_eq!(
        ReportServerIdRequest::decode(&[]),
        Err(DecodeError::TooShort)
    );
}

#[test]
fn report_server_id_request_decode_rejects_wrong_function_code() {
    assert_eq!(
        ReportServerIdRequest::decode(&[0x06]),
        Err(DecodeError::UnexpectedFunctionCode {
            expected: 0x11,
            actual: 0x06
        })
    );
}

#[test]
fn report_server_id_response_round_trip() {
    let response = ReportServerIdResponse {
        server_id: b"infused_modbus".to_vec(),
        run_indicator_status: true,
    };
    let encoded = response.encode();
    let decoded = ReportServerIdResponse::decode(&encoded).unwrap();
    assert_eq!(response, decoded);
}

#[test]
fn report_server_id_response_encode_produces_expected_bytes() {
    let response = ReportServerIdResponse {
        server_id: vec![0x41, 0x42],
        run_indicator_status: true,
    };
    // function code, byte_count (2 id bytes + 1 run indicator = 3), id
    // bytes, run indicator (0xFF = ON).
    assert_eq!(response.encode(), vec![0x11, 0x03, 0x41, 0x42, 0xFF]);
}

#[test]
fn report_server_id_response_encode_of_an_empty_server_id() {
    let response = ReportServerIdResponse {
        server_id: vec![],
        run_indicator_status: false,
    };
    assert_eq!(response.encode(), vec![0x11, 0x01, 0x00]);
}

#[test]
fn report_server_id_response_decode_reads_the_run_indicator_status() {
    let bytes = [0x11, 0x03, 0x41, 0x42, 0x00];
    assert_eq!(
        ReportServerIdResponse::decode(&bytes).unwrap(),
        ReportServerIdResponse {
            server_id: vec![0x41, 0x42],
            run_indicator_status: false,
        }
    );
}

#[test]
fn report_server_id_response_decode_rejects_too_short_buffer() {
    assert_eq!(
        ReportServerIdResponse::decode(&[0x11]),
        Err(DecodeError::TooShort)
    );
}

#[test]
fn report_server_id_response_decode_rejects_a_byte_count_claiming_more_than_the_buffer_holds() {
    // byte_count says 10, but only 2 bytes actually follow — must be
    // rejected before slicing, not read out-of-bounds or truncated
    // silently.
    let bytes = [0x11, 0x0A, 0x41, 0x42];
    assert_eq!(
        ReportServerIdResponse::decode(&bytes),
        Err(DecodeError::TooShort)
    );
}

#[test]
fn report_server_id_response_decode_rejects_a_zero_byte_count() {
    let bytes = [0x11, 0x00];
    assert_eq!(
        ReportServerIdResponse::decode(&bytes),
        Err(DecodeError::TooShort)
    );
}

#[test]
fn report_server_id_response_decode_rejects_wrong_function_code() {
    let bytes = [0x06, 0x03, 0x41, 0x42, 0xFF];
    assert_eq!(
        ReportServerIdResponse::decode(&bytes),
        Err(DecodeError::UnexpectedFunctionCode {
            expected: 0x11,
            actual: 0x06
        })
    );
}

#[test]
fn write_multiple_coils_request_round_trip() {
    // 9 coils, not a multiple of 8 — decode must trim the last byte's
    // padding bits back off using the wire's own quantity field,
    // rather than exposing all 16 raw bits from byte_count.
    let request = WriteMultipleCoilsRequest {
        starting_address: 0x0013,
        coil_values: vec![true, false, true, true, false, false, false, true, true],
    };
    let encoded = request.encode();
    let decoded = WriteMultipleCoilsRequest::decode(&encoded).unwrap();
    assert_eq!(request, decoded);
}

#[test]
fn write_multiple_coils_request_decode_rejects_quantity_byte_count_mismatch() {
    // quantity = 9 (needs byte_count 2) but byte_count claims 3 —
    // decode must not silently trust byte_count and expose an extra,
    // meaningless byte of "coil" data.
    let bytes = [0x0F, 0x00, 0x13, 0x00, 0x09, 0x03, 0x8D, 0x01, 0x00];
    assert_eq!(
        WriteMultipleCoilsRequest::decode(&bytes),
        Err(DecodeError::QuantityByteCountMismatch {
            quantity: 9,
            byte_count: 3
        })
    );
}

#[test]
fn write_multiple_coils_request_encode_produces_expected_bytes() {
    let request = WriteMultipleCoilsRequest {
        starting_address: 0x0013,
        coil_values: vec![true, false, true, true, false, false, false, true, true],
    };
    assert_eq!(
        request.encode(),
        vec![0x0F, 0x00, 0x13, 0x00, 0x09, 0x02, 0x8D, 0x01]
    );
}

#[test]
fn write_multiple_coils_request_decode_rejects_too_short_header() {
    let bytes = [0x0F, 0x00, 0x13, 0x00, 0x09];
    assert_eq!(
        WriteMultipleCoilsRequest::decode(&bytes),
        Err(DecodeError::TooShort)
    );
}

#[test]
fn write_multiple_coils_request_decode_rejects_declared_byte_count_exceeding_buffer() {
    let bytes = [0x0F, 0x00, 0x13, 0x00, 0x09, 0x02, 0x8D];
    assert_eq!(
        WriteMultipleCoilsRequest::decode(&bytes),
        Err(DecodeError::TooShort)
    );
}

#[test]
fn write_multiple_coils_request_decode_rejects_wrong_function_code() {
    let bytes = [0x10, 0x00, 0x13, 0x00, 0x09, 0x02, 0x8D, 0x01];
    assert_eq!(
        WriteMultipleCoilsRequest::decode(&bytes),
        Err(DecodeError::UnexpectedFunctionCode {
            expected: 0x0F,
            actual: 0x10
        })
    );
}

#[test]
fn write_multiple_coils_response_round_trip() {
    let response = WriteMultipleCoilsResponse {
        starting_address: 0x0013,
        quantity: 9,
    };
    let encoded = response.encode();
    let decoded = WriteMultipleCoilsResponse::decode(&encoded).unwrap();
    assert_eq!(response, decoded);
}

#[test]
fn write_multiple_coils_response_encode_produces_expected_bytes() {
    let response = WriteMultipleCoilsResponse {
        starting_address: 0x0013,
        quantity: 9,
    };
    assert_eq!(response.encode(), vec![0x0F, 0x00, 0x13, 0x00, 0x09]);
}

#[test]
fn write_multiple_coils_response_decode_rejects_too_short_buffer() {
    let bytes = [0x0F, 0x00, 0x13, 0x00];
    assert_eq!(
        WriteMultipleCoilsResponse::decode(&bytes),
        Err(DecodeError::TooShort)
    );
}

#[test]
fn write_multiple_coils_response_decode_rejects_wrong_function_code() {
    let bytes = [0x10, 0x00, 0x13, 0x00, 0x09];
    assert_eq!(
        WriteMultipleCoilsResponse::decode(&bytes),
        Err(DecodeError::UnexpectedFunctionCode {
            expected: 0x0F,
            actual: 0x10
        })
    );
}

#[test]
fn write_multiple_registers_request_round_trip() {
    let request = WriteMultipleRegistersRequest {
        starting_address: 0x0001,
        register_values: vec![0x000A, 0x0102],
    };
    let encoded = request.encode();
    let decoded = WriteMultipleRegistersRequest::decode(&encoded).unwrap();
    assert_eq!(request, decoded);
}

#[test]
fn write_multiple_registers_request_encode_produces_expected_bytes() {
    let request = WriteMultipleRegistersRequest {
        starting_address: 0x0001,
        register_values: vec![0x000A, 0x0102],
    };
    assert_eq!(
        request.encode(),
        vec![0x10, 0x00, 0x01, 0x00, 0x02, 0x04, 0x00, 0x0A, 0x01, 0x02]
    );
}

#[test]
fn write_multiple_registers_request_decode_rejects_too_short_header() {
    let bytes = [0x10, 0x00, 0x01, 0x00, 0x02];
    assert_eq!(
        WriteMultipleRegistersRequest::decode(&bytes),
        Err(DecodeError::TooShort)
    );
}

#[test]
fn write_multiple_registers_request_decode_rejects_declared_byte_count_exceeding_buffer() {
    let bytes = [0x10, 0x00, 0x01, 0x00, 0x02, 0x04, 0x00, 0x0A];
    assert_eq!(
        WriteMultipleRegistersRequest::decode(&bytes),
        Err(DecodeError::TooShort)
    );
}

#[test]
fn write_multiple_registers_request_decode_rejects_wrong_function_code() {
    let bytes = [0x03, 0x00, 0x01, 0x00, 0x02, 0x04, 0x00, 0x0A, 0x01, 0x02];
    assert_eq!(
        WriteMultipleRegistersRequest::decode(&bytes),
        Err(DecodeError::UnexpectedFunctionCode {
            expected: 0x10,
            actual: 0x03
        })
    );
}

#[test]
fn write_multiple_registers_request_decode_rejects_odd_byte_count() {
    let bytes = [0x10, 0x00, 0x01, 0x00, 0x01, 0x03, 0x00];
    assert_eq!(
        WriteMultipleRegistersRequest::decode(&bytes),
        Err(DecodeError::OddByteCount { byte_count: 3 })
    );
}

#[test]
fn write_multiple_registers_response_round_trip() {
    let response = WriteMultipleRegistersResponse {
        starting_address: 0x0001,
        quantity: 2,
    };
    let encoded = response.encode();
    let decoded = WriteMultipleRegistersResponse::decode(&encoded).unwrap();
    assert_eq!(response, decoded);
}

#[test]
fn write_multiple_registers_response_encode_produces_expected_bytes() {
    let response = WriteMultipleRegistersResponse {
        starting_address: 0x0001,
        quantity: 2,
    };
    assert_eq!(response.encode(), vec![0x10, 0x00, 0x01, 0x00, 0x02]);
}

#[test]
fn write_multiple_registers_response_decode_rejects_too_short_buffer() {
    let bytes = [0x10, 0x00, 0x01, 0x00];
    assert_eq!(
        WriteMultipleRegistersResponse::decode(&bytes),
        Err(DecodeError::TooShort)
    );
}

#[test]
fn write_multiple_registers_response_decode_rejects_wrong_function_code() {
    let bytes = [0x03, 0x00, 0x01, 0x00, 0x02];
    assert_eq!(
        WriteMultipleRegistersResponse::decode(&bytes),
        Err(DecodeError::UnexpectedFunctionCode {
            expected: 0x10,
            actual: 0x03
        })
    );
}

#[test]
fn exception_response_round_trip() {
    let response = ExceptionResponse {
        function_code: FUNCTION_CODE_READ_HOLDING_REGISTERS,
        exception_code: 0x02,
    };
    let encoded = response.encode();
    let decoded = ExceptionResponse::decode(&encoded).unwrap();
    assert_eq!(response, decoded);
}

#[test]
fn exception_response_encode_produces_expected_bytes() {
    let response = ExceptionResponse {
        function_code: FUNCTION_CODE_READ_HOLDING_REGISTERS,
        exception_code: 0x02,
    };
    assert_eq!(response.encode(), vec![0x83, 0x02]);
}

#[test]
fn exception_response_decode_rejects_too_short_buffer() {
    let bytes = [0x83];
    assert_eq!(
        ExceptionResponse::decode(&bytes),
        Err(DecodeError::TooShort)
    );
}

#[test]
fn exception_response_decode_rejects_missing_exception_bit() {
    let bytes = [0x03, 0x02];
    assert_eq!(
        ExceptionResponse::decode(&bytes),
        Err(DecodeError::NotAnExceptionResponse {
            function_code: 0x03
        })
    );
}

#[test]
fn read_device_identification_request_round_trip() {
    let request = ReadDeviceIdentificationRequest {
        read_device_id_code: READ_DEVICE_ID_EXTENDED,
        object_id: 0x80,
    };
    let encoded = request.encode();
    let decoded = ReadDeviceIdentificationRequest::decode(&encoded).unwrap();
    assert_eq!(request, decoded);
}

#[test]
fn read_device_identification_request_encode_produces_expected_bytes() {
    let request = ReadDeviceIdentificationRequest {
        read_device_id_code: READ_DEVICE_ID_EXTENDED,
        object_id: 0x80,
    };
    assert_eq!(request.encode(), vec![0x2B, 0x0E, 0x03, 0x80]);
}

#[test]
fn read_device_identification_request_decode_rejects_wrong_mei_type() {
    let bytes = [0x2B, 0x0D, 0x03, 0x80];
    assert_eq!(
        ReadDeviceIdentificationRequest::decode(&bytes),
        Err(DecodeError::UnexpectedMeiType {
            expected: 0x0E,
            actual: 0x0D
        })
    );
}

#[test]
fn read_device_identification_request_decode_rejects_too_short_buffer() {
    let bytes = [0x2B, 0x0E, 0x03];
    assert_eq!(
        ReadDeviceIdentificationRequest::decode(&bytes),
        Err(DecodeError::TooShort)
    );
}

#[test]
fn read_device_identification_response_round_trip_with_objects() {
    let response = ReadDeviceIdentificationResponse {
        read_device_id_code: READ_DEVICE_ID_EXTENDED,
        conformity_level: 0x83,
        more_follows: true,
        next_object_id: 0x82,
        objects: vec![
            DeviceIdentificationObject {
                id: 0x80,
                value: vec![0x01],
            },
            DeviceIdentificationObject {
                id: 0x81,
                value: b"name = \"Stop_Process\"".to_vec(),
            },
        ],
    };
    let encoded = response.encode();
    let decoded = ReadDeviceIdentificationResponse::decode(&encoded).unwrap();
    assert_eq!(response, decoded);
}

#[test]
fn read_device_identification_response_round_trip_with_no_objects() {
    let response = ReadDeviceIdentificationResponse {
        read_device_id_code: READ_DEVICE_ID_EXTENDED,
        conformity_level: 0x83,
        more_follows: false,
        next_object_id: 0x00,
        objects: vec![],
    };
    let encoded = response.encode();
    let decoded = ReadDeviceIdentificationResponse::decode(&encoded).unwrap();
    assert_eq!(response, decoded);
}

#[test]
fn read_device_identification_response_decode_rejects_too_short_header() {
    let bytes = [0x2B, 0x0E, 0x03, 0x83, 0x00];
    assert_eq!(
        ReadDeviceIdentificationResponse::decode(&bytes),
        Err(DecodeError::TooShort)
    );
}

#[test]
fn read_device_identification_response_decode_rejects_declared_object_count_exceeding_buffer() {
    // Claims 2 objects but only includes bytes for a truncated first one.
    let bytes = [0x2B, 0x0E, 0x03, 0x83, 0x00, 0x00, 0x02, 0x80, 0x05, 0x01];
    assert_eq!(
        ReadDeviceIdentificationResponse::decode(&bytes),
        Err(DecodeError::TooShort)
    );
}

#[test]
fn read_device_identification_response_decode_rejects_declared_object_length_exceeding_buffer()
{
    // Object 0x80 claims a length of 10 but only 1 byte of value follows.
    let bytes = [0x2B, 0x0E, 0x03, 0x83, 0x00, 0x00, 0x01, 0x80, 0x0A, 0x01];
    assert_eq!(
        ReadDeviceIdentificationResponse::decode(&bytes),
        Err(DecodeError::TooShort)
    );
}

#[test]
fn read_device_identification_response_decode_rejects_wrong_function_code() {
    let bytes = [0x03, 0x0E, 0x03, 0x83, 0x00, 0x00, 0x00];
    assert_eq!(
        ReadDeviceIdentificationResponse::decode(&bytes),
        Err(DecodeError::UnexpectedFunctionCode {
            expected: 0x2B,
            actual: 0x03
        })
    );
}
