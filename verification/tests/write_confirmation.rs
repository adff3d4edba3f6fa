use infused_modbus::device_description::{
    AccessRight, CoilDescription, DataType, MemLayout, RegisterDescription,
};
use infused_modbus::pdu::{
    ExceptionResponse, WriteMultipleCoilsResponse, WriteMultipleRegistersResponse,
    WriteSingleRegisterRequest,
};
use infused_modbus::values::{CoilValue, Float32, RegisterValue, WriteStatus};
use infused_modbus::write_confirmation::{
    confirm_coil_write, confirm_coil_write_multiple, confirm_reply, confirm_write,
    confirm_write_multiple, encode_coil_write_request, encode_write_request,
    interpret_write_response,
};

fn single(value: f32) -> RegisterValue {
    RegisterValue::F32(Float32 {
        bits: value.to_bits(),
        text: value.to_string(),
    })
}

fn stay_silent(_request: Vec<u8>) -> Result<Vec<u8>, String> {
    Err("Modbus operation timed out".to_string())
}

fn refuse(request: Vec<u8>) -> Result<Vec<u8>, String> {
    Ok(ExceptionResponse {
        function_code: request[0],
        exception_code: 0x02,
    }
    .encode())
}

fn u16_register() -> RegisterDescription {
    RegisterDescription {
        name: "Stop_Process".to_string(),
        address: 40001,
        data_type: DataType::U16,
        access: AccessRight::ReadWrite,
    }
}

fn a_coil() -> CoilDescription {
    CoilDescription {
        name: "Motor_Running".to_string(),
        address: 1,
    }
}

#[test]
fn encode_coil_write_request_builds_write_single_coil_pdu() {
    let pdu = encode_coil_write_request(&a_coil(), CoilValue(true));
    assert_eq!(pdu, vec![0x05, 0x00, 0x01, 0xFF, 0x00]);
}

fn f32_register() -> RegisterDescription {
    RegisterDescription {
        name: "Flow_Setpoint".to_string(),
        address: 40002,
        data_type: DataType::F32,
        access: AccessRight::ReadWrite,
    }
}

#[test]
fn encode_write_request_builds_write_single_register_pdu_for_u16() {
    let pdu =
        encode_write_request(&u16_register(), RegisterValue::U16(1), MemLayout::Abcd).unwrap();
    assert_eq!(pdu, vec![0x06, 0x9C, 0x41, 0x00, 0x01]);
}

#[test]
fn encode_write_request_builds_write_single_register_pdu_for_i16() {
    let register = RegisterDescription {
        name: "Signed_Setpoint".to_string(),
        address: 40003,
        data_type: DataType::I16,
        access: AccessRight::ReadWrite,
    };
    let pdu = encode_write_request(&register, RegisterValue::I16(-5), MemLayout::Abcd).unwrap();
    assert_eq!(pdu, vec![0x06, 0x9C, 0x43, 0xFF, 0xFB]);
}

#[test]
fn encode_write_request_rejects_registers_wider_than_one_slot() {
    // F32 needs 2 registers — Write Single Register can only ever
    // carry one wire word, regardless of the value's own correctness.
    let result =
        encode_write_request(&f32_register(), single(3.5), MemLayout::Abcd);
    assert!(result.is_err());
}

#[test]
fn encode_write_request_rejects_mismatched_value_type() {
    let result =
        encode_write_request(&u16_register(), single(3.5), MemLayout::Abcd);
    assert!(result.is_err());
}

#[test]
fn interpret_write_response_treats_non_exception_as_ok() {
    let response = WriteSingleRegisterRequest {
        register_address: 40001,
        register_value: 1,
    }
    .encode();
    assert_eq!(interpret_write_response(&response), WriteStatus::Succeeded);
}

#[test]
fn interpret_write_response_treats_exception_as_failed() {
    let response = ExceptionResponse {
        function_code: 0x06,
        exception_code: 0x02,
    }
    .encode();
    assert_eq!(
        interpret_write_response(&response),
        WriteStatus::Failed("device returned Modbus exception code 2".to_string())
    );
}

#[test]
fn interpret_write_response_treats_malformed_bytes_as_failed() {
    assert!(matches!(
        interpret_write_response(&[]),
        WriteStatus::Failed(_)
    ));
}

#[test]
fn the_reasons_of_a_refused_request_name_register_and_types() {
    assert_eq!(
        encode_write_request(&f32_register(), single(3.5), MemLayout::Abcd),
        Err(
            "register Flow_Setpoint: F32 needs 2 registers, Write Single Register can't carry it"
                .to_string()
        )
    );
    assert_eq!(
        encode_write_request(&u16_register(), RegisterValue::I16(1), MemLayout::Abcd),
        Err("register Stop_Process: expected a U16 value but got a I16 one".to_string())
    );
}

#[test]
fn confirm_write_returns_ok_when_device_echoes_the_write() {
    let echo = |request: Vec<u8>| {
        assert_eq!(request, vec![0x06, 0x9C, 0x41, 0x00, 0x01]);
        Ok(request)
    };
    let status = confirm_write(
        echo,
        &u16_register(),
        RegisterValue::U16(1),
        MemLayout::Abcd,
    );
    assert_eq!(status, WriteStatus::Succeeded);
}

#[test]
fn confirm_write_returns_failed_when_device_returns_an_exception() {
    let status = confirm_write(
        refuse,
        &u16_register(),
        RegisterValue::U16(1),
        MemLayout::Abcd,
    );
    assert_eq!(
        status,
        WriteStatus::Failed("device returned Modbus exception code 2".to_string())
    );
}

#[test]
fn confirm_write_returns_failed_when_the_device_never_responds() {
    let status = confirm_write(
        stay_silent,
        &u16_register(),
        RegisterValue::U16(1),
        MemLayout::Abcd,
    );
    assert_eq!(
        status,
        WriteStatus::Failed("write failed: Modbus operation timed out".to_string())
    );
}

#[test]
fn confirm_write_returns_failed_without_sending_for_a_register_wider_than_one_slot() {
    let never = |_request: Vec<u8>| -> Result<Vec<u8>, String> { panic!("nothing may be sent") };
    let status = confirm_write(never, &f32_register(), single(3.5), MemLayout::Abcd);
    assert!(matches!(status, WriteStatus::Failed(_)));
}

#[test]
fn confirm_coil_write_returns_ok_when_device_echoes_the_write() {
    let echo = |request: Vec<u8>| {
        assert_eq!(request, vec![0x05, 0x00, 0x01, 0xFF, 0x00]);
        Ok(request)
    };
    let status = confirm_coil_write(echo, &a_coil(), CoilValue(true));
    assert_eq!(status, WriteStatus::Succeeded);
}

#[test]
fn confirm_coil_write_returns_failed_when_device_returns_an_exception() {
    let status = confirm_coil_write(refuse, &a_coil(), CoilValue(true));
    assert!(matches!(status, WriteStatus::Failed(_)));
}

#[test]
fn confirm_coil_write_returns_failed_when_the_device_never_responds() {
    let status = confirm_coil_write(stay_silent, &a_coil(), CoilValue(true));
    assert!(matches!(status, WriteStatus::Failed(_)));
}

#[test]
fn confirm_write_multiple_returns_ok_when_device_echoes_the_write() {
    let acknowledge = |request: Vec<u8>| {
        assert_eq!(
            request,
            vec![0x10, 0x9C, 0x4A, 0x00, 0x02, 0x04, 0x00, 0x0B, 0x00, 0x16]
        );
        Ok(WriteMultipleRegistersResponse {
            starting_address: 40010,
            quantity: 2,
        }
        .encode())
    };
    let status = confirm_write_multiple(acknowledge, 40010, &[11, 22]);
    assert_eq!(status, WriteStatus::Succeeded);
}

#[test]
fn confirm_write_multiple_returns_failed_when_device_returns_an_exception() {
    let status = confirm_write_multiple(refuse, 40010, &[11, 22]);
    assert!(matches!(status, WriteStatus::Failed(_)));
}

#[test]
fn confirm_coil_write_multiple_returns_ok_when_device_echoes_the_write() {
    let acknowledge = |request: Vec<u8>| {
        assert_eq!(request, vec![0x0F, 0x00, 0x01, 0x00, 0x02, 0x01, 0x01]);
        Ok(WriteMultipleCoilsResponse {
            starting_address: 1,
            quantity: 2,
        }
        .encode())
    };
    let status = confirm_coil_write_multiple(acknowledge, 1, &[true, false]);
    assert_eq!(status, WriteStatus::Succeeded);
}

#[test]
fn confirm_coil_write_multiple_returns_failed_when_the_device_never_responds() {
    let status = confirm_coil_write_multiple(stay_silent, 1, &[true, false]);
    assert!(matches!(status, WriteStatus::Failed(_)));
}

#[test]
fn a_reply_decides_the_outcome() {
    assert_eq!(
        confirm_reply(&Ok(vec![0x06, 0x9C])),
        WriteStatus::Succeeded
    );
    assert_eq!(
        confirm_reply(&stay_silent(vec![])),
        WriteStatus::Failed("write failed: Modbus operation timed out".to_string())
    );
}

#[test]
fn a_malformed_response_is_reported_as_such() {
    assert_eq!(
        interpret_write_response(&[0x06]),
        WriteStatus::Failed("malformed write response: TooShort".to_string())
    );
}
