use infused_modbus::device_description::{
    AccessRight, CoilDescription, DataType, DiscreteInputDescription, FileRecordDescription,
    InputRegisterDescription, MemLayout, RegisterDescription,
};
use infused_modbus::pdu::{
    ExceptionResponse, ReadCoilsResponse, ReadDiscreteInputsResponse, ReadFileRecordResponse,
    ReadHoldingRegistersResponse, ReadInputRegistersResponse,
};
use infused_modbus::polling::{
    apply_coil_response, apply_discrete_input_response, apply_file_record_response,
    apply_input_register_response, apply_register_response, build_coil_read_batches,
    build_discrete_input_read_batches, build_input_register_read_batches, build_read_batches,
    coil_read_request, discrete_input_read_request, file_record_read_request,
    input_register_read_request, register_read_request, RegisterBatch,
};
use infused_modbus::stores::{
    CoilStore, DiscreteInputStore, FileRecordStore, InputRegisterStore, RegisterStore,
};
use infused_modbus::values::{CoilValue, RegisterValue};

fn single(bits: u32) -> String {
    f32::from_bits(bits).to_string()
}

fn double(bits: u64) -> String {
    f64::from_bits(bits).to_string()
}

fn apply(
    batch: &RegisterBatch,
    register_values: Vec<u16>,
    mem_layout: MemLayout,
    store: &mut RegisterStore,
) -> bool {
    let response = ReadHoldingRegistersResponse { register_values }.encode();
    apply_register_response(batch, Some(&response), mem_layout, store, &single, &double)
}

fn register(name: &str, address: u16, data_type: DataType) -> RegisterDescription {
    RegisterDescription {
        name: name.to_string(),
        address,
        data_type,
        access: AccessRight::ReadOnly,
    }
}

fn coil(name: &str, address: u16) -> CoilDescription {
    CoilDescription {
        name: name.to_string(),
        address,
    }
}

fn discrete_input(name: &str, address: u16) -> DiscreteInputDescription {
    DiscreteInputDescription {
        name: name.to_string(),
        address,
    }
}

fn input_register(name: &str, address: u16, data_type: DataType) -> InputRegisterDescription {
    InputRegisterDescription {
        name: name.to_string(),
        address,
        data_type,
    }
}

fn file_record(
    file_number: u16,
    record_number: u16,
    record_length: u16,
) -> FileRecordDescription {
    FileRecordDescription {
        file_number,
        record_number,
        record_length,
    }
}

#[test]
fn contiguous_registers_are_grouped_into_one_batch() {
    let registers = vec![
        register("A", 40001, DataType::U16),
        register("B", 40002, DataType::U16),
        register("C", 40003, DataType::U16),
    ];
    let batches = build_read_batches(&registers);
    assert_eq!(batches.len(), 1);
    assert_eq!(batches[0].starting_address, 40001);
    assert_eq!(batches[0].quantity(), 3);
}

#[test]
fn polling_a_gap_in_addresses_starts_a_new_batch() {
    let registers = vec![
        register("A", 40001, DataType::U16),
        register("B", 40010, DataType::U16),
    ];
    let batches = build_read_batches(&registers);
    assert_eq!(batches.len(), 2);
    assert_eq!(batches[0].starting_address, 40001);
    assert_eq!(batches[1].starting_address, 40010);
}

#[test]
fn multi_register_types_occupy_more_than_one_wire_slot() {
    let registers = vec![
        register("A", 40001, DataType::U16),
        register("B", 40002, DataType::F32),
        register("C", 40004, DataType::U16),
    ];
    let batches = build_read_batches(&registers);
    assert_eq!(batches.len(), 1);
    assert_eq!(batches[0].items.len(), 3);
    assert_eq!(batches[0].quantity(), 4);
}

#[test]
fn a_type_wider_than_one_register_can_still_start_a_new_batch_after_a_gap() {
    let registers = vec![
        register("A", 40001, DataType::F64),
        register("B", 40010, DataType::U16),
    ];
    let batches = build_read_batches(&registers);
    assert_eq!(batches.len(), 2);
    assert_eq!(batches[0].starting_address, 40001);
    assert_eq!(batches[0].quantity(), 4);
    assert_eq!(batches[1].starting_address, 40010);
}

#[test]
fn registers_are_grouped_regardless_of_input_order() {
    let registers = vec![
        register("B", 40002, DataType::U16),
        register("A", 40001, DataType::U16),
    ];
    let batches = build_read_batches(&registers);
    assert_eq!(batches.len(), 1);
    assert_eq!(batches[0].starting_address, 40001);
    assert_eq!(
        batches[0]
            .items
            .iter()
            .map(|r| r.name.as_str())
            .collect::<Vec<_>>(),
        vec!["A", "B"]
    );
}

#[test]
fn a_batch_never_exceeds_the_modbus_read_limit() {
    let registers: Vec<RegisterDescription> = (0..130)
        .map(|offset| register(&format!("R{offset}"), 40001 + offset as u16, DataType::U16))
        .collect();
    let batches = build_read_batches(&registers);
    assert_eq!(batches.len(), 2);
    assert_eq!(batches[0].quantity(), 125);
    assert_eq!(batches[1].quantity(), 5);
}

#[test]
fn contiguous_coils_are_grouped_into_one_batch() {
    let coils = vec![coil("A", 1), coil("B", 2), coil("C", 3)];
    let batches = build_coil_read_batches(&coils);
    assert_eq!(batches.len(), 1);
    assert_eq!(batches[0].starting_address, 1);
    assert_eq!(batches[0].quantity(), 3);
}

#[test]
fn a_gap_in_coil_addresses_starts_a_new_batch() {
    let coils = vec![coil("A", 1), coil("B", 10)];
    let batches = build_coil_read_batches(&coils);
    assert_eq!(batches.len(), 2);
    assert_eq!(batches[0].starting_address, 1);
    assert_eq!(batches[1].starting_address, 10);
}

#[test]
fn a_coil_batch_never_exceeds_the_modbus_read_limit() {
    let coils: Vec<CoilDescription> = (0..2005)
        .map(|offset| coil(&format!("C{offset}"), 1 + offset as u16))
        .collect();
    let batches = build_coil_read_batches(&coils);
    assert_eq!(batches.len(), 2);
    assert_eq!(batches[0].quantity(), 2000);
    assert_eq!(batches[1].quantity(), 5);
}

#[test]
fn contiguous_discrete_inputs_are_grouped_into_one_batch() {
    let discrete_inputs = vec![
        discrete_input("A", 1),
        discrete_input("B", 2),
        discrete_input("C", 3),
    ];
    let batches = build_discrete_input_read_batches(&discrete_inputs);
    assert_eq!(batches.len(), 1);
    assert_eq!(batches[0].starting_address, 1);
    assert_eq!(batches[0].quantity(), 3);
}

#[test]
fn a_gap_in_discrete_input_addresses_starts_a_new_batch() {
    let discrete_inputs = vec![discrete_input("A", 1), discrete_input("B", 10)];
    let batches = build_discrete_input_read_batches(&discrete_inputs);
    assert_eq!(batches.len(), 2);
    assert_eq!(batches[0].starting_address, 1);
    assert_eq!(batches[1].starting_address, 10);
}

#[test]
fn a_discrete_input_batch_never_exceeds_the_modbus_read_limit() {
    let discrete_inputs: Vec<DiscreteInputDescription> = (0..2005)
        .map(|offset| discrete_input(&format!("D{offset}"), 1 + offset as u16))
        .collect();
    let batches = build_discrete_input_read_batches(&discrete_inputs);
    assert_eq!(batches.len(), 2);
    assert_eq!(batches[0].quantity(), 2000);
    assert_eq!(batches[1].quantity(), 5);
}

#[test]
fn contiguous_input_registers_are_grouped_into_one_batch() {
    let input_registers = vec![
        input_register("A", 30001, DataType::U16),
        input_register("B", 30002, DataType::U16),
    ];
    let batches = build_input_register_read_batches(&input_registers);
    assert_eq!(batches.len(), 1);
    assert_eq!(batches[0].starting_address, 30001);
    assert_eq!(batches[0].quantity(), 2);
}

#[test]
fn a_gap_in_input_register_addresses_starts_a_new_batch() {
    let input_registers = vec![
        input_register("A", 30001, DataType::U16),
        input_register("B", 30010, DataType::U16),
    ];
    let batches = build_input_register_read_batches(&input_registers);
    assert_eq!(batches.len(), 2);
    assert_eq!(batches[0].starting_address, 30001);
    assert_eq!(batches[1].starting_address, 30010);
}

#[test]
fn an_input_register_batch_never_exceeds_the_modbus_read_limit() {
    let input_registers: Vec<InputRegisterDescription> = (0..130)
        .map(|offset| {
            input_register(&format!("R{offset}"), 30001 + offset as u16, DataType::U16)
        })
        .collect();
    let batches = build_input_register_read_batches(&input_registers);
    assert_eq!(batches.len(), 2);
    assert_eq!(batches[0].quantity(), 125);
    assert_eq!(batches[1].quantity(), 5);
}

#[test]
fn poll_once_applies_a_successful_batch_to_the_store() {
    let mut store = RegisterStore::new();
    let batches = build_read_batches(&[
        register("A", 40001, DataType::U16),
        register("B", 40002, DataType::U16),
    ]);

    assert_eq!(
        register_read_request(&batches[0]),
        vec![0x03, 0x9C, 0x41, 0x00, 0x02]
    );
    assert!(apply(
        &batches[0],
        vec![11, 22],
        MemLayout::Abcd,
        &mut store
    ));
    assert_eq!(store.get("A"), Some(RegisterValue::U16(11)));
    assert_eq!(store.get("B"), Some(RegisterValue::U16(22)));
}

#[test]
fn poll_once_reassembles_a_multi_register_value_using_mem_layout() {
    let mut store = RegisterStore::new();
    let batches = build_read_batches(&[register("A", 40001, DataType::U32)]);

    assert!(apply(
        &batches[0],
        vec![0x5678, 0x1234],
        MemLayout::Cdab,
        &mut store
    ));
    assert_eq!(store.get("A"), Some(RegisterValue::U32(0x1234_5678)));
}

#[test]
fn a_batch_of_mixed_widths_is_split_in_address_order() {
    let mut store = RegisterStore::new();
    let batches = build_read_batches(&[
        register("C", 40004, DataType::I16),
        register("A", 40001, DataType::U16),
        register("B", 40002, DataType::F32),
    ]);
    assert_eq!(batches.len(), 1);
    assert!(apply(
        &batches[0],
        vec![7, 0x4060, 0x0000, 0xFFFF],
        MemLayout::Abcd,
        &mut store
    ));
    assert_eq!(store.get("A"), Some(RegisterValue::U16(7)));
    assert_eq!(store.get("B").unwrap().to_string(), "3.5");
    assert_eq!(store.get("C"), Some(RegisterValue::I16(-1)));
}

#[test]
fn a_response_of_another_length_or_an_exception_changes_nothing() {
    let mut store = RegisterStore::new();
    store.set("A", RegisterValue::U16(5));
    let batches = build_read_batches(&[register("A", 40001, DataType::U16)]);

    assert!(!apply(
        &batches[0],
        vec![1, 2],
        MemLayout::Abcd,
        &mut store
    ));
    let exception = ExceptionResponse {
        function_code: 0x03,
        exception_code: 0x02,
    }
    .encode();
    assert!(!apply_register_response(
        &batches[0],
        Some(&exception),
        MemLayout::Abcd,
        &mut store,
        &single,
        &double
    ));
    assert_eq!(store.get("A"), Some(RegisterValue::U16(5)));
}

#[test]
fn poll_coils_once_applies_a_successful_batch_to_the_store() {
    let mut store = CoilStore::new();
    let batches = build_coil_read_batches(&[coil("A", 1), coil("B", 2)]);

    assert_eq!(
        coil_read_request(&batches[0]),
        vec![0x01, 0x00, 0x01, 0x00, 0x02]
    );
    let response = ReadCoilsResponse {
        coil_values: vec![true, false],
    }
    .encode();
    assert!(apply_coil_response(
        &batches[0],
        Some(&response),
        &mut store
    ));
    assert_eq!(store.get("A"), Some(CoilValue(true)));
    assert_eq!(store.get("B"), Some(CoilValue(false)));
}

#[test]
fn too_few_bits_change_nothing() {
    let mut store = CoilStore::new();
    let coils: Vec<CoilDescription> = (0..9)
        .map(|offset| coil(&format!("C{offset}"), 1 + offset as u16))
        .collect();
    let batches = build_coil_read_batches(&coils);
    let response = ReadCoilsResponse {
        coil_values: vec![true; 8],
    }
    .encode();
    assert!(!apply_coil_response(
        &batches[0],
        Some(&response),
        &mut store
    ));
    assert_eq!(store.get("C0"), None);
}

#[test]
fn poll_discrete_inputs_once_applies_a_successful_batch_to_the_store() {
    let mut store = DiscreteInputStore::new();
    let batches =
        build_discrete_input_read_batches(&[discrete_input("A", 1), discrete_input("B", 2)]);

    assert_eq!(
        discrete_input_read_request(&batches[0]),
        vec![0x02, 0x00, 0x01, 0x00, 0x02]
    );
    let response = ReadDiscreteInputsResponse {
        discrete_input_values: vec![true, false],
    }
    .encode();
    assert!(apply_discrete_input_response(
        &batches[0],
        Some(&response),
        &mut store
    ));
    assert_eq!(store.get("A"), Some(CoilValue(true)));
    assert_eq!(store.get("B"), Some(CoilValue(false)));
}

#[test]
fn poll_input_registers_once_applies_a_successful_batch_to_the_store() {
    let mut store = InputRegisterStore::new();
    let batches = build_input_register_read_batches(&[
        input_register("A", 30001, DataType::U16),
        input_register("B", 30002, DataType::U16),
    ]);

    assert_eq!(
        input_register_read_request(&batches[0]),
        vec![0x04, 0x75, 0x31, 0x00, 0x02]
    );
    let response = ReadInputRegistersResponse {
        register_values: vec![11, 22],
    }
    .encode();
    assert!(apply_input_register_response(
        &batches[0],
        Some(&response),
        MemLayout::Abcd,
        &mut store,
        &single,
        &double
    ));
    assert_eq!(store.get("A"), Some(RegisterValue::U16(11)));
    assert_eq!(store.get("B"), Some(RegisterValue::U16(22)));
}

#[test]
fn poll_file_records_once_applies_a_successful_read_to_the_store() {
    let mut store = FileRecordStore::new();
    let description = file_record(4, 1, 2);

    assert_eq!(
        file_record_read_request(description),
        vec![0x14, 0x07, 0x06, 0x00, 0x04, 0x00, 0x01, 0x00, 0x02]
    );
    let response = ReadFileRecordResponse {
        records: vec![vec![0x0D, 0xFE, 0x00, 0x20]],
    }
    .encode();
    assert!(apply_file_record_response(
        description,
        Some(&response),
        &mut store
    ));
    assert_eq!(store.get(4, 1), Some(&vec![0x0D, 0xFE, 0x00, 0x20]));
}

#[test]
fn poll_file_records_once_sends_one_request_per_configured_record() {
    let mut store = FileRecordStore::new();
    let file_records = vec![file_record(4, 1, 1), file_record(3, 9, 1)];

    for (description, value) in file_records.iter().zip([0x11u8, 0x22u8]) {
        assert_eq!(file_record_read_request(*description).len(), 9);
        let response = ReadFileRecordResponse {
            records: vec![vec![0x00, value]],
        }
        .encode();
        assert!(apply_file_record_response(
            *description,
            Some(&response),
            &mut store
        ));
    }
    assert_eq!(store.get(4, 1), Some(&vec![0x00, 0x11]));
    assert_eq!(store.get(3, 9), Some(&vec![0x00, 0x22]));
}

#[test]
fn a_response_with_another_number_of_records_changes_nothing() {
    let mut store = FileRecordStore::new();
    let description = file_record(4, 1, 2);
    let response = ReadFileRecordResponse {
        records: vec![vec![0x0D, 0xFE], vec![0x00, 0x20]],
    }
    .encode();
    assert!(!apply_file_record_response(
        description,
        Some(&response),
        &mut store
    ));
    assert_eq!(store.get(4, 1), None);
}

#[test]
fn poll_once_leaves_the_store_untouched_when_the_device_times_out() {
    let mut store = RegisterStore::new();
    let batches = build_read_batches(&[register("A", 40001, DataType::U16)]);
    assert!(!apply_register_response(
        &batches[0],
        None,
        MemLayout::Abcd,
        &mut store,
        &single,
        &double
    ));
    assert_eq!(store.get("A"), None);
}

#[test]
fn poll_coils_once_leaves_the_store_untouched_when_the_device_times_out() {
    let mut store = CoilStore::new();
    let batches = build_coil_read_batches(&[coil("A", 1)]);
    assert!(!apply_coil_response(&batches[0], None, &mut store));
    assert_eq!(store.get("A"), None);
}

#[test]
fn poll_discrete_inputs_once_leaves_the_store_untouched_when_the_device_times_out() {
    let mut store = DiscreteInputStore::new();
    let batches = build_discrete_input_read_batches(&[discrete_input("A", 1)]);
    assert!(!apply_discrete_input_response(
        &batches[0],
        None,
        &mut store
    ));
    assert_eq!(store.get("A"), None);
}

#[test]
fn poll_input_registers_once_leaves_the_store_untouched_when_the_device_times_out() {
    let mut store = InputRegisterStore::new();
    let batches = build_input_register_read_batches(&[input_register("A", 30001, DataType::U16)]);
    assert!(!apply_input_register_response(
        &batches[0],
        None,
        MemLayout::Abcd,
        &mut store,
        &single,
        &double
    ));
    assert_eq!(store.get("A"), None);
}

#[test]
fn poll_file_records_once_leaves_the_store_untouched_when_the_device_times_out() {
    let mut store = FileRecordStore::new();
    assert!(!apply_file_record_response(
        file_record(4, 1, 2),
        None,
        &mut store
    ));
    assert_eq!(store.get(4, 1), None);
}
