use infused_modbus::device_description::{
    AccessRight, CoilDescription, DataType, FileRecordDescription, MemLayout, RegisterDescription,
};
use infused_modbus::pdu::{
    ExceptionResponse, WriteMultipleCoilsRequest, WriteMultipleCoilsResponse,
    WriteMultipleRegistersRequest, WriteMultipleRegistersResponse,
};
use infused_modbus::stores::WriteReport;
use infused_modbus::table::NameTable;
use infused_modbus::transaction_consumer::{plan_transaction, record_reply};
use infused_modbus::values::{CoilValue, Float32, RegisterValue, StagedValue, WriteStatus};

fn u16_register() -> RegisterDescription {
    RegisterDescription {
        name: "Stop_Process".to_string(),
        address: 40001,
        data_type: DataType::U16,
        access: AccessRight::ReadWrite,
    }
}

fn second_u16_register() -> RegisterDescription {
    RegisterDescription {
        name: "Setpoint".to_string(),
        address: 40002,
        data_type: DataType::U16,
        access: AccessRight::ReadWrite,
    }
}

fn a_coil() -> CoilDescription {
    CoilDescription {
        name: "Motor_Running".to_string(),
        address: 1,
    }
}

fn second_coil() -> CoilDescription {
    CoilDescription {
        name: "Alarm_Reset".to_string(),
        address: 2,
    }
}

fn f32_register() -> RegisterDescription {
    RegisterDescription {
        name: "Flow_Rate".to_string(),
        address: 40020,
        data_type: DataType::F32,
        access: AccessRight::ReadWrite,
    }
}

fn a_file_record() -> FileRecordDescription {
    FileRecordDescription {
        file_number: 4,
        record_number: 1,
        record_length: 2,
    }
}

fn single(value: f32) -> StagedValue {
    StagedValue::Register(RegisterValue::F32(Float32 {
        bits: value.to_bits(),
        text: value.to_string(),
    }))
}

fn word(value: u16) -> StagedValue {
    StagedValue::Register(RegisterValue::U16(value))
}

fn coil(value: bool) -> StagedValue {
    StagedValue::Coil(CoilValue(value))
}

fn mask() -> StagedValue {
    StagedValue::MaskedRegister {
        and_mask: 0x00F2,
        or_mask: 0x0025,
    }
}

fn echo(request: &[u8]) -> Vec<u8> {
    request.to_vec()
}

fn refuse(request: &[u8]) -> Vec<u8> {
    ExceptionResponse {
        function_code: request[0],
        exception_code: 0x02,
    }
    .encode()
}

struct Device {
    registers: Vec<RegisterDescription>,
    coils: Vec<CoilDescription>,
    file_records: Vec<FileRecordDescription>,
}

impl Device {
    fn registers(registers: Vec<RegisterDescription>) -> Device {
        Device {
            registers,
            coils: vec![],
            file_records: vec![],
        }
    }

    fn coils(coils: Vec<CoilDescription>) -> Device {
        Device {
            registers: vec![],
            coils,
            file_records: vec![],
        }
    }

    fn file_records(file_records: Vec<FileRecordDescription>) -> Device {
        Device {
            registers: vec![],
            coils: vec![],
            file_records,
        }
    }

    /// Carries a transaction out, with a device that answers each request by
    /// `answer`. Gives the report and the requests that were sent.
    fn run(
        &self,
        staged: Vec<(&str, StagedValue)>,
        answer: fn(&[u8]) -> Vec<u8>,
    ) -> (WriteReport, Vec<Vec<u8>>) {
        let mut transaction = NameTable::new();
        for (name, value) in staged {
            transaction.set(name.to_string(), value);
        }
        let mut report = WriteReport::new();
        let writes = plan_transaction(
            transaction,
            &self.registers,
            &self.coils,
            &self.file_records,
            MemLayout::Abcd,
            &mut report,
        );
        let mut sent = vec![];
        for write in &writes {
            record_reply(write, &Ok(answer(&write.request)), &mut report);
            sent.push(write.request.clone());
        }
        (report, sent)
    }
}

#[test]
fn confirms_a_write_and_updates_report() {
    let device = Device::registers(vec![u16_register()]);
    let (report, sent) = device.run(vec![("Stop_Process", word(1))], echo);
    assert_eq!(sent, vec![vec![0x06, 0x9C, 0x41, 0x00, 0x01]]);
    assert_eq!(report.get("Stop_Process"), Some(&WriteStatus::Succeeded));
}

#[test]
fn a_failed_write_updates_report_as_failed() {
    let device = Device::registers(vec![u16_register()]);
    let (report, _) = device.run(vec![("Stop_Process", word(1))], refuse);
    assert!(matches!(
        report.get("Stop_Process"),
        Some(WriteStatus::Failed(_))
    ));
}

#[test]
fn an_unknown_register_is_reported_as_failed_without_sending_anything() {
    let device = Device::registers(vec![u16_register()]);
    let (report, sent) = device.run(vec![("Unknown_Register", word(1))], echo);
    assert_eq!(
        report.get("Unknown_Register"),
        Some(&WriteStatus::Failed(
            "unknown register: Unknown_Register".to_string()
        ))
    );
    assert!(sent.is_empty());
}

#[test]
fn confirms_a_coil_write_and_updates_report() {
    let device = Device::coils(vec![a_coil()]);
    let (report, sent) = device.run(vec![("Motor_Running", coil(true))], echo);
    assert_eq!(sent, vec![vec![0x05, 0x00, 0x01, 0xFF, 0x00]]);
    assert_eq!(report.get("Motor_Running"), Some(&WriteStatus::Succeeded));
}

fn acknowledge_registers(request: &[u8]) -> Vec<u8> {
    let decoded = WriteMultipleRegistersRequest::decode(request).unwrap();
    WriteMultipleRegistersResponse {
        starting_address: decoded.starting_address,
        quantity: decoded.register_values.len() as u16,
    }
    .encode()
}

fn acknowledge_coils(request: &[u8]) -> Vec<u8> {
    let decoded = WriteMultipleCoilsRequest::decode(request).unwrap();
    WriteMultipleCoilsResponse {
        starting_address: decoded.starting_address,
        quantity: decoded.coil_values.len() as u16,
    }
    .encode()
}

#[test]
fn batches_two_contiguous_registers_into_one_write_multiple_request() {
    let device = Device::registers(vec![u16_register(), second_u16_register()]);
    let (report, sent) = device.run(
        vec![("Stop_Process", word(1)), ("Setpoint", word(2))],
        acknowledge_registers,
    );
    assert_eq!(
        sent,
        vec![vec![0x10, 0x9C, 0x41, 0x00, 0x02, 0x04, 0x00, 0x01, 0x00, 0x02]]
    );
    assert_eq!(report.get("Stop_Process"), Some(&WriteStatus::Succeeded));
    assert_eq!(report.get("Setpoint"), Some(&WriteStatus::Succeeded));
}

#[test]
fn the_order_of_staging_does_not_matter_to_a_batch() {
    let device = Device::registers(vec![u16_register(), second_u16_register()]);
    let (_, first) = device.run(
        vec![("Stop_Process", word(1)), ("Setpoint", word(2))],
        acknowledge_registers,
    );
    let (_, second) = device.run(
        vec![("Setpoint", word(2)), ("Stop_Process", word(1))],
        acknowledge_registers,
    );
    assert_eq!(first, second);
}

#[test]
fn a_failed_register_batch_marks_every_register_in_it_as_failed() {
    let device = Device::registers(vec![u16_register(), second_u16_register()]);
    let (report, sent) = device.run(
        vec![("Stop_Process", word(1)), ("Setpoint", word(2))],
        refuse,
    );
    assert_eq!(sent.len(), 1);
    let failed = WriteStatus::Failed("device returned Modbus exception code 2".to_string());
    assert_eq!(report.get("Stop_Process"), Some(&failed));
    assert_eq!(report.get("Setpoint"), Some(&failed));
}

#[test]
fn batches_two_contiguous_coils_into_one_write_multiple_request() {
    let device = Device::coils(vec![a_coil(), second_coil()]);
    let (report, sent) = device.run(
        vec![("Motor_Running", coil(true)), ("Alarm_Reset", coil(false))],
        acknowledge_coils,
    );
    assert_eq!(sent, vec![vec![0x0F, 0x00, 0x01, 0x00, 0x02, 0x01, 0x01]]);
    assert_eq!(report.get("Motor_Running"), Some(&WriteStatus::Succeeded));
    assert_eq!(report.get("Alarm_Reset"), Some(&WriteStatus::Succeeded));
}

#[test]
fn a_failed_coil_batch_marks_every_coil_in_it_as_failed() {
    let device = Device::coils(vec![a_coil(), second_coil()]);
    let (report, _) = device.run(
        vec![("Motor_Running", coil(true)), ("Alarm_Reset", coil(false))],
        refuse,
    );
    assert!(matches!(
        report.get("Motor_Running"),
        Some(WriteStatus::Failed(_))
    ));
    assert!(matches!(
        report.get("Alarm_Reset"),
        Some(WriteStatus::Failed(_))
    ));
}

#[test]
fn a_lone_wide_register_is_written_via_write_multiple_registers_not_write_single() {
    let device = Device::registers(vec![f32_register()]);
    let (report, sent) = device.run(vec![("Flow_Rate", single(3.5))], acknowledge_registers);
    assert_eq!(
        sent,
        vec![vec![0x10, 0x9C, 0x54, 0x00, 0x02, 0x04, 0x40, 0x60, 0x00, 0x00]]
    );
    assert_eq!(report.get("Flow_Rate"), Some(&WriteStatus::Succeeded));
}

#[test]
fn a_type_mismatched_register_is_reported_as_failed_without_sending_anything() {
    let device = Device::registers(vec![u16_register()]);
    let (report, sent) = device.run(vec![("Stop_Process", single(3.5))], echo);
    assert_eq!(
        report.get("Stop_Process"),
        Some(&WriteStatus::Failed(
            "register Stop_Process: expected a U16 value but got a F32 one".to_string()
        ))
    );
    assert!(sent.is_empty());
}

#[test]
fn confirms_a_masked_write_and_updates_report() {
    let device = Device::registers(vec![u16_register()]);
    let (report, sent) = device.run(vec![("Stop_Process", mask())], echo);
    assert_eq!(sent, vec![vec![0x16, 0x9C, 0x41, 0x00, 0xF2, 0x00, 0x25]]);
    assert_eq!(report.get("Stop_Process"), Some(&WriteStatus::Succeeded));
}

#[test]
fn a_masked_write_of_a_multi_register_type_is_reported_as_failed_without_sending_anything() {
    let device = Device::registers(vec![f32_register()]);
    let (report, sent) = device.run(vec![("Flow_Rate", mask())], echo);
    assert_eq!(
        report.get("Flow_Rate"),
        Some(&WriteStatus::Failed(
            "register Flow_Rate: F32 needs 2 registers, \
             Mask Write Register can only target a single register"
                .to_string()
        ))
    );
    assert!(sent.is_empty());
}

#[test]
fn an_unknown_masked_register_is_reported_as_failed_without_sending_anything() {
    let device = Device::registers(vec![]);
    let (report, sent) = device.run(vec![("Ghost_Register", mask())], echo);
    assert!(matches!(
        report.get("Ghost_Register"),
        Some(WriteStatus::Failed(_))
    ));
    assert!(sent.is_empty());
}

#[test]
fn confirms_a_file_record_write_and_updates_report() {
    let device = Device::file_records(vec![a_file_record()]);
    let value = StagedValue::FileRecord {
        file_number: 4,
        record_number: 1,
        value: vec![0x0D, 0xFE, 0x00, 0x20],
    };
    let (report, sent) = device.run(vec![("4:1", value)], echo);
    assert_eq!(
        sent,
        vec![vec![
            0x15, 0x0B, 0x06, 0x00, 0x04, 0x00, 0x01, 0x00, 0x02, 0x0D, 0xFE, 0x00, 0x20,
        ]]
    );
    assert_eq!(report.get("4:1"), Some(&WriteStatus::Succeeded));
}

#[test]
fn an_unknown_file_record_is_reported_as_failed_without_sending_anything() {
    let device = Device::file_records(vec![a_file_record()]);
    let value = StagedValue::FileRecord {
        file_number: 999,
        record_number: 1,
        value: vec![0x00, 0x00, 0x00, 0x00],
    };
    let (report, sent) = device.run(vec![("999:1", value)], echo);
    assert_eq!(
        report.get("999:1"),
        Some(&WriteStatus::Failed(
            "unknown file record: 999:1".to_string()
        ))
    );
    assert!(sent.is_empty());
}

#[test]
fn a_wrong_length_file_record_is_reported_as_failed_without_sending_anything() {
    let device = Device::file_records(vec![a_file_record()]);
    let value = StagedValue::FileRecord {
        file_number: 4,
        record_number: 1,
        value: vec![0x00, 0x00],
    };
    let (report, sent) = device.run(vec![("4:1", value)], echo);
    assert_eq!(
        report.get("4:1"),
        Some(&WriteStatus::Failed(
            "file record 4:1: expected 4 bytes but got 2".to_string()
        ))
    );
    assert!(sent.is_empty());
}

#[test]
fn what_no_master_can_write_is_refused() {
    let device = Device::registers(vec![u16_register()]);
    let (report, sent) = device.run(
        vec![
            ("Door", StagedValue::DiscreteInput(CoilValue(true))),
            ("Level", StagedValue::InputRegister(RegisterValue::U16(1))),
            ("Pump", coil(true)),
        ],
        echo,
    );
    assert_eq!(
        report.get("Door"),
        Some(&WriteStatus::Failed(
            "discrete input Door: never writable via Modbus".to_string()
        ))
    );
    assert_eq!(
        report.get("Level"),
        Some(&WriteStatus::Failed(
            "input register Level: never writable via Modbus".to_string()
        ))
    );
    assert_eq!(
        report.get("Pump"),
        Some(&WriteStatus::Failed("unknown coil: Pump".to_string()))
    );
    assert!(sent.is_empty());
}

#[test]
fn every_name_of_a_mixed_transaction_gets_one_outcome() {
    let device = Device {
        registers: vec![u16_register(), second_u16_register(), f32_register()],
        coils: vec![a_coil()],
        file_records: vec![a_file_record()],
    };
    let (report, sent) = device.run(
        vec![
            ("Setpoint", word(2)),
            ("Motor_Running", coil(true)),
            ("Nowhere", word(1)),
            ("Stop_Process", mask()),
            ("Flow_Rate", single(3.5)),
        ],
        echo,
    );
    let codes: Vec<u8> = sent.iter().map(|request| request[0]).collect();
    assert_eq!(codes, vec![0x06, 0x10, 0x05, 0x16]);
    for name in ["Setpoint", "Motor_Running", "Stop_Process", "Flow_Rate"] {
        assert_eq!(report.get(name), Some(&WriteStatus::Succeeded));
    }
    assert!(matches!(
        report.get("Nowhere"),
        Some(WriteStatus::Failed(_))
    ));
}

#[test]
fn no_request_writes_more_than_123_registers() {
    let registers: Vec<RegisterDescription> = (0..130)
        .map(|offset| RegisterDescription {
            name: format!("R{offset}"),
            address: 100 + offset,
            data_type: DataType::U16,
            access: AccessRight::ReadWrite,
        })
        .collect();
    let names: Vec<String> = registers.iter().map(|register| register.name.clone()).collect();
    let staged = names.iter().map(|name| (name.as_str(), word(7))).collect();
    let (report, sent) = Device::registers(registers).run(staged, acknowledge_registers);
    let counts: Vec<usize> = sent
        .iter()
        .map(|request| {
            WriteMultipleRegistersRequest::decode(request)
                .unwrap()
                .register_values
                .len()
        })
        .collect();
    assert_eq!(counts, vec![123, 7]);
    for name in &names {
        assert_eq!(report.get(name), Some(&WriteStatus::Succeeded));
    }
}
