use infused_modbus::device_description::DataType;
use infused_modbus::stores::{
    CoilStore, DiscreteInputStore, FileRecordStore, InputRegisterStore, PendingTransaction,
    RegisterStore, WriteReport,
};
use infused_modbus::values::{
    CoilValue, Float32, Float64, RegisterValue, StagedValue, WriteStatus,
};

fn single(value: f32) -> RegisterValue {
    RegisterValue::F32(Float32 {
        bits: value.to_bits(),
        text: value.to_string(),
    })
}

fn double(value: f64) -> RegisterValue {
    RegisterValue::F64(Float64 {
        bits: value.to_bits(),
        text: value.to_string(),
    })
}

#[test]
fn get_returns_none_for_unknown_register() {
    let store = RegisterStore::new();
    assert_eq!(store.get("Tank_Temperature"), None);
}

#[test]
fn set_then_get_returns_the_value() {
    let mut store = RegisterStore::new();
    store.set("Tank_Temperature", RegisterValue::U16(42));
    assert_eq!(store.get("Tank_Temperature"), Some(RegisterValue::U16(42)));
}

#[test]
fn set_then_get_returns_an_f32_value() {
    let mut store = RegisterStore::new();
    store.set("Flow_Rate", single(3.5));
    assert_eq!(store.get("Flow_Rate"), Some(single(3.5)));
}

#[test]
fn set_overwrites_previous_value() {
    let mut store = RegisterStore::new();
    store.set("Tank_Temperature", RegisterValue::U16(42));
    store.set("Tank_Temperature", RegisterValue::U16(43));
    assert_eq!(store.get("Tank_Temperature"), Some(RegisterValue::U16(43)));
}

#[test]
fn u16_value_displays_as_plain_decimal() {
    assert_eq!(RegisterValue::U16(42).to_string(), "42");
}

#[test]
fn f32_value_displays_as_plain_decimal() {
    assert_eq!(single(3.5).to_string(), "3.5");
}

#[test]
fn data_type_returns_the_matching_variant_for_every_type() {
    assert_eq!(RegisterValue::U8(0).data_type(), DataType::U8);
    assert_eq!(RegisterValue::I8(0).data_type(), DataType::I8);
    assert_eq!(RegisterValue::U16(0).data_type(), DataType::U16);
    assert_eq!(RegisterValue::I16(0).data_type(), DataType::I16);
    assert_eq!(RegisterValue::U24(0).data_type(), DataType::U24);
    assert_eq!(RegisterValue::I24(0).data_type(), DataType::I24);
    assert_eq!(RegisterValue::U32(0).data_type(), DataType::U32);
    assert_eq!(RegisterValue::I32(0).data_type(), DataType::I32);
    assert_eq!(RegisterValue::U64(0).data_type(), DataType::U64);
    assert_eq!(RegisterValue::I64(0).data_type(), DataType::I64);
    assert_eq!(single(0.0).data_type(), DataType::F32);
    assert_eq!(double(0.0).data_type(), DataType::F64);
}

#[test]
fn every_new_register_value_variant_displays_as_plain_decimal() {
    assert_eq!(RegisterValue::U8(255).to_string(), "255");
    assert_eq!(RegisterValue::I8(-128).to_string(), "-128");
    assert_eq!(RegisterValue::I16(-1234).to_string(), "-1234");
    assert_eq!(RegisterValue::U24(0x00FF_FFFF).to_string(), "16777215");
    assert_eq!(RegisterValue::I24(-8_388_608).to_string(), "-8388608");
    assert_eq!(RegisterValue::U32(4_000_000_000).to_string(), "4000000000");
    assert_eq!(
        RegisterValue::I32(-2_000_000_000).to_string(),
        "-2000000000"
    );
    assert_eq!(
        RegisterValue::U64(18_000_000_000_000_000_000).to_string(),
        "18000000000000000000"
    );
    assert_eq!(
        RegisterValue::I64(-9_000_000_000_000_000_000).to_string(),
        "-9000000000000000000"
    );
    assert_eq!(double(3.5).to_string(), "3.5");
}

#[test]
fn coil_store_get_returns_none_for_unknown_coil() {
    let store = CoilStore::new();
    assert_eq!(store.get("Motor_Running"), None);
}

#[test]
fn coil_store_set_then_get_returns_the_value() {
    let mut store = CoilStore::new();
    store.set("Motor_Running", CoilValue(true));
    assert_eq!(store.get("Motor_Running"), Some(CoilValue(true)));
}

#[test]
fn coil_store_set_overwrites_previous_value() {
    let mut store = CoilStore::new();
    store.set("Motor_Running", CoilValue(true));
    store.set("Motor_Running", CoilValue(false));
    assert_eq!(store.get("Motor_Running"), Some(CoilValue(false)));
}

#[test]
fn coil_value_true_displays_as_one() {
    assert_eq!(CoilValue(true).to_string(), "1");
}

#[test]
fn coil_value_false_displays_as_zero() {
    assert_eq!(CoilValue(false).to_string(), "0");
}

#[test]
fn input_register_store_get_returns_none_for_unknown_register() {
    let store = InputRegisterStore::new();
    assert_eq!(store.get("Flow_Rate"), None);
}

#[test]
fn input_register_store_set_then_get_returns_the_value() {
    let mut store = InputRegisterStore::new();
    store.set("Flow_Rate", single(3.5));
    assert_eq!(store.get("Flow_Rate"), Some(single(3.5)));
}

#[test]
fn input_register_store_set_overwrites_previous_value() {
    let mut store = InputRegisterStore::new();
    store.set("Flow_Rate", single(3.5));
    store.set("Flow_Rate", single(4.0));
    assert_eq!(store.get("Flow_Rate"), Some(single(4.0)));
}

#[test]
fn discrete_input_store_get_returns_none_for_unknown_input() {
    let store = DiscreteInputStore::new();
    assert_eq!(store.get("Door_Open_Sensor"), None);
}

#[test]
fn discrete_input_store_set_then_get_returns_the_value() {
    let mut store = DiscreteInputStore::new();
    store.set("Door_Open_Sensor", CoilValue(true));
    assert_eq!(store.get("Door_Open_Sensor"), Some(CoilValue(true)));
}

#[test]
fn discrete_input_store_set_overwrites_previous_value() {
    let mut store = DiscreteInputStore::new();
    store.set("Door_Open_Sensor", CoilValue(true));
    store.set("Door_Open_Sensor", CoilValue(false));
    assert_eq!(store.get("Door_Open_Sensor"), Some(CoilValue(false)));
}

#[test]
fn pending_transaction_get_returns_none_for_unstaged_register() {
    let transaction = PendingTransaction::new();
    assert_eq!(transaction.get("Stop_Process"), None);
}

#[test]
fn pending_transaction_stage_then_get_returns_the_value() {
    let mut transaction = PendingTransaction::new();
    transaction.stage("Stop_Process", StagedValue::Register(RegisterValue::U16(1)));
    assert_eq!(
        transaction.get("Stop_Process"),
        Some(StagedValue::Register(RegisterValue::U16(1)))
    );
}

#[test]
fn pending_transaction_stage_overwrites_previous_value() {
    let mut transaction = PendingTransaction::new();
    transaction.stage("Stop_Process", StagedValue::Register(RegisterValue::U16(1)));
    transaction.stage("Stop_Process", StagedValue::Register(RegisterValue::U16(0)));
    assert_eq!(
        transaction.get("Stop_Process"),
        Some(StagedValue::Register(RegisterValue::U16(0)))
    );
}

#[test]
fn pending_transaction_unstage_removes_a_staged_value() {
    let mut transaction = PendingTransaction::new();
    transaction.stage("Stop_Process", StagedValue::Register(RegisterValue::U16(1)));
    assert_eq!(
        transaction.unstage("Stop_Process"),
        Some(StagedValue::Register(RegisterValue::U16(1)))
    );
    assert_eq!(transaction.get("Stop_Process"), None);
}

#[test]
fn pending_transaction_is_empty_reflects_staged_state() {
    let mut transaction = PendingTransaction::new();
    assert!(transaction.is_empty());
    transaction.stage("Stop_Process", StagedValue::Register(RegisterValue::U16(1)));
    assert!(!transaction.is_empty());
    transaction.unstage("Stop_Process");
    assert!(transaction.is_empty());
}

#[test]
fn pending_transaction_stage_accepts_a_coil_value_too() {
    let mut transaction = PendingTransaction::new();
    transaction.stage("Motor_Running", StagedValue::Coil(CoilValue(true)));
    assert_eq!(
        transaction.get("Motor_Running"),
        Some(StagedValue::Coil(CoilValue(true)))
    );
}

#[test]
fn pending_transaction_drain_returns_staged_values_and_empties_transaction() {
    let mut transaction = PendingTransaction::new();
    transaction.stage("Stop_Process", StagedValue::Register(RegisterValue::U16(1)));
    transaction.stage("Flow_Rate", StagedValue::Register(single(3.5)));

    let drained = transaction.drain();

    assert_eq!(
        drained.get("Stop_Process"),
        Some(&StagedValue::Register(RegisterValue::U16(1)))
    );
    assert_eq!(
        drained.get("Flow_Rate"),
        Some(&StagedValue::Register(single(3.5)))
    );
    assert_eq!(drained.len(), 2);
    assert!(transaction.is_empty());
}

#[test]
fn staged_value_register_displays_like_the_wrapped_register_value() {
    assert_eq!(
        StagedValue::Register(RegisterValue::U16(42)).to_string(),
        "42"
    );
}

#[test]
fn staged_value_coil_displays_like_the_wrapped_coil_value() {
    assert_eq!(StagedValue::Coil(CoilValue(true)).to_string(), "1");
}

#[test]
fn staged_value_discrete_input_displays_like_the_wrapped_coil_value() {
    assert_eq!(
        StagedValue::DiscreteInput(CoilValue(false)).to_string(),
        "0"
    );
}

#[test]
fn staged_value_input_register_displays_like_the_wrapped_register_value() {
    assert_eq!(
        StagedValue::InputRegister(single(3.5)).to_string(),
        "3.5"
    );
}

#[test]
fn staged_value_masked_register_displays_as_mask_with_hex_masks() {
    assert_eq!(
        StagedValue::MaskedRegister {
            and_mask: 0x00F2,
            or_mask: 0x0025,
        }
        .to_string(),
        "MASK 0x00F2 0x0025"
    );
}

#[test]
fn write_report_get_returns_none_for_unknown_register() {
    let report = WriteReport::new();
    assert_eq!(report.get("Stop_Process"), None);
}

#[test]
fn write_report_set_then_get_returns_the_status() {
    let mut report = WriteReport::new();
    report.set("Stop_Process", WriteStatus::Succeeded);
    assert_eq!(report.get("Stop_Process"), Some(&WriteStatus::Succeeded));
}

#[test]
fn write_report_set_overwrites_previous_status() {
    let mut report = WriteReport::new();
    report.set("Stop_Process", WriteStatus::Succeeded);
    report.set(
        "Stop_Process",
        WriteStatus::Failed("device timed out".to_string()),
    );
    assert_eq!(
        report.get("Stop_Process"),
        Some(&WriteStatus::Failed("device timed out".to_string()))
    );
}

#[test]
fn write_status_ok_displays_as_ok() {
    assert_eq!(WriteStatus::Succeeded.to_string(), "OK");
}

#[test]
fn write_status_failed_displays_reason() {
    assert_eq!(
        WriteStatus::Failed("device timed out".to_string()).to_string(),
        "FAILED: device timed out"
    );
}

#[test]
fn file_record_store_get_returns_none_for_an_unset_combination() {
    let store = FileRecordStore::new();
    assert_eq!(store.get(20, 5), None);
}

#[test]
fn file_record_store_set_then_get_returns_the_value() {
    let mut store = FileRecordStore::new();
    store.set(20, 5, vec![0xDE, 0xAD]);
    assert_eq!(store.get(20, 5), Some(&vec![0xDE, 0xAD]));
}

#[test]
fn file_record_store_keys_are_independent_per_file_and_record_number() {
    let mut store = FileRecordStore::new();
    store.set(20, 5, vec![0x01]);
    store.set(20, 6, vec![0x02]);
    store.set(30, 5, vec![0x03]);
    assert_eq!(store.get(20, 5), Some(&vec![0x01]));
    assert_eq!(store.get(20, 6), Some(&vec![0x02]));
    assert_eq!(store.get(30, 5), Some(&vec![0x03]));
}

#[test]
fn file_record_store_set_overwrites_previous_value() {
    let mut store = FileRecordStore::new();
    store.set(20, 5, vec![0x01]);
    store.set(20, 5, vec![0x02]);
    assert_eq!(store.get(20, 5), Some(&vec![0x02]));
}
