use infused_modbus::client_trust::ClientTrustState;
use infused_modbus::device_description::{
    AccessRight, CoilDescription, DataType, DiscreteInputDescription, FileRecordDescription,
    InputRegisterDescription, RegisterDescription,
};
use infused_modbus::filesystem::{
    Errno, FileType, InfusedFilesystem, Owner, WriteMode, HOLDING_REGISTERS_INO, ROOT_INO,
};
use infused_modbus::inode::INodeNo;
use infused_modbus::permissions::{DirectoryPermissions, FusePermissions};
use infused_modbus::stores::{
    CoilStore, DiscreteInputStore, FileRecordStore, InputRegisterStore, RegisterStore, WriteReport,
};
use infused_modbus::table::NameTable;
use infused_modbus::values::{
    CoilValue, Float32, Float64, RegisterValue, StagedValue, WriteStatus,
};
use std::collections::HashSet;

const PROCESS: Owner = Owner { uid: 501, gid: 20 };
const CALLER: Owner = Owner {
    uid: 1000,
    gid: 1001,
};

fn read_single(text: &str) -> Option<Float32> {
    text.parse::<f32>().ok().map(|value| Float32 {
        bits: value.to_bits(),
        text: value.to_string(),
    })
}

fn read_double(text: &str) -> Option<Float64> {
    text.parse::<f64>().ok().map(|value| Float64 {
        bits: value.to_bits(),
        text: value.to_string(),
    })
}

fn parse(data_type: DataType, text: &str) -> Option<RegisterValue> {
    InfusedFilesystem::parse_register_value(data_type, text, &read_single, &read_double)
}

fn release(filesystem: &mut InfusedFilesystem, ino: INodeNo) -> Option<NameTable<StagedValue>> {
    filesystem.release(ino, &read_single, &read_double)
}

/// Makes a file in `transactions/`.
fn staged_file(filesystem: &mut InfusedFilesystem, name: &str) -> INodeNo {
    let transactions = filesystem.transactions_ino;
    let (attr, sent) = filesystem.create(CALLER, transactions, Some(name)).unwrap();
    assert!(sent.is_none());
    attr.ino
}

struct Parts {
    registers: Vec<RegisterDescription>,
    coils: Vec<CoilDescription>,
    discrete_inputs: Vec<DiscreteInputDescription>,
    input_registers: Vec<InputRegisterDescription>,
    file_records: Vec<FileRecordDescription>,
    client_trust: Option<ClientTrustState>,
    permissions: FusePermissions,
    write_mode: WriteMode,
    server_id: Option<String>,
}

fn nothing(write_mode: WriteMode) -> Parts {
    Parts {
        registers: Vec::new(),
        coils: Vec::new(),
        discrete_inputs: Vec::new(),
        input_registers: Vec::new(),
        file_records: Vec::new(),
        client_trust: None,
        permissions: FusePermissions::unconfigured(PROCESS.uid, PROCESS.gid),
        write_mode,
        server_id: None,
    }
}

fn assemble(parts: Parts) -> InfusedFilesystem {
    InfusedFilesystem::new(
        parts.registers,
        parts.coils,
        parts.discrete_inputs,
        parts.input_registers,
        parts.file_records,
        RegisterStore::new(),
        CoilStore::new(),
        DiscreteInputStore::new(),
        InputRegisterStore::new(),
        FileRecordStore::new(),
        WriteReport::new(),
        parts.client_trust,
        parts.permissions,
        parts.write_mode,
        parts.server_id,
        PROCESS,
    )
}

fn stop_process(access: AccessRight) -> RegisterDescription {
    RegisterDescription {
        name: "Stop_Process".to_string(),
        address: 40001,
        data_type: DataType::U16,
        access,
    }
}

fn test_filesystem() -> InfusedFilesystem {
    test_filesystem_with_permissions(FusePermissions::unconfigured(PROCESS.uid, PROCESS.gid))
}

fn test_filesystem_with_permissions(permissions: FusePermissions) -> InfusedFilesystem {
    test_filesystem_with_permissions_and_write_mode(permissions, WriteMode::Staged)
}

fn test_filesystem_with_server_id(server_id: Option<String>) -> InfusedFilesystem {
    let mut parts = one_register_and_one_coil(WriteMode::Staged);
    parts.server_id = server_id;
    assemble(parts)
}

fn one_register_and_one_coil(write_mode: WriteMode) -> Parts {
    let mut parts = nothing(write_mode);
    parts.registers = vec![stop_process(AccessRight::ReadWrite)];
    parts.coils = vec![CoilDescription {
        name: "Motor_Running".to_string(),
        address: 1,
    }];
    parts
}

fn test_filesystem_with_permissions_and_write_mode(
    permissions: FusePermissions,
    write_mode: WriteMode,
) -> InfusedFilesystem {
    let mut parts = one_register_and_one_coil(write_mode);
    parts.permissions = permissions;
    assemble(parts)
}

fn test_filesystem_with_read_only_register(write_mode: WriteMode) -> InfusedFilesystem {
    let mut parts = nothing(write_mode);
    parts.registers = vec![stop_process(AccessRight::ReadOnly)];
    assemble(parts)
}

fn test_filesystem_with_file_records(write_mode: WriteMode) -> InfusedFilesystem {
    let mut parts = nothing(write_mode);
    parts.file_records = vec![
        FileRecordDescription {
            file_number: 20,
            record_number: 5,
            record_length: 2,
        },
        FileRecordDescription {
            file_number: 20,
            record_number: 6,
            record_length: 2,
        },
        FileRecordDescription {
            file_number: 30,
            record_number: 1,
            record_length: 1,
        },
    ];
    assemble(parts)
}

fn test_filesystem_with_client_trust() -> InfusedFilesystem {
    let mut parts = nothing(WriteMode::Direct);
    parts.client_trust = Some(ClientTrustState::new());
    assemble(parts)
}

fn distinct_permissions() -> FusePermissions {
    FusePermissions {
        holding_registers: DirectoryPermissions {
            mode: 0o700,
            uid: 101,
            gid: 201,
        },
        transactions: DirectoryPermissions {
            mode: 0o710,
            uid: 102,
            gid: 202,
        },
        report: DirectoryPermissions {
            mode: 0o720,
            uid: 103,
            gid: 203,
        },
        coils: DirectoryPermissions {
            mode: 0o730,
            uid: 104,
            gid: 204,
        },
    }
}

#[test]
fn permissions_for_applies_to_the_holding_registers_directory_and_its_files() {
    let permissions = distinct_permissions();
    let filesystem = test_filesystem_with_permissions(permissions);
    let register_ino = *filesystem.name_to_ino.get("Stop_Process").unwrap();

    assert_eq!(
        filesystem.permissions_for(INodeNo(HOLDING_REGISTERS_INO)),
        Some(permissions.holding_registers)
    );
    assert_eq!(
        filesystem.permissions_for(register_ino),
        Some(permissions.holding_registers)
    );
}

#[test]
fn permissions_for_applies_to_the_coils_directory_and_its_files() {
    let permissions = distinct_permissions();
    let filesystem = test_filesystem_with_permissions(permissions);
    let coil_ino = *filesystem.coil_name_to_ino.get("Motor_Running").unwrap();

    assert_eq!(
        filesystem.permissions_for(filesystem.coils_ino),
        Some(permissions.coils)
    );
    assert_eq!(
        filesystem.permissions_for(coil_ino),
        Some(permissions.coils)
    );
}

#[test]
fn permissions_for_applies_to_the_transactions_directory_and_a_staged_file() {
    let permissions = distinct_permissions();
    let mut filesystem = test_filesystem_with_permissions(permissions);
    let staged_ino = staged_file(&mut filesystem, "Stop_Process");

    assert_eq!(
        filesystem.permissions_for(filesystem.transactions_ino),
        Some(permissions.transactions)
    );
    assert_eq!(
        filesystem.permissions_for(staged_ino),
        Some(permissions.transactions)
    );
}

#[test]
fn permissions_for_applies_to_the_report_directory_and_its_register_and_coil_files() {
    let permissions = distinct_permissions();
    let filesystem = test_filesystem_with_permissions(permissions);
    let report_register_ino = INodeNo(filesystem.first_report_ino());
    let report_coil_ino = INodeNo(filesystem.first_coil_report_ino());

    assert_eq!(
        filesystem.permissions_for(filesystem.report_ino),
        Some(permissions.report)
    );
    assert_eq!(
        filesystem.permissions_for(report_register_ino),
        Some(permissions.report)
    );
    assert_eq!(
        filesystem.permissions_for(report_coil_ino),
        Some(permissions.report)
    );
}

#[test]
fn writable_data_file_mode_is_read_only_when_staged() {
    let filesystem = test_filesystem_with_permissions_and_write_mode(
        FusePermissions::unconfigured(PROCESS.uid, PROCESS.gid),
        WriteMode::Staged,
    );
    assert_eq!(filesystem.writable_data_file_mode(), 0o444);
}

#[test]
fn writable_data_file_mode_is_writable_when_direct() {
    let filesystem = test_filesystem_with_permissions_and_write_mode(
        FusePermissions::unconfigured(PROCESS.uid, PROCESS.gid),
        WriteMode::Direct,
    );
    assert_eq!(filesystem.writable_data_file_mode(), 0o644);
}

#[test]
fn direct_writable_by_ino_is_true_for_a_register_in_direct_mode() {
    let filesystem = test_filesystem_with_permissions_and_write_mode(
        FusePermissions::unconfigured(PROCESS.uid, PROCESS.gid),
        WriteMode::Direct,
    );
    let register_ino = *filesystem.name_to_ino.get("Stop_Process").unwrap();
    assert!(filesystem.direct_writable_by_ino(register_ino));
}

#[test]
fn direct_writable_by_ino_is_true_for_a_coil_in_direct_mode() {
    let filesystem = test_filesystem_with_permissions_and_write_mode(
        FusePermissions::unconfigured(PROCESS.uid, PROCESS.gid),
        WriteMode::Direct,
    );
    let coil_ino = *filesystem.coil_name_to_ino.get("Motor_Running").unwrap();
    assert!(filesystem.direct_writable_by_ino(coil_ino));
}

#[test]
fn direct_writable_by_ino_is_false_in_staged_mode() {
    let filesystem = test_filesystem_with_permissions_and_write_mode(
        FusePermissions::unconfigured(PROCESS.uid, PROCESS.gid),
        WriteMode::Staged,
    );
    let register_ino = *filesystem.name_to_ino.get("Stop_Process").unwrap();
    assert!(!filesystem.direct_writable_by_ino(register_ino));
}

#[test]
fn direct_writable_by_ino_is_false_for_an_unrelated_ino() {
    let filesystem = test_filesystem_with_permissions_and_write_mode(
        FusePermissions::unconfigured(PROCESS.uid, PROCESS.gid),
        WriteMode::Direct,
    );
    assert!(!filesystem.direct_writable_by_ino(INodeNo(ROOT_INO)));
    assert!(!filesystem.direct_writable_by_ino(filesystem.transactions_ino));
}

#[test]
fn direct_writable_by_ino_is_false_for_a_read_only_register_in_direct_mode() {
    let filesystem = test_filesystem_with_read_only_register(WriteMode::Direct);
    let register_ino = *filesystem.name_to_ino.get("Stop_Process").unwrap();
    assert!(!filesystem.direct_writable_by_ino(register_ino));
}

#[test]
fn direct_writable_by_ino_is_true_for_a_read_write_register_in_direct_mode() {
    let filesystem = test_filesystem_with_permissions_and_write_mode(
        FusePermissions::unconfigured(PROCESS.uid, PROCESS.gid),
        WriteMode::Direct,
    );
    let register_ino = *filesystem.name_to_ino.get("Stop_Process").unwrap();
    assert!(filesystem.direct_writable_by_ino(register_ino));
}

#[test]
fn register_file_mode_is_read_only_for_a_read_only_register_even_in_direct_mode() {
    let filesystem = test_filesystem_with_read_only_register(WriteMode::Direct);
    let register = filesystem.register_by_name("Stop_Process").unwrap();
    assert_eq!(filesystem.register_file_mode(register), 0o444);
}

#[test]
fn register_file_mode_is_writable_for_a_read_write_register_in_direct_mode() {
    let filesystem = test_filesystem_with_permissions_and_write_mode(
        FusePermissions::unconfigured(PROCESS.uid, PROCESS.gid),
        WriteMode::Direct,
    );
    let register = filesystem.register_by_name("Stop_Process").unwrap();
    assert_eq!(filesystem.register_file_mode(register), 0o644);
}

#[test]
fn register_file_mode_is_read_only_for_a_read_write_register_when_staged() {
    let filesystem = test_filesystem_with_permissions_and_write_mode(
        FusePermissions::unconfigured(PROCESS.uid, PROCESS.gid),
        WriteMode::Staged,
    );
    let register = filesystem.register_by_name("Stop_Process").unwrap();
    assert_eq!(filesystem.register_file_mode(register), 0o444);
}

#[test]
fn transactions_enabled_is_true_when_staged() {
    let filesystem = test_filesystem_with_permissions_and_write_mode(
        FusePermissions::unconfigured(PROCESS.uid, PROCESS.gid),
        WriteMode::Staged,
    );
    assert!(filesystem.transactions_enabled());
}

#[test]
fn transactions_enabled_is_false_when_direct() {
    let filesystem = test_filesystem_with_permissions_and_write_mode(
        FusePermissions::unconfigured(PROCESS.uid, PROCESS.gid),
        WriteMode::Direct,
    );
    assert!(!filesystem.transactions_enabled());
}

#[test]
fn permissions_for_returns_none_for_root_and_unrelated_inodes() {
    let filesystem = test_filesystem_with_permissions(distinct_permissions());

    assert_eq!(filesystem.permissions_for(INodeNo(ROOT_INO)), None);
    assert_eq!(filesystem.permissions_for(INodeNo(999_999)), None);
}

#[test]
fn permissions_for_returns_none_for_client_trust_inodes() {
    let filesystem = test_filesystem_with_client_trust();

    assert_eq!(
        filesystem.permissions_for(filesystem.client_trust_ino),
        None
    );
    assert_eq!(
        filesystem.permissions_for(filesystem.client_trust_approved_ino),
        None
    );
}

#[test]
fn client_trust_root_attr_override_hardcodes_the_client_trust_root_directory() {
    let filesystem = test_filesystem_with_client_trust();
    let (real_uid, real_gid) = (PROCESS.uid, PROCESS.gid);

    assert_eq!(
        filesystem.client_trust_root_attr_override(filesystem.client_trust_ino),
        Some((0o700, real_uid, real_gid))
    );
}

#[test]
fn client_trust_root_attr_override_does_not_apply_to_nested_client_trust_inodes() {
    let filesystem = test_filesystem_with_client_trust();

    assert_eq!(
        filesystem.client_trust_root_attr_override(filesystem.client_trust_approved_ino),
        None
    );
    assert_eq!(
        filesystem.client_trust_root_attr_override(filesystem.connection_attempts_ino),
        None
    );
    assert_eq!(
        filesystem.client_trust_root_attr_override(filesystem.approved_log_ino),
        None
    );
}

#[test]
fn client_trust_root_attr_override_does_not_apply_to_unrelated_inodes() {
    let filesystem = test_filesystem_with_client_trust();
    assert_eq!(filesystem.client_trust_root_attr_override(INodeNo(ROOT_INO)), None);
}

#[test]
fn client_trust_root_attr_override_is_none_when_client_trust_is_absent() {
    let filesystem = test_filesystem();
    // On the client (client_trust: None), there is no client-trust/ at
    // all — even passing this instance's own client_trust_ino value
    // must never trigger the override, since the directory it would
    // refer to doesn't actually exist here.
    assert_eq!(
        filesystem.client_trust_root_attr_override(filesystem.client_trust_ino),
        None
    );
}

#[test]
fn commit_transaction_sends_staged_values_and_clears_staging_area() {
    let mut filesystem = test_filesystem();
    let ino = staged_file(&mut filesystem, "Stop_Process");
    assert_eq!(filesystem.write(ino, 0, b"1"), Ok(1));
    assert!(release(&mut filesystem, ino).is_none());
    assert_eq!(filesystem.write(ino, 0, b"1"), Ok(1));

    let sent = filesystem.commit_transaction().unwrap();
    assert_eq!(
        sent.get("Stop_Process"),
        Some(&StagedValue::Register(RegisterValue::U16(1)))
    );

    let state = &filesystem.transactions;
    assert!(state.pending.is_empty());
    assert!(state.name_to_ino.is_empty());
    assert!(state.ino_to_name.is_empty());
    assert!(state.buffers.is_empty());
}

#[test]
fn commit_transaction_does_not_touch_store() {
    let mut filesystem = test_filesystem();
    filesystem.store.set("Stop_Process", RegisterValue::U16(0));
    let ino = staged_file(&mut filesystem, "Stop_Process");
    assert_eq!(filesystem.write(ino, 0, b"1"), Ok(1));
    assert!(release(&mut filesystem, ino).is_none());

    assert!(filesystem.commit_transaction().is_some());
    assert_eq!(
        filesystem.store.get("Stop_Process"),
        Some(RegisterValue::U16(0))
    );
}

#[test]
fn commit_transaction_with_nothing_staged_sends_nothing() {
    let mut filesystem = test_filesystem();
    assert!(filesystem.commit_transaction().is_none());
}

#[test]
fn last_transaction_end_inos_tracks_concurrent_touches_independently() {
    let mut filesystem = test_filesystem();
    let transactions = filesystem.transactions_ino;
    let (first, _) = filesystem
        .create(CALLER, transactions, Some("TRANSACTION_END"))
        .unwrap();
    let (second, _) = filesystem
        .create(CALLER, transactions, Some("TRANSACTION_END"))
        .unwrap();

    assert!(filesystem.setattr(CALLER, first.ino, None).is_ok());

    let state = &filesystem.transactions;
    assert!(state.last_transaction_end_inos.contains(&second.ino.0));
    assert!(!state.last_transaction_end_inos.contains(&first.ino.0));
}

#[test]
fn report_content_is_empty_when_nothing_was_attempted() {
    let filesystem = test_filesystem();
    assert_eq!(filesystem.report_content("Stop_Process"), "");
}

#[test]
fn report_content_reflects_the_most_recent_status() {
    let mut filesystem = test_filesystem();
    filesystem
        .report
        .set("Stop_Process", WriteStatus::Succeeded);
    assert_eq!(filesystem.report_content("Stop_Process"), "OK\n");

    filesystem
        .report
        .set("Stop_Process", WriteStatus::Failed("timeout".to_string()));
    assert_eq!(
        filesystem.report_content("Stop_Process"),
        "FAILED: timeout\n"
    );
}

#[test]
fn report_register_by_ino_resolves_a_report_file_inode() {
    let filesystem = test_filesystem();
    let report_ino = INodeNo(filesystem.first_report_ino());
    assert_eq!(
        filesystem
            .report_register_by_ino(report_ino)
            .map(|r| &r.name),
        Some(&"Stop_Process".to_string())
    );
}

#[test]
fn report_register_by_ino_returns_none_for_unrelated_inode() {
    let filesystem = test_filesystem();
    assert_eq!(filesystem.report_register_by_ino(INodeNo(ROOT_INO)), None);
}

#[test]
fn coil_by_ino_resolves_a_coil_file_inode() {
    let filesystem = test_filesystem();
    let coil_ino = INodeNo(filesystem.first_coil_ino());
    assert_eq!(
        filesystem.coil_by_ino(coil_ino).map(|c| &c.name),
        Some(&"Motor_Running".to_string())
    );
}

#[test]
fn coil_by_ino_returns_none_for_unrelated_inode() {
    let filesystem = test_filesystem();
    assert_eq!(filesystem.coil_by_ino(INodeNo(ROOT_INO)), None);
}

#[test]
fn report_coil_by_ino_resolves_a_report_file_inode() {
    let filesystem = test_filesystem();
    let report_ino = INodeNo(filesystem.first_coil_report_ino());
    assert_eq!(
        filesystem.report_coil_by_ino(report_ino).map(|c| &c.name),
        Some(&"Motor_Running".to_string())
    );
}

#[test]
fn report_coil_by_ino_returns_none_for_unrelated_inode() {
    let filesystem = test_filesystem();
    assert_eq!(filesystem.report_coil_by_ino(INodeNo(ROOT_INO)), None);
}

#[test]
fn report_coil_by_ino_does_not_collide_with_register_report_range() {
    let filesystem = test_filesystem();
    // The one register's report file sits at first_report_ino(); the
    // coil report range starts right after it. Neither lookup should
    // claim the other's inode.
    let register_report_ino = INodeNo(filesystem.first_report_ino());
    assert_eq!(filesystem.report_coil_by_ino(register_report_ino), None);
}

#[test]
fn coil_content_is_empty_when_the_coil_store_has_no_value_yet() {
    let filesystem = test_filesystem();
    let coil = &filesystem.coils[0];
    assert_eq!(filesystem.coil_content(coil), "");
}

#[test]
fn coil_content_reflects_the_coil_store_value() {
    let mut filesystem = test_filesystem();
    filesystem
        .coil_store
        .set("Motor_Running", CoilValue(true));
    let coil = &filesystem.coils[0];
    assert_eq!(filesystem.coil_content(coil), "1\n");
}

#[test]
fn parse_register_value_accepts_decimal_for_every_unsigned_type() {
    assert_eq!(
        parse(DataType::U8, "255"),
        Some(RegisterValue::U8(255))
    );
    assert_eq!(
        parse(DataType::U16, "65535"),
        Some(RegisterValue::U16(65535))
    );
    assert_eq!(
        parse(DataType::U32, "4000000000"),
        Some(RegisterValue::U32(4_000_000_000))
    );
    assert_eq!(
        parse(DataType::U64, "18000000000000000000"),
        Some(RegisterValue::U64(18_000_000_000_000_000_000))
    );
}

#[test]
fn parse_register_value_accepts_hex_for_every_unsigned_type() {
    assert_eq!(
        parse(DataType::U8, "0xFF"),
        Some(RegisterValue::U8(255))
    );
    assert_eq!(
        parse(DataType::U16, "0xBEEF"),
        Some(RegisterValue::U16(0xBEEF))
    );
    assert_eq!(
        parse(DataType::U32, "0xDEADBEEF"),
        Some(RegisterValue::U32(0xDEADBEEF))
    );
    assert_eq!(
        parse(DataType::U64, "0xFFFFFFFFFFFFFFFF"),
        Some(RegisterValue::U64(u64::MAX))
    );
}

#[test]
fn parse_register_value_accepts_decimal_for_every_signed_type() {
    assert_eq!(
        parse(DataType::I8, "-128"),
        Some(RegisterValue::I8(-128))
    );
    assert_eq!(
        parse(DataType::I16, "-32768"),
        Some(RegisterValue::I16(-32768))
    );
    assert_eq!(
        parse(DataType::I32, "-2000000000"),
        Some(RegisterValue::I32(-2_000_000_000))
    );
    assert_eq!(
        parse(DataType::I64, "-9000000000000000000"),
        Some(RegisterValue::I64(-9_000_000_000_000_000_000))
    );
}

#[test]
fn parse_register_value_accepts_decimal_for_both_float_types() {
    assert_eq!(
        parse(DataType::F32, "3.5"),
        Some(RegisterValue::F32(Float32 {
            bits: 3.5f32.to_bits(),
            text: "3.5".to_string()
        }))
    );
    assert_eq!(
        parse(DataType::F64, "3.5"),
        Some(RegisterValue::F64(Float64 {
            bits: 3.5f64.to_bits(),
            text: "3.5".to_string()
        }))
    );
}

#[test]
fn parse_register_value_accepts_u24_within_range_decimal_and_hex() {
    assert_eq!(
        parse(DataType::U24, "16777215"),
        Some(RegisterValue::U24(0x00FF_FFFF))
    );
    assert_eq!(
        parse(DataType::U24, "0xFFFFFF"),
        Some(RegisterValue::U24(0x00FF_FFFF))
    );
}

#[test]
fn parse_register_value_rejects_u24_above_the_24_bit_range() {
    assert_eq!(
        parse(DataType::U24, "16777216"),
        None
    );
}

#[test]
fn parse_register_value_accepts_i24_within_range() {
    assert_eq!(
        parse(DataType::I24, "-8388608"),
        Some(RegisterValue::I24(-8_388_608))
    );
    assert_eq!(
        parse(DataType::I24, "8388607"),
        Some(RegisterValue::I24(8_388_607))
    );
}

#[test]
fn parse_register_value_rejects_i24_outside_the_24_bit_range() {
    assert_eq!(
        parse(DataType::I24, "8388608"),
        None
    );
    assert_eq!(
        parse(DataType::I24, "-8388609"),
        None
    );
}

#[test]
fn parse_register_value_trims_whitespace() {
    assert_eq!(
        parse(DataType::U16, " 42\n"),
        Some(RegisterValue::U16(42))
    );
}

#[test]
fn parse_register_value_rejects_garbage() {
    assert_eq!(
        parse(DataType::U16, "not a number"),
        None
    );
    assert_eq!(
        parse(DataType::I32, "not a number"),
        None
    );
    assert_eq!(
        parse(DataType::F64, "not a number"),
        None
    );
}

#[test]
fn parse_masked_register_value_accepts_hex_masks() {
    assert_eq!(
        InfusedFilesystem::parse_masked_register_value("MASK 0x00F2 0x0025"),
        Some((0x00F2, 0x0025))
    );
}

#[test]
fn parse_masked_register_value_accepts_decimal_masks() {
    assert_eq!(
        InfusedFilesystem::parse_masked_register_value("MASK 242 37"),
        Some((242, 37))
    );
}

#[test]
fn parse_masked_register_value_is_case_insensitive_and_trims_whitespace() {
    assert_eq!(
        InfusedFilesystem::parse_masked_register_value("  mask 0x00F2 0x0025  \n"),
        Some((0x00F2, 0x0025))
    );
}

#[test]
fn parse_masked_register_value_rejects_missing_keyword() {
    assert_eq!(
        InfusedFilesystem::parse_masked_register_value("0x00F2 0x0025"),
        None
    );
}

#[test]
fn parse_masked_register_value_rejects_wrong_token_count() {
    assert_eq!(
        InfusedFilesystem::parse_masked_register_value("MASK 0x00F2"),
        None
    );
    assert_eq!(
        InfusedFilesystem::parse_masked_register_value("MASK 0x00F2 0x0025 0x0000"),
        None
    );
}

#[test]
fn parse_masked_register_value_rejects_garbage_masks() {
    assert_eq!(
        InfusedFilesystem::parse_masked_register_value("MASK not-a-mask 0x0025"),
        None
    );
}

#[test]
fn parse_coil_value_accepts_zero_and_one() {
    assert_eq!(
        InfusedFilesystem::parse_coil_value("0"),
        Some(CoilValue(false))
    );
    assert_eq!(
        InfusedFilesystem::parse_coil_value("1"),
        Some(CoilValue(true))
    );
}

#[test]
fn parse_coil_value_trims_whitespace() {
    assert_eq!(
        InfusedFilesystem::parse_coil_value(" 1\n"),
        Some(CoilValue(true))
    );
}

#[test]
fn parse_coil_value_rejects_anything_else() {
    assert_eq!(InfusedFilesystem::parse_coil_value("true"), None);
    assert_eq!(InfusedFilesystem::parse_coil_value("2"), None);
    assert_eq!(InfusedFilesystem::parse_coil_value(""), None);
}

#[test]
fn parse_file_record_value_accepts_space_separated_hex() {
    assert_eq!(
        InfusedFilesystem::parse_file_record_value("0D FE 00 20"),
        Some(vec![0x0D, 0xFE, 0x00, 0x20])
    );
}

#[test]
fn parse_file_record_value_accepts_contiguous_hex() {
    assert_eq!(
        InfusedFilesystem::parse_file_record_value("0dfe0020"),
        Some(vec![0x0D, 0xFE, 0x00, 0x20])
    );
}

#[test]
fn parse_file_record_value_trims_surrounding_whitespace() {
    assert_eq!(
        InfusedFilesystem::parse_file_record_value("\n  AB CD  \n"),
        Some(vec![0xAB, 0xCD])
    );
}

#[test]
fn parse_file_record_value_rejects_odd_length() {
    assert_eq!(InfusedFilesystem::parse_file_record_value("ABC"), None);
}

#[test]
fn parse_file_record_value_rejects_non_hex_characters() {
    assert_eq!(InfusedFilesystem::parse_file_record_value("ZZ"), None);
}

#[test]
fn parse_file_record_value_rejects_empty_input() {
    assert_eq!(InfusedFilesystem::parse_file_record_value(""), None);
    assert_eq!(InfusedFilesystem::parse_file_record_value("   "), None);
}

#[test]
fn file_record_content_defaults_to_zero_filled_bytes_when_unset() {
    let filesystem = test_filesystem_with_file_records(WriteMode::Direct);
    let description = filesystem
        .file_record_by_numbers(20, 5)
        .map(|(_, description)| description)
        .unwrap();
    assert_eq!(filesystem.file_record_content(description), "00 00 00 00\n");
}

#[test]
fn file_record_content_reflects_a_stored_value() {
    let mut filesystem = test_filesystem_with_file_records(WriteMode::Direct);
    filesystem
        .file_record_store
        .set(20, 5, vec![0xDE, 0xAD, 0xBE, 0xEF]);
    let description = filesystem
        .file_record_by_numbers(20, 5)
        .map(|(_, description)| description)
        .unwrap();
    assert_eq!(filesystem.file_record_content(description), "DE AD BE EF\n");
}

#[test]
fn first_file_number_ino_sits_right_after_file_records_ino() {
    let filesystem = test_filesystem_with_file_records(WriteMode::Direct);
    assert_eq!(
        filesystem.first_file_number_ino(),
        filesystem.file_records_ino.0 + 1
    );
}

#[test]
fn file_number_by_ino_resolves_each_unique_file_number_directory() {
    let filesystem = test_filesystem_with_file_records(WriteMode::Direct);
    let first = INodeNo(filesystem.first_file_number_ino());
    let second = INodeNo(filesystem.first_file_number_ino() + 1);
    assert_eq!(filesystem.file_number_by_ino(first), Some(20));
    assert_eq!(filesystem.file_number_by_ino(second), Some(30));
}

#[test]
fn file_number_by_ino_returns_none_for_an_unrelated_inode() {
    let filesystem = test_filesystem_with_file_records(WriteMode::Direct);
    assert_eq!(filesystem.file_number_by_ino(INodeNo(ROOT_INO)), None);
}

#[test]
fn file_record_by_ino_resolves_each_record_file_in_declaration_order() {
    let filesystem = test_filesystem_with_file_records(WriteMode::Direct);
    let first = INodeNo(filesystem.first_file_record_ino());
    let second = INodeNo(filesystem.first_file_record_ino() + 1);
    let third = INodeNo(filesystem.first_file_record_ino() + 2);
    assert_eq!(
        filesystem
            .file_record_by_ino(first)
            .map(|d| d.record_number),
        Some(5)
    );
    assert_eq!(
        filesystem
            .file_record_by_ino(second)
            .map(|d| d.record_number),
        Some(6)
    );
    assert_eq!(
        filesystem
            .file_record_by_ino(third)
            .map(|d| d.record_number),
        Some(1)
    );
}

#[test]
fn file_record_by_ino_returns_none_for_an_unrelated_inode() {
    let filesystem = test_filesystem_with_file_records(WriteMode::Direct);
    assert_eq!(filesystem.file_record_by_ino(INodeNo(ROOT_INO)), None);
}

#[test]
fn file_record_by_numbers_resolves_the_matching_entry_and_its_inode() {
    let filesystem = test_filesystem_with_file_records(WriteMode::Direct);
    let (ino, description) = filesystem.file_record_by_numbers(20, 6).unwrap();
    assert_eq!(ino, INodeNo(filesystem.first_file_record_ino() + 1));
    assert_eq!(description.record_length, 2);
}

#[test]
fn file_record_by_numbers_returns_none_for_an_unknown_combination() {
    let filesystem = test_filesystem_with_file_records(WriteMode::Direct);
    assert_eq!(filesystem.file_record_by_numbers(20, 999), None);
    assert_eq!(filesystem.file_record_by_numbers(999, 5), None);
}

#[test]
fn direct_writable_by_ino_is_true_for_a_file_record_in_direct_mode() {
    let filesystem = test_filesystem_with_file_records(WriteMode::Direct);
    let (ino, _) = filesystem.file_record_by_numbers(20, 5).unwrap();
    assert!(filesystem.direct_writable_by_ino(ino));
}

#[test]
fn direct_writable_by_ino_is_false_for_a_file_record_in_staged_mode() {
    let filesystem = test_filesystem_with_file_records(WriteMode::Staged);
    let (ino, _) = filesystem.file_record_by_numbers(20, 5).unwrap();
    assert!(!filesystem.direct_writable_by_ino(ino));
}

#[test]
fn client_trust_is_none_when_not_constructed_with_it() {
    let filesystem = test_filesystem();
    assert!(filesystem.client_trust.is_none());
}

#[test]
fn client_trust_lock_is_some_when_constructed_with_it() {
    let filesystem = test_filesystem_with_client_trust();
    assert!(filesystem.client_trust.is_some());
}

#[test]
fn client_trust_inodes_are_calibrated_past_every_fixed_inode() {
    let mut filesystem = test_filesystem_with_client_trust();
    assert_ne!(filesystem.client_trust_ino, filesystem.report_ino);
    assert_ne!(filesystem.client_trust_approved_ino, filesystem.report_ino);
    assert_ne!(
        filesystem.client_trust_ino,
        filesystem.client_trust_approved_ino
    );

    let ino = filesystem
        .client_trust
        .as_mut()
        .unwrap()
        .insert_approved("aa:bb");
    assert!(ino.0 > filesystem.client_trust_approved_ino.0);
}

#[test]
fn server_id_ino_is_calibrated_past_every_fixed_inode() {
    let filesystem = test_filesystem_with_client_trust();
    assert_ne!(filesystem.server_id_ino, filesystem.client_trust_ino);
    assert_ne!(
        filesystem.server_id_ino,
        filesystem.client_trust_approved_ino
    );
    assert_ne!(filesystem.server_id_ino, filesystem.connection_attempts_ino);
    assert_ne!(filesystem.server_id_ino, filesystem.approved_log_ino);
    assert_ne!(filesystem.server_id_ino, filesystem.pending_log_ino);
    assert_ne!(filesystem.server_id_ino, filesystem.rejected_log_ino);
}

#[test]
fn server_id_content_is_empty_when_not_configured() {
    let filesystem = test_filesystem_with_server_id(None);
    assert_eq!(filesystem.server_id_content(), "");
}

#[test]
fn server_id_content_is_the_configured_value_with_a_trailing_newline() {
    let filesystem = test_filesystem_with_server_id(Some("infused_modbus-demo-plc".to_string()));
    assert_eq!(filesystem.server_id_content(), "infused_modbus-demo-plc\n");
}

#[test]
fn approved_fingerprint_is_resolvable_by_name_and_by_ino() {
    let mut filesystem = test_filesystem_with_client_trust();
    let state = filesystem.client_trust.as_mut().unwrap();
    let ino = state.insert_approved("aa:bb:cc");

    assert_eq!(state.ino_by_fingerprint("aa:bb:cc"), Some(ino));
    assert_eq!(state.fingerprint_by_ino(ino), Some("aa:bb:cc"));
}

#[test]
fn connection_attempts_log_inodes_are_all_distinct() {
    let filesystem = test_filesystem_with_client_trust();
    let inos = [
        filesystem.client_trust_ino,
        filesystem.client_trust_approved_ino,
        filesystem.connection_attempts_ino,
        filesystem.approved_log_ino,
        filesystem.pending_log_ino,
        filesystem.rejected_log_ino,
    ];
    let unique: HashSet<u64> = inos.iter().map(|ino| ino.0).collect();
    assert_eq!(unique.len(), inos.len());
}

#[test]
fn connection_attempts_log_content_routes_to_the_right_ring_buffer() {
    let mut filesystem = test_filesystem_with_client_trust();
    {
        let state = filesystem.client_trust.as_mut().unwrap();
        state.log_approved("aa:bb");
        state.log_pending("cc:dd");
        state.log_rejected("ee:ff");
    }

    assert_eq!(
        filesystem.connection_attempts_log_content(filesystem.approved_log_ino),
        "aa:bb\n"
    );
    assert_eq!(
        filesystem.connection_attempts_log_content(filesystem.pending_log_ino),
        "cc:dd\n"
    );
    assert_eq!(
        filesystem.connection_attempts_log_content(filesystem.rejected_log_ino),
        "ee:ff\n"
    );
}

#[test]
fn connection_attempts_log_content_is_empty_without_client_trust() {
    let filesystem = test_filesystem();
    // Any ino at all — there's no client_trust, so every one of these
    // should behave the same (empty), not panic on an absent lock.
    assert_eq!(
        filesystem.connection_attempts_log_content(INodeNo(9999)),
        ""
    );
}
fn entries(filesystem: &InfusedFilesystem, ino: INodeNo) -> Vec<(String, FileType)> {
    filesystem
        .readdir(ino, 0)
        .unwrap()
        .into_iter()
        .map(|entry| (entry.name, entry.kind))
        .collect()
}

fn names(filesystem: &InfusedFilesystem, ino: INodeNo) -> Vec<String> {
    entries(filesystem, ino)
        .into_iter()
        .map(|(name, _)| name)
        .collect()
}

fn everything() -> InfusedFilesystem {
    let mut parts = one_register_and_one_coil(WriteMode::Staged);
    parts.discrete_inputs = vec![DiscreteInputDescription {
        name: "Door_Open".to_string(),
        address: 10001,
    }];
    parts.input_registers = vec![InputRegisterDescription {
        name: "Level".to_string(),
        address: 30001,
        data_type: DataType::U16,
    }];
    parts.file_records = vec![FileRecordDescription {
        file_number: 4,
        record_number: 1,
        record_length: 2,
    }];
    parts.server_id = Some("plc".to_string());
    assemble(parts)
}

#[test]
fn the_root_lists_its_directories() {
    let filesystem = everything();
    assert_eq!(
        names(&filesystem, INodeNo(ROOT_INO)),
        vec![
            ".",
            "..",
            "holding-registers",
            "coils",
            "discrete-inputs",
            "input-registers",
            "file-records",
            "report",
            "transactions",
            "server-id",
        ]
    );
}

#[test]
fn every_listed_entry_is_found_and_has_attributes() {
    let filesystem = everything();
    let mut directories = vec![INodeNo(ROOT_INO)];
    let mut files = 0;
    while let Some(directory) = directories.pop() {
        for entry in filesystem.readdir(directory, 0).unwrap() {
            if entry.name == "." || entry.name == ".." {
                continue;
            }
            let found = filesystem
                .lookup(CALLER, directory, Some(&entry.name))
                .unwrap();
            assert_eq!(found.ino, entry.ino);
            assert_eq!(found.kind, entry.kind);
            assert_eq!(filesystem.getattr(CALLER, entry.ino), Ok(found));
            if entry.kind == FileType::Directory {
                directories.push(entry.ino);
            } else {
                files += 1;
                let content = filesystem.read(entry.ino, 0, 4096).unwrap();
                assert_eq!(content.len() as u64, found.size);
            }
        }
    }
    assert_eq!(files, 8);
}

#[test]
fn reading_starts_at_the_offset_and_stops_after_the_size() {
    let mut filesystem = everything();
    filesystem
        .store
        .set("Stop_Process", RegisterValue::U16(12345));
    let ino = *filesystem.name_to_ino.get("Stop_Process").unwrap();
    assert_eq!(filesystem.read(ino, 0, 100), Ok(b"12345\n".to_vec()));
    assert_eq!(filesystem.read(ino, 2, 2), Ok(b"34".to_vec()));
    assert_eq!(filesystem.read(ino, 50, 2), Ok(Vec::new()));
    assert_eq!(
        filesystem.read(INodeNo(ROOT_INO), 0, 10),
        Err(Errno::ENOENT)
    );
}

#[test]
fn listing_goes_on_where_it_stopped() {
    let filesystem = everything();
    let all = filesystem.readdir(INodeNo(ROOT_INO), 0).unwrap();
    let rest = filesystem
        .readdir(INodeNo(ROOT_INO), all[2].next_offset)
        .unwrap();
    assert_eq!(rest.len(), all.len() - 3);
    assert_eq!(rest[0].name, all[3].name);
    assert_eq!(
        filesystem.readdir(INodeNo(999_999), 0),
        Err(Errno::ENOTDIR)
    );
}

#[test]
fn unknown_names_and_inodes_are_not_found() {
    let filesystem = everything();
    assert_eq!(
        filesystem.lookup(CALLER, INodeNo(ROOT_INO), Some("nonsense")),
        Err(Errno::ENOENT)
    );
    assert_eq!(
        filesystem.lookup(CALLER, INodeNo(ROOT_INO), None),
        Err(Errno::ENOENT)
    );
    assert_eq!(
        filesystem.getattr(CALLER, INodeNo(999_999)),
        Err(Errno::ENOENT)
    );
}

#[test]
fn the_owner_is_the_configured_one_or_the_caller() {
    let filesystem = test_filesystem_with_permissions(distinct_permissions());
    let report = filesystem.getattr(CALLER, filesystem.report_ino).unwrap();
    assert_eq!((report.perm, report.uid, report.gid), (0o720, 103, 203));
    let root = filesystem.getattr(CALLER, INodeNo(ROOT_INO)).unwrap();
    assert_eq!((root.perm, root.uid, root.gid), (0o755, 1000, 1001));
}

#[test]
fn client_trust_belongs_to_the_process_alone() {
    let filesystem = test_filesystem_with_client_trust();
    let attr = filesystem
        .getattr(CALLER, filesystem.client_trust_ino)
        .unwrap();
    assert_eq!((attr.perm, attr.uid, attr.gid), (0o700, 501, 20));
}

#[test]
fn fragments_of_a_value_are_joined_before_it_is_staged() {
    let mut filesystem = test_filesystem();
    let ino = staged_file(&mut filesystem, "Stop_Process");
    assert_eq!(filesystem.write(ino, 0, b"0xB"), Ok(3));
    assert_eq!(filesystem.write(ino, 3, b"EEF\n"), Ok(4));
    assert!(release(&mut filesystem, ino).is_none());
    assert_eq!(
        filesystem.transactions.pending.get("Stop_Process"),
        Some(StagedValue::Register(RegisterValue::U16(0xBEEF)))
    );
    assert_eq!(filesystem.read(ino, 0, 100), Ok(b"48879\n".to_vec()));
}

#[test]
fn a_mask_is_staged_as_such_and_shown_as_it_was_given() {
    let mut filesystem = test_filesystem();
    let ino = staged_file(&mut filesystem, "Stop_Process");
    assert_eq!(filesystem.write(ino, 0, b"MASK 0x00F2 37"), Ok(14));
    assert!(release(&mut filesystem, ino).is_none());
    assert_eq!(
        filesystem.transactions.pending.get("Stop_Process"),
        Some(StagedValue::MaskedRegister {
            and_mask: 0x00F2,
            or_mask: 37,
        })
    );
    assert_eq!(
        filesystem.read(ino, 0, 100),
        Ok(b"MASK 0x00F2 0x0025\n".to_vec())
    );
}

#[test]
fn what_is_no_value_is_not_staged() {
    let mut filesystem = test_filesystem();
    let ino = staged_file(&mut filesystem, "Motor_Running");
    assert_eq!(filesystem.write(ino, 0, b"maybe"), Ok(5));
    assert!(release(&mut filesystem, ino).is_none());
    assert!(filesystem.transactions.pending.is_empty());
    assert_eq!(filesystem.write(ino, 0, &[0xFF, 0xFE]), Ok(2));
    assert!(release(&mut filesystem, ino).is_none());
    assert!(filesystem.transactions.pending.is_empty());
}

#[test]
fn making_transaction_end_sends_what_is_staged() {
    let mut filesystem = test_filesystem();
    let ino = staged_file(&mut filesystem, "Motor_Running");
    assert_eq!(filesystem.write(ino, 0, b"1"), Ok(1));
    assert!(release(&mut filesystem, ino).is_none());

    let transactions = filesystem.transactions_ino;
    let (_, sent) = filesystem
        .create(CALLER, transactions, Some("TRANSACTION_END"))
        .unwrap();
    assert_eq!(
        sent.unwrap().get("Motor_Running"),
        Some(&StagedValue::Coil(CoilValue(true)))
    );
    assert_eq!(names(&filesystem, transactions), vec![".", ".."]);
    assert_eq!(
        filesystem.lookup(CALLER, transactions, Some("TRANSACTION_END")),
        Err(Errno::ENOENT)
    );
}

#[test]
fn only_known_names_are_made_and_only_in_transactions() {
    let mut filesystem = test_filesystem();
    let transactions = filesystem.transactions_ino;
    assert!(matches!(
        filesystem.create(CALLER, transactions, Some("Unknown")),
        Err(Errno::ENOENT)
    ));
    assert!(matches!(
        filesystem.create(CALLER, INodeNo(ROOT_INO), Some("Stop_Process")),
        Err(Errno::EPERM)
    ));
    let mut direct = test_filesystem_with_permissions_and_write_mode(
        distinct_permissions(),
        WriteMode::Direct,
    );
    let transactions = direct.transactions_ino;
    assert!(matches!(
        direct.create(CALLER, transactions, Some("Stop_Process")),
        Err(Errno::EPERM)
    ));
}

#[test]
fn unlinking_takes_a_staged_value_back() {
    let mut filesystem = test_filesystem();
    let ino = staged_file(&mut filesystem, "Stop_Process");
    assert_eq!(filesystem.write(ino, 0, b"1"), Ok(1));
    assert!(release(&mut filesystem, ino).is_none());
    let transactions = filesystem.transactions_ino;
    assert_eq!(
        filesystem.unlink(transactions, Some("Stop_Process")),
        Ok(())
    );
    assert!(filesystem.transactions.pending.is_empty());
    assert_eq!(filesystem.getattr(CALLER, ino), Err(Errno::ENOENT));
    assert_eq!(
        filesystem.unlink(transactions, Some("Stop_Process")),
        Err(Errno::ENOENT)
    );
    assert_eq!(
        filesystem.unlink(INodeNo(ROOT_INO), Some("Stop_Process")),
        Err(Errno::ENOENT)
    );
}

#[test]
fn a_direct_write_is_handed_out_at_once() {
    let mut filesystem = test_filesystem_with_permissions_and_write_mode(
        distinct_permissions(),
        WriteMode::Direct,
    );
    let ino = *filesystem.name_to_ino.get("Stop_Process").unwrap();
    assert_eq!(filesystem.write(ino, 0, b"7\n"), Ok(2));
    let sent = release(&mut filesystem, ino).unwrap();
    assert_eq!(sent.len(), 1);
    assert_eq!(
        sent.get("Stop_Process"),
        Some(&StagedValue::Register(RegisterValue::U16(7)))
    );
    assert_eq!(filesystem.store.get("Stop_Process"), None);
}

#[test]
fn a_direct_write_of_a_file_record_takes_its_bytes() {
    let mut filesystem = test_filesystem_with_file_records(WriteMode::Direct);
    let ino = filesystem.file_record_by_numbers(20, 5).unwrap().0;
    assert_eq!(filesystem.write(ino, 0, b"0D FE 00 20"), Ok(11));
    let sent = release(&mut filesystem, ino).unwrap();
    assert_eq!(
        sent.entry(0).1,
        &StagedValue::FileRecord {
            file_number: 20,
            record_number: 5,
            value: vec![0x0D, 0xFE, 0x00, 0x20],
        }
    );
    assert_eq!(filesystem.write(ino, 0, b"0D F"), Ok(4));
    assert!(release(&mut filesystem, ino).is_none());
}

#[test]
fn what_may_not_be_written_is_refused() {
    let mut filesystem = test_filesystem();
    let ino = *filesystem.name_to_ino.get("Stop_Process").unwrap();
    assert_eq!(filesystem.write(ino, 0, b"1"), Err(Errno::ENOENT));
    let mut read_only = test_filesystem_with_read_only_register(WriteMode::Direct);
    let ino = *read_only.name_to_ino.get("Stop_Process").unwrap();
    assert_eq!(read_only.write(ino, 0, b"1"), Err(Errno::ENOENT));
}

#[test]
fn no_two_files_share_an_inode() {
    let mut filesystem = everything();
    staged_file(&mut filesystem, "Stop_Process");
    staged_file(&mut filesystem, "Motor_Running");
    let mut inos = HashSet::new();
    let mut directories = vec![INodeNo(ROOT_INO)];
    while let Some(directory) = directories.pop() {
        for entry in filesystem.readdir(directory, 0).unwrap() {
            if entry.name == "." || entry.name == ".." {
                continue;
            }
            assert!(inos.insert(entry.ino.0));
            if entry.kind == FileType::Directory {
                directories.push(entry.ino);
            }
        }
    }
}

#[test]
fn the_text_of_a_value_reads_back_as_that_value() {
    for (data_type, value) in [
        (DataType::U8, RegisterValue::U8(255)),
        (DataType::I8, RegisterValue::I8(-128)),
        (DataType::U24, RegisterValue::U24(0xFF_FFFF)),
        (DataType::I24, RegisterValue::I24(-0x80_0000)),
        (DataType::I64, RegisterValue::I64(i64::MIN)),
        (DataType::U64, RegisterValue::U64(u64::MAX)),
    ] {
        assert_eq!(parse(data_type, &value.to_string()), Some(value));
    }
    for value in [CoilValue(false), CoilValue(true)] {
        assert_eq!(
            InfusedFilesystem::parse_coil_value(&value.to_string()),
            Some(value)
        );
    }
    let bytes = vec![0x00, 0x0F, 0xA0, 0xFF];
    assert_eq!(
        InfusedFilesystem::parse_file_record_value(&InfusedFilesystem::format_file_record_hex(
            &bytes
        )),
        Some(bytes)
    );
}

#[test]
fn making_and_unlinking_a_file_leaves_transactions_as_it_was() {
    let mut filesystem = test_filesystem();
    let transactions = filesystem.transactions_ino;
    let before = names(&filesystem, transactions);
    staged_file(&mut filesystem, "Stop_Process");
    assert_eq!(names(&filesystem, transactions).len(), before.len() + 1);
    assert_eq!(
        filesystem.unlink(transactions, Some("Stop_Process")),
        Ok(())
    );
    assert_eq!(names(&filesystem, transactions), before);
}

#[test]
fn making_a_file_again_keeps_its_inode_and_what_is_staged() {
    let mut filesystem = test_filesystem();
    let ino = staged_file(&mut filesystem, "Stop_Process");
    assert_eq!(filesystem.write(ino, 0, b"5"), Ok(1));
    assert!(release(&mut filesystem, ino).is_none());
    assert_eq!(staged_file(&mut filesystem, "Stop_Process"), ino);
    assert_eq!(filesystem.read(ino, 0, 10), Ok(b"5\n".to_vec()));
}

#[test]
fn the_trusted_clients_are_files_with_their_fingerprint() {
    let mut filesystem = test_filesystem_with_client_trust();
    let ino = filesystem
        .client_trust
        .as_mut()
        .unwrap()
        .insert_approved("aa:bb");
    let approved = filesystem.client_trust_approved_ino;
    assert_eq!(names(&filesystem, approved), vec![".", "..", "aa:bb"]);
    assert_eq!(filesystem.read(ino, 0, 100), Ok(b"aa:bb\n".to_vec()));
    assert_eq!(
        names(&filesystem, INodeNo(ROOT_INO)).last().unwrap(),
        "client-trust"
    );
}

#[test]
fn a_sign_is_no_hexadecimal_digit() {
    assert_eq!(InfusedFilesystem::parse_file_record_value("+F"), None);
    assert_eq!(InfusedFilesystem::parse_file_record_value("0D +F"), None);
    assert_eq!(InfusedFilesystem::parse_file_record_value("-1"), None);
    assert_eq!(parse(DataType::U16, "0x+F"), None);
    assert_eq!(parse(DataType::U16, "0x"), None);
    assert_eq!(parse(DataType::U16, "0XfF"), Some(RegisterValue::U16(255)));
    assert_eq!(
        InfusedFilesystem::parse_masked_register_value("MASK 0x+F 1"),
        None
    );
}

#[test]
fn a_character_beyond_ascii_is_no_hexadecimal_digit() {
    assert_eq!(InfusedFilesystem::parse_file_record_value("\u{e4}"), None);
    assert_eq!(InfusedFilesystem::parse_file_record_value("a\u{e4}b"), None);
    assert_eq!(InfusedFilesystem::parse_file_record_value("\u{ff11}0"), None);
}

#[test]
fn a_value_reads_back_with_white_space_on_both_sides() {
    for (data_type, value) in [
        (DataType::U16, RegisterValue::U16(42)),
        (DataType::I24, RegisterValue::I24(-8_388_608)),
        (DataType::F32, RegisterValue::F32(read_single("3.5").unwrap())),
    ] {
        let text = format!(" {}\n", value.to_string());
        assert_eq!(parse(data_type, &text), Some(value));
    }
    assert_eq!(
        InfusedFilesystem::parse_coil_value("\t1 \n"),
        Some(CoilValue(true))
    );
}

#[test]
fn a_listing_goes_on_at_every_offset() {
    let filesystem = everything();
    let root = INodeNo(ROOT_INO);
    let all = filesystem.readdir(root, 0).unwrap();
    for (index, entry) in all.iter().enumerate() {
        assert_eq!(entry.next_offset, index as u64 + 1);
        let rest = filesystem.readdir(root, entry.next_offset).unwrap();
        assert_eq!(rest.as_slice(), &all[index + 1..]);
    }
}

#[test]
fn no_inode_is_given_to_two_files() {
    let mut filesystem = test_filesystem();
    let transactions = filesystem.transactions_ino;
    let mut given = Vec::new();
    given.push(staged_file(&mut filesystem, "Stop_Process").0);
    given.push(staged_file(&mut filesystem, "Motor_Running").0);
    assert_eq!(
        filesystem.unlink(transactions, Some("Stop_Process")),
        Ok(())
    );
    given.push(staged_file(&mut filesystem, "Stop_Process").0);
    let (end, _) = filesystem
        .create(CALLER, transactions, Some("TRANSACTION_END"))
        .unwrap();
    given.push(end.ino.0);
    given.push(staged_file(&mut filesystem, "Motor_Running").0);
    let different: HashSet<u64> = given.iter().copied().collect();
    assert_eq!(different.len(), given.len());
}
