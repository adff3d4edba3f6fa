use infused_modbus::device_description::{
    AccessRight, CoilDescription, DataType, DeviceDescription, DeviceDescriptionError, MemLayout,
    RawCoilEntry, RawCoilSection, RawDeviceDescription, RawRegisterEntry, RawRegisterSection,
    RegisterDescription,
};

fn number(table: &toml::Table, key: &str) -> u16 {
    u16::try_from(table[key].as_integer().unwrap()).unwrap()
}

fn string(table: &toml::Table, key: &str) -> String {
    table[key].as_str().unwrap().to_string()
}

fn entries(section: &toml::Table) -> Vec<toml::Table> {
    section["entries"]
        .as_array()
        .unwrap()
        .iter()
        .map(|entry| entry.as_table().unwrap().clone())
        .collect()
}

fn data_type(tag: &str) -> DataType {
    match tag {
        "u8" => DataType::U8,
        "i8" => DataType::I8,
        "u16" => DataType::U16,
        "i16" => DataType::I16,
        "u24" => DataType::U24,
        "i24" => DataType::I24,
        "u32" => DataType::U32,
        "i32" => DataType::I32,
        "u64" => DataType::U64,
        "i64" => DataType::I64,
        "f32" => DataType::F32,
        "f64" => DataType::F64,
        _ => panic!("unknown data type {tag}"),
    }
}

fn mem_layout(tag: &str) -> MemLayout {
    match tag {
        "abcd" => MemLayout::Abcd,
        "badc" => MemLayout::Badc,
        "cdab" => MemLayout::Cdab,
        "dcba" => MemLayout::Dcba,
        _ => panic!("unknown layout {tag}"),
    }
}

fn access(tag: &str) -> AccessRight {
    match tag {
        "read_only" => AccessRight::ReadOnly,
        "read_write" => AccessRight::ReadWrite,
        _ => panic!("unknown access right {tag}"),
    }
}

fn parse(source: &str) -> Result<DeviceDescription, DeviceDescriptionError> {
    let table: toml::Table = source.parse().unwrap();
    let registers = match table.get("registers") {
        Some(section) => {
            let section = section.as_table().unwrap();
            RawRegisterSection {
                base_address: number(section, "base_address"),
                mem_layout: mem_layout(&string(section, "mem-layout")),
                entries: entries(section)
                    .iter()
                    .map(|entry| RawRegisterEntry {
                        name: string(entry, "name"),
                        offset: number(entry, "offset"),
                        data_type: data_type(&string(entry, "data_type")),
                        access: access(&string(entry, "access")),
                    })
                    .collect(),
            }
        }
        None => RawRegisterSection {
            base_address: 0,
            mem_layout: MemLayout::default(),
            entries: Vec::new(),
        },
    };
    let coils = match table.get("coils") {
        Some(section) => {
            let section = section.as_table().unwrap();
            RawCoilSection {
                base_address: number(section, "base_address"),
                entries: entries(section)
                    .iter()
                    .map(|entry| RawCoilEntry {
                        name: string(entry, "name"),
                        offset: number(entry, "offset"),
                    })
                    .collect(),
            }
        }
        None => RawCoilSection {
            base_address: 0,
            entries: Vec::new(),
        },
    };
    DeviceDescription::resolve(RawDeviceDescription { registers, coils })
}

#[test]
fn register_count_matches_each_type_s_wire_width() {
    for data_type in [DataType::U8, DataType::I8, DataType::U16, DataType::I16] {
        assert_eq!(data_type.register_count(), 1);
    }
    for data_type in [
        DataType::U24,
        DataType::I24,
        DataType::U32,
        DataType::I32,
        DataType::F32,
    ] {
        assert_eq!(data_type.register_count(), 2);
    }
    for data_type in [DataType::U64, DataType::I64, DataType::F64] {
        assert_eq!(data_type.register_count(), 4);
    }
}

#[test]
fn parse_reads_valid_device_description() {
    let toml_source = r#"
        [registers]
        base_address = 40000
        mem-layout = "abcd"

        [[registers.entries]]
        name = "Tank_Temperature"
        offset = 1
        data_type = "u16"
        access = "read_only"

        [[registers.entries]]
        name = "Stop_Process"
        offset = 2
        data_type = "f32"
        access = "read_write"

        [coils]
        base_address = 0

        [[coils.entries]]
        name = "Motor_Running"
        offset = 1

        [[coils.entries]]
        name = "Alarm_Active"
        offset = 2
    "#;

    let description = parse(toml_source).unwrap();

    assert_eq!(
        description,
        DeviceDescription {
            registers: vec![
                RegisterDescription {
                    name: "Tank_Temperature".to_string(),
                    address: 40001,
                    data_type: DataType::U16,
                    access: AccessRight::ReadOnly,
                },
                RegisterDescription {
                    name: "Stop_Process".to_string(),
                    address: 40002,
                    data_type: DataType::F32,
                    access: AccessRight::ReadWrite,
                },
            ],
            coils: vec![
                CoilDescription {
                    name: "Motor_Running".to_string(),
                    address: 1,
                },
                CoilDescription {
                    name: "Alarm_Active".to_string(),
                    address: 2,
                },
            ],
            mem_layout: MemLayout::Abcd,
        }
    );
}

#[test]
fn parse_reads_every_data_type() {
    let toml_source = r#"
        [registers]
        base_address = 0
        mem-layout = "abcd"

        [[registers.entries]]
        name = "A"
        offset = 0
        data_type = "u8"
        access = "read_only"

        [[registers.entries]]
        name = "B"
        offset = 1
        data_type = "i8"
        access = "read_only"

        [[registers.entries]]
        name = "C"
        offset = 2
        data_type = "u16"
        access = "read_only"

        [[registers.entries]]
        name = "D"
        offset = 3
        data_type = "i16"
        access = "read_only"

        [[registers.entries]]
        name = "E"
        offset = 4
        data_type = "u24"
        access = "read_only"

        [[registers.entries]]
        name = "F"
        offset = 5
        data_type = "i24"
        access = "read_only"

        [[registers.entries]]
        name = "G"
        offset = 6
        data_type = "u32"
        access = "read_only"

        [[registers.entries]]
        name = "H"
        offset = 7
        data_type = "i32"
        access = "read_only"

        [[registers.entries]]
        name = "I"
        offset = 8
        data_type = "u64"
        access = "read_only"

        [[registers.entries]]
        name = "J"
        offset = 9
        data_type = "i64"
        access = "read_only"

        [[registers.entries]]
        name = "K"
        offset = 10
        data_type = "f32"
        access = "read_only"

        [[registers.entries]]
        name = "L"
        offset = 11
        data_type = "f64"
        access = "read_only"
    "#;

    let description = parse(toml_source).unwrap();

    let data_types: Vec<DataType> = description
        .registers
        .iter()
        .map(|register| register.data_type)
        .collect();
    assert_eq!(
        data_types,
        vec![
            DataType::U8,
            DataType::I8,
            DataType::U16,
            DataType::I16,
            DataType::U24,
            DataType::I24,
            DataType::U32,
            DataType::I32,
            DataType::U64,
            DataType::I64,
            DataType::F32,
            DataType::F64,
        ]
    );
}

#[test]
fn parse_reads_every_mem_layout() {
    for (tag, expected) in [
        ("abcd", MemLayout::Abcd),
        ("badc", MemLayout::Badc),
        ("cdab", MemLayout::Cdab),
        ("dcba", MemLayout::Dcba),
    ] {
        let toml_source = format!(
            r#"
                [registers]
                base_address = 0
                mem-layout = "{tag}"

                [[registers.entries]]
                name = "A"
                offset = 0
                data_type = "u16"
                access = "read_only"
            "#
        );

        let description = parse(&toml_source).unwrap();
        assert_eq!(description.mem_layout, expected);
    }
}

#[test]
fn parse_treats_an_absent_coils_section_as_no_coils() {
    let toml_source = r#"
        [registers]
        base_address = 40000
        mem-layout = "abcd"

        [[registers.entries]]
        name = "Tank_Temperature"
        offset = 1
        data_type = "u16"
        access = "read_only"
    "#;

    let description = parse(toml_source).unwrap();

    assert!(description.coils.is_empty());
}

#[test]
fn parse_treats_an_absent_registers_section_as_no_registers() {
    let toml_source = r#"
        [coils]
        base_address = 0

        [[coils.entries]]
        name = "Motor_Running"
        offset = 1
    "#;

    let description = parse(toml_source).unwrap();

    assert!(description.registers.is_empty());
    assert_eq!(description.coils.len(), 1);
}

#[test]
fn parse_rejects_address_overflow() {
    let toml_source = r#"
        [registers]
        base_address = 65535
        mem-layout = "abcd"

        [[registers.entries]]
        name = "Tank_Temperature"
        offset = 1
        data_type = "u16"
        access = "read_only"
    "#;

    let error = parse(toml_source).unwrap_err();

    assert!(matches!(
        error,
        DeviceDescriptionError::AddressOverflow {
            base_address: 65535,
            offset: 1,
            ..
        }
    ));
}

#[test]
fn parse_rejects_coil_address_overflow() {
    let toml_source = r#"
        [coils]
        base_address = 65535

        [[coils.entries]]
        name = "Motor_Running"
        offset = 1
    "#;

    let error = parse(toml_source).unwrap_err();

    assert!(matches!(
        error,
        DeviceDescriptionError::AddressOverflow {
            base_address: 65535,
            offset: 1,
            ..
        }
    ));
}

#[test]
fn errors_say_what_is_wrong() {
    let overflow = DeviceDescriptionError::AddressOverflow {
        name: "Tank".to_string(),
        base_address: 65535,
        offset: 1,
    };
    assert_eq!(
        overflow.to_string(),
        "'Tank' address overflows u16: base_address 65535 + offset 1"
    );
    let toml = DeviceDescriptionError::Toml("line 1".to_string());
    assert_eq!(toml.to_string(), "line 1");
}

#[test]
fn the_first_entry_that_overflows_is_reported() {
    let raw = RawDeviceDescription {
        registers: RawRegisterSection {
            base_address: 65000,
            mem_layout: MemLayout::Abcd,
            entries: vec![
                RawRegisterEntry {
                    name: "Last".to_string(),
                    offset: 535,
                    data_type: DataType::U16,
                    access: AccessRight::ReadOnly,
                },
                RawRegisterEntry {
                    name: "Beyond".to_string(),
                    offset: 536,
                    data_type: DataType::U16,
                    access: AccessRight::ReadOnly,
                },
                RawRegisterEntry {
                    name: "Further".to_string(),
                    offset: 600,
                    data_type: DataType::U16,
                    access: AccessRight::ReadOnly,
                },
            ],
        },
        coils: RawCoilSection {
            base_address: 0,
            entries: Vec::new(),
        },
    };
    assert_eq!(
        DeviceDescription::resolve(raw),
        Err(DeviceDescriptionError::AddressOverflow {
            name: "Beyond".to_string(),
            base_address: 65000,
            offset: 536,
        })
    );
}
