use infused_modbus::permissions::{
    DirectoryPermissions, FusePermissions, RawDirectoryPermissions, RawFusePermissions,
    DEFAULT_MODE,
};

const REAL_UID: u32 = 501;
const REAL_GID: u32 = 20;

fn number(section: &toml::Table, key: &str) -> Option<u32> {
    section
        .get(key)
        .map(|value| u32::try_from(value.as_integer().unwrap()).unwrap())
}

fn directory(table: &toml::Table, key: &str) -> RawDirectoryPermissions {
    let empty = toml::Table::new();
    let section = table
        .get(key)
        .map_or(&empty, |section| section.as_table().unwrap());
    RawDirectoryPermissions {
        mode: number(section, "mode").map(|mode| u16::try_from(mode).unwrap()),
        uid: number(section, "uid"),
        gid: number(section, "gid"),
    }
}

fn parse(source: &str) -> Result<FusePermissions, toml::de::Error> {
    let table: toml::Table = source.parse()?;
    Ok(FusePermissions::from_raw(
        RawFusePermissions {
            holding_registers: directory(&table, "holding-registers"),
            transactions: directory(&table, "transactions"),
            report: directory(&table, "report"),
            coils: directory(&table, "coils"),
        },
        REAL_UID,
        REAL_GID,
    ))
}

#[test]
fn parse_of_empty_source_uses_defaults_for_every_directory() {
    let (real_uid, real_gid) = (REAL_UID, REAL_GID);
    let expected = DirectoryPermissions {
        mode: DEFAULT_MODE,
        uid: real_uid,
        gid: real_gid,
    };

    let permissions = parse("").unwrap();

    assert_eq!(permissions.holding_registers, expected);
    assert_eq!(permissions.transactions, expected);
    assert_eq!(permissions.report, expected);
    assert_eq!(permissions.coils, expected);
}

#[test]
fn default_matches_parsing_an_empty_source() {
    assert_eq!(
        FusePermissions::unconfigured(REAL_UID, REAL_GID),
        parse("").unwrap()
    );
}

#[test]
fn parse_reads_a_fully_specified_directory() {
    let toml_source = r#"
        [transactions]
        mode = 0o600
        uid = 1000
        gid = 1000
    "#;

    let permissions = parse(toml_source).unwrap();

    assert_eq!(
        permissions.transactions,
        DirectoryPermissions {
            mode: 0o600,
            uid: 1000,
            gid: 1000,
        }
    );
}

#[test]
fn parse_supports_a_partial_override() {
    let toml_source = r#"
        [report]
        mode = 0o444
    "#;
    let (real_uid, real_gid) = (REAL_UID, REAL_GID);

    let permissions = parse(toml_source).unwrap();

    assert_eq!(
        permissions.report,
        DirectoryPermissions {
            mode: 0o444,
            uid: real_uid,
            gid: real_gid,
        }
    );
}

#[test]
fn parse_reads_the_holding_registers_dashed_key() {
    let toml_source = r#"
        [holding-registers]
        mode = 0o750
    "#;

    let permissions = parse(toml_source).unwrap();

    assert_eq!(permissions.holding_registers.mode, 0o750);
}

#[test]
fn parse_leaves_unconfigured_directories_at_their_default() {
    let toml_source = r#"
        [coils]
        mode = 0o700
    "#;
    let (real_uid, real_gid) = (REAL_UID, REAL_GID);
    let default_permissions = DirectoryPermissions {
        mode: DEFAULT_MODE,
        uid: real_uid,
        gid: real_gid,
    };

    let permissions = parse(toml_source).unwrap();

    assert_eq!(permissions.holding_registers, default_permissions);
    assert_eq!(permissions.transactions, default_permissions);
    assert_eq!(permissions.report, default_permissions);
}
