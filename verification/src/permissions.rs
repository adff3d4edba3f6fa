//! Who owns the directories of the file system, and with which mode.

use vstd::prelude::*;

verus! {

/// The mode of a directory for which none is configured.
pub const DEFAULT_MODE: u16 = 0o755;

/// What a configuration says of one directory.
#[derive(Debug, Clone, Copy, PartialEq, Eq, Structural)]
pub struct RawDirectoryPermissions {
    pub mode: Option<u16>,
    pub uid: Option<u32>,
    pub gid: Option<u32>,
}

/// What a configuration says of the configurable directories.
#[derive(Debug, Clone, Copy, PartialEq, Eq, Structural)]
pub struct RawFusePermissions {
    pub holding_registers: RawDirectoryPermissions,
    pub transactions: RawDirectoryPermissions,
    pub report: RawDirectoryPermissions,
    pub coils: RawDirectoryPermissions,
}

/// The mode and owner of a directory.
#[derive(Debug, Clone, Copy, PartialEq, Eq, Structural)]
pub struct DirectoryPermissions {
    pub mode: u16,
    pub uid: u32,
    pub gid: u32,
}

impl DirectoryPermissions {
    /// The configured permissions, with the default mode and the process's
    /// own user and group for what is not configured.
    pub open spec fn resolved(
        raw: RawDirectoryPermissions,
        real_uid: u32,
        real_gid: u32,
    ) -> DirectoryPermissions {
        DirectoryPermissions {
            mode: match raw.mode {
                Some(mode) => mode,
                None => DEFAULT_MODE,
            },
            uid: match raw.uid {
                Some(uid) => uid,
                None => real_uid,
            },
            gid: match raw.gid {
                Some(gid) => gid,
                None => real_gid,
            },
        }
    }

    /// The permissions of one directory of a configuration.
    pub fn from_raw(raw: RawDirectoryPermissions, real_uid: u32, real_gid: u32) -> (permissions:
        Self)
        ensures
            permissions == Self::resolved(raw, real_uid, real_gid),
    {
        DirectoryPermissions {
            mode: raw.mode.unwrap_or(DEFAULT_MODE),
            uid: raw.uid.unwrap_or(real_uid),
            gid: raw.gid.unwrap_or(real_gid),
        }
    }
}

/// The permissions of the four configurable directories.
#[derive(Debug, Clone, Copy, PartialEq, Eq, Structural)]
pub struct FusePermissions {
    pub holding_registers: DirectoryPermissions,
    pub transactions: DirectoryPermissions,
    pub report: DirectoryPermissions,
    pub coils: DirectoryPermissions,
}

impl FusePermissions {
    /// The permissions of a configuration.
    pub open spec fn resolved(
        raw: RawFusePermissions,
        real_uid: u32,
        real_gid: u32,
    ) -> FusePermissions {
        FusePermissions {
            holding_registers: DirectoryPermissions::resolved(
                raw.holding_registers,
                real_uid,
                real_gid,
            ),
            transactions: DirectoryPermissions::resolved(raw.transactions, real_uid, real_gid),
            report: DirectoryPermissions::resolved(raw.report, real_uid, real_gid),
            coils: DirectoryPermissions::resolved(raw.coils, real_uid, real_gid),
        }
    }

    /// The permissions of a configuration.
    pub fn from_raw(raw: RawFusePermissions, real_uid: u32, real_gid: u32) -> (permissions: Self)
        ensures
            permissions == Self::resolved(raw, real_uid, real_gid),
    {
        FusePermissions {
            holding_registers: DirectoryPermissions::from_raw(
                raw.holding_registers,
                real_uid,
                real_gid,
            ),
            transactions: DirectoryPermissions::from_raw(raw.transactions, real_uid, real_gid),
            report: DirectoryPermissions::from_raw(raw.report, real_uid, real_gid),
            coils: DirectoryPermissions::from_raw(raw.coils, real_uid, real_gid),
        }
    }

    /// The permissions where nothing is configured: every directory has the
    /// default mode and belongs to the process's own user and group.
    pub fn unconfigured(real_uid: u32, real_gid: u32) -> (permissions: Self)
        ensures
            permissions.holding_registers == (DirectoryPermissions {
                mode: DEFAULT_MODE,
                uid: real_uid,
                gid: real_gid,
            }),
            permissions.transactions == permissions.holding_registers,
            permissions.report == permissions.holding_registers,
            permissions.coils == permissions.holding_registers,
    {
        let raw = RawDirectoryPermissions { mode: None, uid: None, gid: None };
        Self::from_raw(
            RawFusePermissions {
                holding_registers: raw,
                transactions: raw,
                report: raw,
                coils: raw,
            },
            real_uid,
            real_gid,
        )
    }
}

/// Each directory has what is configured for it, and for what is not configured the mode
/// 0755 and the user and group of the process.
pub proof fn law_unconfigured_falls_back(
    mode: u16,
    uid: u32,
    gid: u32,
    raw: RawDirectoryPermissions,
    real_uid: u32,
    real_gid: u32,
)
    ensures
        ({
            let permissions = DirectoryPermissions::resolved(raw, real_uid, real_gid);
            &&& raw.mode == Some(mode) ==> permissions.mode == mode
            &&& raw.uid == Some(uid) ==> permissions.uid == uid
            &&& raw.gid == Some(gid) ==> permissions.gid == gid
            &&& raw.mode is None ==> permissions.mode == 0o755
            &&& raw.uid is None ==> permissions.uid == real_uid
            &&& raw.gid is None ==> permissions.gid == real_gid
        }),
{
}

/// What is configured for one directory is seen in that directory, and in no other.
pub proof fn law_directories_are_configured_apart(
    raw: RawFusePermissions,
    other: RawDirectoryPermissions,
    mode: u16,
    real_uid: u32,
    real_gid: u32,
)
    requires
        other.mode == Some(mode),
    ensures
        ({
            let before = FusePermissions::resolved(raw, real_uid, real_gid);
            let a = FusePermissions::resolved(
                RawFusePermissions { holding_registers: other, ..raw },
                real_uid,
                real_gid,
            );
            let b = FusePermissions::resolved(
                RawFusePermissions { transactions: other, ..raw },
                real_uid,
                real_gid,
            );
            let c = FusePermissions::resolved(
                RawFusePermissions { report: other, ..raw },
                real_uid,
                real_gid,
            );
            let d = FusePermissions::resolved(
                RawFusePermissions { coils: other, ..raw },
                real_uid,
                real_gid,
            );
            &&& a.holding_registers.mode == mode
            &&& a == (FusePermissions { holding_registers: a.holding_registers, ..before })
            &&& b.transactions.mode == mode
            &&& b == (FusePermissions { transactions: b.transactions, ..before })
            &&& c.report.mode == mode
            &&& c == (FusePermissions { report: c.report, ..before })
            &&& d.coils.mode == mode
            &&& d == (FusePermissions { coils: d.coils, ..before })
        }),
{
}

} // verus!
