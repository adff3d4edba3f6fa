//! Finding the files of the file system by inode and by name, and what each
//! of them holds.

use crate::device_description::{
    AccessRight, CoilDescription, DiscreteInputDescription, FileRecordDescription,
    InputRegisterDescription, RegisterDescription,
};
use crate::filesystem::{
    position_named, FileAttr, FileType, InfusedFilesystem, Owner, WriteMode, FIRST_REGISTER_INO,
    HOLDING_REGISTERS_INO,
};
use crate::inode::INodeNo;
use crate::permissions::DirectoryPermissions;
use crate::text;
use vstd::prelude::*;

verus! {

broadcast use vstd::std_specs::hash::group_hash_axioms;

/// The position of `ino` among `count` files numbered from `first` on.
fn index_of(ino: INodeNo, first: u64, count: usize) -> (index: Option<usize>)
    ensures
        index is Some <==> InfusedFilesystem::in_range(ino, first as int, count as nat),
        index matches Some(i) ==> i == ino.0 - first && i < count,
{
    match ino.0.checked_sub(first) {
        Some(index) => if index < count as u64 {
            Some(index as usize)
        } else {
            None
        },
        None => None,
    }
}

impl InfusedFilesystem {
    /// The first inode of the files in `report/`.
    pub fn first_report_ino(&self) -> (ino: u64)
        requires
            self.wf(),
        ensures
            ino == self.report_ino.0 + 1,
    {
        self.report_ino.0 + 1
    }

    /// The first inode of the files of coils in `report/`.
    pub fn first_coil_report_ino(&self) -> (ino: u64)
        requires
            self.wf(),
        ensures
            ino == self.report_ino.0 + 1 + self.registers@.len(),
    {
        self.first_report_ino() + self.registers.len() as u64
    }

    /// The first inode of the files in `coils/`.
    pub fn first_coil_ino(&self) -> (ino: u64)
        requires
            self.wf(),
        ensures
            ino == self.coils_ino.0 + 1,
    {
        self.coils_ino.0 + 1
    }

    /// The first inode of the files in `discrete-inputs/`.
    pub fn first_discrete_input_ino(&self) -> (ino: u64)
        requires
            self.wf(),
        ensures
            ino == self.discrete_inputs_ino.0 + 1,
    {
        self.discrete_inputs_ino.0 + 1
    }

    /// The first inode of the files in `input-registers/`.
    pub fn first_input_register_ino(&self) -> (ino: u64)
        requires
            self.wf(),
        ensures
            ino == self.input_registers_ino.0 + 1,
    {
        self.input_registers_ino.0 + 1
    }

    /// The first inode of the directories in `file-records/`.
    pub fn first_file_number_ino(&self) -> (ino: u64)
        requires
            self.wf(),
        ensures
            ino == self.file_records_ino.0 + 1,
    {
        self.file_records_ino.0 + 1
    }

    /// The first inode of the files of file records.
    pub fn first_file_record_ino(&self) -> (ino: u64)
        requires
            self.wf(),
        ensures
            ino == self.first_record_ino(),
    {
        self.first_file_number_ino() + self.unique_file_numbers.len() as u64
    }

    /// The register whose file has the inode `ino`.
    pub fn register_by_ino(&self, ino: INodeNo) -> (register: Option<&RegisterDescription>)
        ensures
            register is Some <==> Self::in_range(
                ino,
                FIRST_REGISTER_INO as int,
                self.registers@.len(),
            ),
            register matches Some(r) ==> *r == self.registers@[ino.0 - FIRST_REGISTER_INO],
    {
        match index_of(ino, FIRST_REGISTER_INO, self.registers.len()) {
            Some(index) => Some(&self.registers[index]),
            None => None,
        }
    }

    /// The coil whose file has the inode `ino`.
    pub fn coil_by_ino(&self, ino: INodeNo) -> (coil: Option<&CoilDescription>)
        requires
            self.wf(),
        ensures
            coil is Some <==> Self::in_range(ino, self.coils_ino.0 + 1, self.coils@.len()),
            coil matches Some(c) ==> *c == self.coils@[ino.0 - (self.coils_ino.0 + 1)],
    {
        match index_of(ino, self.first_coil_ino(), self.coils.len()) {
            Some(index) => Some(&self.coils[index]),
            None => None,
        }
    }

    /// The discrete input whose file has the inode `ino`.
    pub fn discrete_input_by_ino(&self, ino: INodeNo) -> (input: Option<&DiscreteInputDescription>)
        requires
            self.wf(),
        ensures
            input is Some <==> Self::in_range(
                ino,
                self.discrete_inputs_ino.0 + 1,
                self.discrete_inputs@.len(),
            ),
            input matches Some(d) ==> *d == self.discrete_inputs@[ino.0 - (
            self.discrete_inputs_ino.0 + 1)],
    {
        match index_of(ino, self.first_discrete_input_ino(), self.discrete_inputs.len()) {
            Some(index) => Some(&self.discrete_inputs[index]),
            None => None,
        }
    }

    /// The input register whose file has the inode `ino`.
    pub fn input_register_by_ino(&self, ino: INodeNo) -> (register: Option<
        &InputRegisterDescription,
    >)
        requires
            self.wf(),
        ensures
            register is Some <==> Self::in_range(
                ino,
                self.input_registers_ino.0 + 1,
                self.input_registers@.len(),
            ),
            register matches Some(r) ==> *r == self.input_registers@[ino.0 - (
            self.input_registers_ino.0 + 1)],
    {
        match index_of(ino, self.first_input_register_ino(), self.input_registers.len()) {
            Some(index) => Some(&self.input_registers[index]),
            None => None,
        }
    }

    /// The file number whose directory has the inode `ino`.
    pub fn file_number_by_ino(&self, ino: INodeNo) -> (number: Option<u16>)
        requires
            self.wf(),
        ensures
            number is Some <==> Self::in_range(
                ino,
                self.file_records_ino.0 + 1,
                self.unique_file_numbers@.len(),
            ),
            number matches Some(n) ==> n == self.unique_file_numbers@[ino.0 - (
            self.file_records_ino.0 + 1)],
    {
        match index_of(ino, self.first_file_number_ino(), self.unique_file_numbers.len()) {
            Some(index) => Some(self.unique_file_numbers[index]),
            None => None,
        }
    }

    /// The file record whose file has the inode `ino`.
    pub fn file_record_by_ino(&self, ino: INodeNo) -> (record: Option<&FileRecordDescription>)
        requires
            self.wf(),
        ensures
            record is Some <==> Self::in_range(
                ino,
                self.first_record_ino(),
                self.file_records@.len(),
            ),
            record matches Some(r) ==> *r == self.file_records@[ino.0 - self.first_record_ino()],
    {
        match index_of(ino, self.first_file_record_ino(), self.file_records.len()) {
            Some(index) => Some(&self.file_records[index]),
            None => None,
        }
    }

    /// The first file record with these numbers, and the inode of its file.
    pub fn file_record_by_numbers(&self, file_number: u16, record_number: u16) -> (found: Option<
        (INodeNo, &FileRecordDescription),
    >)
        requires
            self.wf(),
        ensures
            found matches Some((ino, record)) ==> {
                &&& self.first_record_ino() <= ino.0
                &&& crate::filesystem::is_first_record(
                    self.file_records@,
                    ino.0 - self.first_record_ino(),
                    file_number,
                    record_number,
                )
                &&& *record == self.file_records@[ino.0 - self.first_record_ino()]
            },
            found is None ==> forall|i: int|
                0 <= i < self.file_records@.len() ==> (#[trigger] self.file_records@[i]).file_number
                    != file_number || self.file_records@[i].record_number != record_number,
    {
        let mut i: usize = 0;
        while i < self.file_records.len()
            invariant
                self.wf(),
                i <= self.file_records@.len(),
                forall|j: int|
                    0 <= j < i ==> (#[trigger] self.file_records@[j]).file_number != file_number
                        || self.file_records@[j].record_number != record_number,
            decreases self.file_records@.len() - i,
        {
            let record = &self.file_records[i];
            if record.file_number == file_number && record.record_number == record_number {
                return Some((INodeNo(self.first_file_record_ino() + i as u64), record));
            }
            i = i + 1;
        }
        None
    }

    /// The register whose file in `report/` has the inode `ino`.
    pub fn report_register_by_ino(&self, ino: INodeNo) -> (register: Option<&RegisterDescription>)
        requires
            self.wf(),
        ensures
            register is Some <==> Self::in_range(
                ino,
                self.report_ino.0 + 1,
                self.registers@.len(),
            ),
            register matches Some(r) ==> *r == self.registers@[ino.0 - (self.report_ino.0 + 1)],
    {
        match index_of(ino, self.first_report_ino(), self.registers.len()) {
            Some(index) => Some(&self.registers[index]),
            None => None,
        }
    }

    /// The coil whose file in `report/` has the inode `ino`.
    pub fn report_coil_by_ino(&self, ino: INodeNo) -> (coil: Option<&CoilDescription>)
        requires
            self.wf(),
        ensures
            coil is Some <==> Self::in_range(
                ino,
                self.report_ino.0 + 1 + self.registers@.len(),
                self.coils@.len(),
            ),
            coil matches Some(c) ==> *c == self.coils@[ino.0 - (self.report_ino.0 + 1
                + self.registers@.len())],
    {
        match index_of(ino, self.first_coil_report_ino(), self.coils.len()) {
            Some(index) => Some(&self.coils[index]),
            None => None,
        }
    }

    /// The first register with the name `name`.
    pub fn register_by_name(&self, name: &str) -> (register: Option<&RegisterDescription>)
        ensures
            register is Some <==> crate::filesystem::first_named(self.registers@, name@) is Some,
            register matches Some(r) ==> *r == self.registers@[crate::filesystem::first_named(
                self.registers@,
                name@,
            )->0] && r.name@ == name@,
    {
        match position_named(&self.registers, name) {
            Some(index) => Some(&self.registers[index]),
            None => None,
        }
    }

    /// The first coil with the name `name`.
    pub fn coil_by_name(&self, name: &str) -> (coil: Option<&CoilDescription>)
        ensures
            coil is Some <==> crate::filesystem::first_named(self.coils@, name@) is Some,
            coil matches Some(c) ==> *c == self.coils@[crate::filesystem::first_named(
                self.coils@,
                name@,
            )->0] && c.name@ == name@,
    {
        match position_named(&self.coils, name) {
            Some(index) => Some(&self.coils[index]),
            None => None,
        }
    }

    /// Whether `transactions/` exists.
    pub fn transactions_enabled(&self) -> (enabled: bool)
        ensures
            enabled == (self.write_mode == WriteMode::Staged),
    {
        self.write_mode == WriteMode::Staged
    }

    /// The name of the staged file with the inode `ino`.
    pub fn transaction_name_by_ino(&self, ino: INodeNo) -> (name: Option<String>)
        ensures
            name is Some <==> self.transactions.ino_to_name@.dom().contains(ino.0),
            name matches Some(n) ==> n@ == self.transactions.ino_to_name@[ino.0]@,
    {
        match self.transactions.ino_to_name.get(&ino.0) {
            Some(name) => Some(name.clone()),
            None => None,
        }
    }

    /// The configured permissions that hold for `ino`: those of the directory
    /// it is or lies in.
    pub fn permissions_for(&self, ino: INodeNo) -> (permissions: Option<DirectoryPermissions>)
        requires
            self.wf(),
        ensures
            permissions == self.configured(ino),
    {
        if ino.0 == HOLDING_REGISTERS_INO || self.register_by_ino(ino).is_some() {
            Some(self.permissions.holding_registers)
        } else if ino == self.coils_ino || self.coil_by_ino(ino).is_some() {
            Some(self.permissions.coils)
        } else if self.transactions_enabled() && (ino == self.transactions_ino
            || self.transaction_name_by_ino(ino).is_some()) {
            Some(self.permissions.transactions)
        } else if ino == self.report_ino || self.report_register_by_ino(ino).is_some()
            || self.report_coil_by_ino(ino).is_some() {
            Some(self.permissions.report)
        } else {
            None
        }
    }

    /// The mode and owner that `client-trust/` has whatever is configured.
    pub fn client_trust_root_attr_override(&self, ino: INodeNo) -> (attributes: Option<
        (u16, u32, u32),
    >)
        ensures
            attributes == (if self.client_trust is Some && ino == self.client_trust_ino {
                Some((0o700u16, self.process.uid, self.process.gid))
            } else {
                None
            }),
    {
        if self.client_trust.is_some() && ino == self.client_trust_ino {
            Some((0o700, self.process.uid, self.process.gid))
        } else {
            None
        }
    }

    /// The mode of the files of coils, discrete inputs, input registers and
    /// file records.
    pub fn writable_data_file_mode(&self) -> (mode: u16)
        ensures
            mode == self.data_mode(),
    {
        match self.write_mode {
            WriteMode::Direct => 0o644,
            WriteMode::Staged => 0o444,
        }
    }

    /// The mode of the file of `register`.
    pub fn register_file_mode(&self, register: &RegisterDescription) -> (mode: u16)
        ensures
            mode == self.register_mode(*register),
    {
        match (self.write_mode, register.access) {
            (WriteMode::Direct, AccessRight::ReadWrite) => 0o644,
            _ => 0o444,
        }
    }

    /// Whether the file with the inode `ino` takes writes directly.
    pub fn direct_writable_by_ino(&self, ino: INodeNo) -> (writable: bool)
        requires
            self.wf(),
        ensures
            writable == self.takes_direct_writes(ino),
    {
        if self.write_mode != WriteMode::Direct {
            return false;
        }
        if let Some(register) = self.register_by_ino(ino) {
            return register.access == AccessRight::ReadWrite;
        }
        self.coil_by_ino(ino).is_some() || self.discrete_input_by_ino(ino).is_some()
            || self.input_register_by_ino(ino).is_some() || self.file_record_by_ino(ino).is_some()
    }

    /// The content of the file of `register`.
    pub fn register_content(&self, register: &RegisterDescription) -> (content: String)
        ensures
            content@ == crate::filesystem::register_line(self.store@, register.name@),
    {
        match self.store.get(register.name.as_str()) {
            Some(value) => {
                let mut content = value.to_string();
                content.push('\n');
                content
            },
            None => String::new(),
        }
    }

    /// The content of the file of `coil`.
    pub fn coil_content(&self, coil: &CoilDescription) -> (content: String)
        ensures
            content@ == crate::filesystem::coil_line(self.coil_store@, coil.name@),
    {
        match self.coil_store.get(coil.name.as_str()) {
            Some(value) => {
                let mut content = value.to_string();
                content.push('\n');
                content
            },
            None => String::new(),
        }
    }

    /// The content of the file of `input`.
    pub fn discrete_input_content(&self, input: &DiscreteInputDescription) -> (content: String)
        ensures
            content@ == crate::filesystem::coil_line(self.discrete_input_store@, input.name@),
    {
        match self.discrete_input_store.get(input.name.as_str()) {
            Some(value) => {
                let mut content = value.to_string();
                content.push('\n');
                content
            },
            None => String::new(),
        }
    }

    /// The content of the file of the input register `register`.
    pub fn input_register_content(&self, register: &InputRegisterDescription) -> (content: String)
        ensures
            content@ == crate::filesystem::register_line(
                self.input_register_store@,
                register.name@,
            ),
    {
        match self.input_register_store.get(register.name.as_str()) {
            Some(value) => {
                let mut content = value.to_string();
                content.push('\n');
                content
            },
            None => String::new(),
        }
    }

    /// The content of the file of a file record: its bytes in hexadecimal,
    /// zeros while nothing was written.
    pub fn file_record_content(&self, record: &FileRecordDescription) -> (content: String)
        ensures
            content@ == crate::parsing::hex_dump(
                crate::filesystem::record_bytes(self.file_record_store@, *record),
            ).push('\n'),
    {
        match self.file_record_store.get(record.file_number, record.record_number) {
            Some(bytes) => Self::format_file_record_hex(bytes.as_slice()),
            None => {
                let mut zeros: Vec<u8> = Vec::new();
                let count: u32 = record.record_length as u32 * 2;
                let mut i: u32 = 0;
                while i < count
                    invariant
                        i <= count,
                        zeros@ =~= Seq::new(i as nat, |k: int| 0u8),
                    decreases count - i,
                {
                    zeros.push(0);
                    i = i + 1;
                }
                Self::format_file_record_hex(zeros.as_slice())
            },
        }
    }

    /// The content of the staged file `name`.
    pub fn transaction_content(&self, name: &str) -> (content: String)
        ensures
            content@ == crate::filesystem::staged_line(self.transactions.pending@, name@),
    {
        match self.transactions.pending.get(name) {
            Some(value) => {
                let mut content = value.to_string();
                content.push('\n');
                content
            },
            None => String::new(),
        }
    }

    /// The content of the file `name` in `report/`.
    pub fn report_content(&self, name: &str) -> (content: String)
        ensures
            content@ == crate::filesystem::status_line(self.report@, name@),
    {
        match self.report.get(name) {
            Some(status) => {
                let mut content = status.to_string();
                content.push('\n');
                content
            },
            None => String::new(),
        }
    }

    /// The content of one of the three logs of connection attempts; nothing
    /// for any other inode, and where no clients are trusted.
    pub fn connection_attempts_log_content(&self, ino: INodeNo) -> (content: String)
        requires
            self.wf(),
        ensures
            content@ == (match self.client_trust {
                Some(state) => if ino == self.approved_log_ino {
                    crate::client_trust::joined(state.logs().0)
                } else if ino == self.pending_log_ino {
                    crate::client_trust::joined(state.logs().1)
                } else if ino == self.rejected_log_ino {
                    crate::client_trust::joined(state.logs().2)
                } else {
                    Seq::<char>::empty()
                },
                None => Seq::<char>::empty(),
            }),
    {
        match &self.client_trust {
            Some(state) => {
                if ino == self.approved_log_ino {
                    state.approved_log_content()
                } else if ino == self.pending_log_ino {
                    state.pending_log_content()
                } else if ino == self.rejected_log_ino {
                    state.rejected_log_content()
                } else {
                    String::new()
                }
            },
            None => String::new(),
        }
    }

    /// The content of `server-id`: the name of the server on a line, or
    /// nothing where it has none.
    pub fn server_id_content(&self) -> (content: String)
        ensures
            content@ == (match self.server_id {
                Some(id) => id@.push('\n'),
                None => Seq::<char>::empty(),
            }),
    {
        match &self.server_id {
            Some(id) => {
                let mut content = id.clone();
                content.push('\n');
                content
            },
            None => String::new(),
        }
    }

    /// Who owns `ino`.
    pub fn owner_for(&self, ino: INodeNo, caller: Owner) -> (owner: Owner)
        requires
            self.wf(),
        ensures
            owner == self.owner(ino, caller),
    {
        match self.permissions_for(ino) {
            Some(permissions) => Owner { uid: permissions.uid, gid: permissions.gid },
            None => caller,
        }
    }

    /// The attributes of the directory `ino`.
    pub fn directory_attr(&self, ino: INodeNo, caller: Owner) -> (attr: FileAttr)
        requires
            self.wf(),
        ensures
            attr == self.directory_attributes(ino, caller),
    {
        let (mode, uid, gid) = match self.client_trust_root_attr_override(ino) {
            Some((mode, uid, gid)) => (mode, uid, gid),
            None => {
                let mode: u16 = match self.permissions_for(ino) {
                    Some(permissions) => permissions.mode,
                    None => 0o755,
                };
                let owner = self.owner_for(ino, caller);
                (mode, owner.uid, owner.gid)
            },
        };
        FileAttr {
            ino,
            size: 0,
            blocks: 0,
            kind: FileType::Directory,
            perm: mode,
            nlink: 2,
            uid,
            gid,
            rdev: 0,
            blksize: 512,
            flags: 0,
        }
    }

    /// The attributes of the file `ino`.
    pub fn file_attr(&self, ino: INodeNo, size: u64, perm: u16, caller: Owner) -> (attr: FileAttr)
        requires
            self.wf(),
        ensures
            attr == self.file_attributes(ino, size, perm, caller),
    {
        let owner = self.owner_for(ino, caller);
        FileAttr {
            ino,
            size,
            blocks: 0,
            kind: FileType::RegularFile,
            perm,
            nlink: 1,
            uid: owner.uid,
            gid: owner.gid,
            rdev: 0,
            blksize: 512,
            flags: 0,
        }
    }

    /// The content and mode of the file of a value.
    pub fn data_file(&self, ino: INodeNo) -> (file: Option<(String, u16)>)
        requires
            self.wf(),
        ensures
            file is Some <==> self.data_file_at(ino) is Some,
            file matches Some((content, mode)) ==> {
                &&& content@ == self.content(self.data_file_at(ino)->0)
                &&& mode == self.mode(self.data_file_at(ino)->0)
            },
    {
        if let Some(register) = self.register_by_ino(ino) {
            Some((self.register_content(register), self.register_file_mode(register)))
        } else if let Some(coil) = self.coil_by_ino(ino) {
            Some((self.coil_content(coil), self.writable_data_file_mode()))
        } else if let Some(input) = self.discrete_input_by_ino(ino) {
            Some((self.discrete_input_content(input), self.writable_data_file_mode()))
        } else if let Some(register) = self.input_register_by_ino(ino) {
            Some((self.input_register_content(register), self.writable_data_file_mode()))
        } else if let Some(record) = self.file_record_by_ino(ino) {
            Some((self.file_record_content(record), self.writable_data_file_mode()))
        } else {
            None
        }
    }

    /// The content of the file in `report/` with the inode `ino`.
    pub fn report_file(&self, ino: INodeNo) -> (content: Option<String>)
        requires
            self.wf(),
        ensures
            content is Some <==> self.report_file_at(ino) is Some,
            content matches Some(c) ==> c@ == self.content(self.report_file_at(ino)->0),
    {
        if let Some(register) = self.report_register_by_ino(ino) {
            Some(self.report_content(register.name.as_str()))
        } else if let Some(coil) = self.report_coil_by_ino(ino) {
            Some(self.report_content(coil.name.as_str()))
        } else {
            None
        }
    }

    /// The content of the log or of `server-id`, where it has the inode `ino`.
    pub fn system_file(&self, ino: INodeNo) -> (content: Option<String>)
        requires
            self.wf(),
        ensures
            content is Some <==> self.system_file_at(ino) is Some,
            content matches Some(c) ==> c@ == self.content(self.system_file_at(ino)->0),
    {
        if self.client_trust.is_some() && (ino == self.approved_log_ino || ino
            == self.pending_log_ino || ino == self.rejected_log_ino) {
            Some(self.connection_attempts_log_content(ino))
        } else if self.server_id.is_some() && ino == self.server_id_ino {
            Some(self.server_id_content())
        } else {
            None
        }
    }

    /// The content of the file of the approved fingerprint with the inode
    /// `ino`.
    pub fn fingerprint_file(&self, ino: INodeNo) -> (content: Option<String>)
        ensures
            content is Some <==> self.fingerprint_at(ino) is Some,
            content matches Some(c) ==> c@ == self.content(self.fingerprint_at(ino)->0),
    {
        match &self.client_trust {
            Some(state) => match state.fingerprint_by_ino(ino) {
                Some(fingerprint) => {
                    let mut content = text::copy(fingerprint);
                    content.push('\n');
                    Some(content)
                },
                None => None,
            },
            None => None,
        }
    }

    /// The content of the staged file with the inode `ino`.
    pub fn transaction_file(&self, ino: INodeNo) -> (content: Option<String>)
        ensures
            content is Some <==> self.transaction_at(ino) is Some,
            content matches Some(c) ==> c@ == self.content(self.transaction_at(ino)->0),
    {
        match self.transaction_name_by_ino(ino) {
            Some(name) => Some(self.transaction_content(name.as_str())),
            None => None,
        }
    }
}

} // verus!
