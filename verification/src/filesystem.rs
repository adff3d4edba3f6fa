//! The file system that shows a device: which directories and files there are,
//! their inodes, contents, modes and owners.

use crate::client_trust::{self, ClientTrustState};
use crate::device_description::{
    AccessRight, CoilDescription, DiscreteInputDescription, FileRecordDescription,
    InputRegisterDescription, RegisterDescription,
};
use crate::inode::INodeNo;
use crate::parsing;
use crate::permissions::{DirectoryPermissions, FusePermissions};
use crate::stores::{
    CoilStore, DiscreteInputStore, FileRecordStore, InputRegisterStore, PendingTransaction,
    RegisterStore, WriteReport,
};
use crate::table::NameTable;
use crate::text;
use crate::values::{CoilValue, RegisterValue, StagedValue, WriteStatus};
use std::collections::{HashMap, HashSet};
use vstd::prelude::*;

verus! {

broadcast use vstd::std_specs::hash::group_hash_axioms;

/// The inode of the root directory.
pub const ROOT_INO: u64 = 1;

/// The inode of the directory of the holding registers.
pub const HOLDING_REGISTERS_INO: u64 = 2;

/// The inode of the file of the first holding register.
pub const FIRST_REGISTER_INO: u64 = 3;

/// How values are written: staged in `transactions/` and sent to a device, as
/// a client does, or straight into the files of the values, as a server does.
#[derive(Debug, Clone, Copy, PartialEq, Eq, Structural)]
pub enum WriteMode {
    Staged,
    Direct,
}

/// What an entry of a directory is.
#[derive(Debug, Clone, Copy, PartialEq, Eq, Structural)]
pub enum FileType {
    Directory,
    RegularFile,
}

/// Why a request is refused.
#[derive(Debug, Clone, Copy, PartialEq, Eq, Structural)]
pub enum Errno {
    ENOENT,
    EPERM,
    ENOTDIR,
}

/// A user and a group.
#[derive(Debug, Clone, Copy, PartialEq, Eq, Structural)]
pub struct Owner {
    pub uid: u32,
    pub gid: u32,
}

/// The attributes of a directory or file, but for its times.
#[derive(Debug, Clone, Copy, PartialEq, Eq, Structural)]
pub struct FileAttr {
    pub ino: INodeNo,
    pub size: u64,
    pub blocks: u64,
    pub kind: FileType,
    pub perm: u16,
    pub nlink: u32,
    pub uid: u32,
    pub gid: u32,
    pub rdev: u32,
    pub blksize: u32,
    pub flags: u32,
}

/// Something with a name.
pub trait Named {
    /// The name.
    spec fn label(&self) -> Seq<char>;

    /// The name.
    fn name(&self) -> (name: &str)
        ensures
            name@ == self.label(),
    ;
}

impl Named for RegisterDescription {
    open spec fn label(&self) -> Seq<char> {
        self.name@
    }

    fn name(&self) -> &str {
        self.name.as_str()
    }
}

impl Named for CoilDescription {
    open spec fn label(&self) -> Seq<char> {
        self.name@
    }

    fn name(&self) -> &str {
        self.name.as_str()
    }
}

impl Named for DiscreteInputDescription {
    open spec fn label(&self) -> Seq<char> {
        self.name@
    }

    fn name(&self) -> &str {
        self.name.as_str()
    }
}

impl Named for InputRegisterDescription {
    open spec fn label(&self) -> Seq<char> {
        self.name@
    }

    fn name(&self) -> &str {
        self.name.as_str()
    }
}

/// The inode of each name where the files of `items` are numbered from `first`
/// on; of a name that stands twice, that of its last file.
pub open spec fn inode_map<T: Named>(items: Seq<T>, first: int) -> Map<Seq<char>, INodeNo>
    decreases items.len(),
{
    if items.len() == 0 {
        Map::empty()
    } else {
        inode_map(items.drop_last(), first).insert(
            items.last().label(),
            INodeNo((first + items.len() - 1) as u64),
        )
    }
}

/// The first of `items` with the name `name`.
pub open spec fn first_named<T: Named>(items: Seq<T>, name: Seq<char>) -> Option<int>
    decreases items.len(),
{
    if items.len() == 0 {
        None
    } else {
        match first_named(items.drop_last(), name) {
            Some(i) => Some(i),
            None => if items.last().label() == name {
                Some(items.len() - 1)
            } else {
                None
            },
        }
    }
}

/// Numbers the files of `items` from `first` on.
fn number_files<T: Named>(items: &Vec<T>, first: u64) -> (inodes: NameTable<INodeNo>)
    requires
        first + items@.len() <= u64::MAX,
    ensures
        inodes@ == inode_map(items@, first as int),
{
    let mut inodes: NameTable<INodeNo> = NameTable::new();
    let mut i: usize = 0;
    while i < items.len()
        invariant
            first + items@.len() <= u64::MAX,
            i <= items@.len(),
            inodes@ == inode_map(items@.take(i as int), first as int),
        decreases items@.len() - i,
    {
        assert(items@.take(i + 1).drop_last() =~= items@.take(i as int));
        inodes.set(text::copy(items[i].name()), INodeNo(first + i as u64));
        i = i + 1;
    }
    assert(items@.take(items@.len() as int) =~= items@);
    inodes
}

/// The position of the first of `items` with the name `name`.
pub fn position_named<T: Named>(items: &[T], name: &str) -> (found: Option<usize>)
    ensures
        found is Some <==> first_named(items@, name@) is Some,
        found matches Some(i) ==> first_named(items@, name@) == Some(i as int) && i < items@.len()
            && items@[i as int].label() == name@,
{
    let mut i: usize = 0;
    while i < items.len()
        invariant
            i <= items@.len(),
            first_named(items@.take(i as int), name@) is None,
        decreases items@.len() - i,
    {
        assert(items@.take(i + 1).drop_last() =~= items@.take(i as int));
        if text::same_text(items[i].name(), name) {
            proof {
                lemma_first_named_prefix(items@, i + 1, name@);
            }
            return Some(i);
        }
        i = i + 1;
    }
    assert(items@.take(items@.len() as int) =~= items@);
    None
}

/// What is found in the first items is found in all of them.
proof fn lemma_first_named_prefix<T: Named>(items: Seq<T>, n: int, name: Seq<char>)
    requires
        0 <= n <= items.len(),
        first_named(items.take(n), name) is Some,
    ensures
        first_named(items, name) == first_named(items.take(n), name),
    decreases items.len(),
{
    if n == items.len() {
        assert(items.take(n) =~= items);
    } else {
        assert(items.drop_last().take(n) =~= items.take(n));
        lemma_first_named_prefix(items.drop_last(), n, name);
    }
}

/// The file numbers of `records`, each once, in the order in which they first
/// come.
pub open spec fn file_numbers(records: Seq<FileRecordDescription>) -> Seq<u16>
    decreases records.len(),
{
    if records.len() == 0 {
        Seq::empty()
    } else {
        let before = file_numbers(records.drop_last());
        if before.contains(records.last().file_number) {
            before
        } else {
            before.push(records.last().file_number)
        }
    }
}

/// Whether no number stands twice.
pub open spec fn distinct_numbers(numbers: Seq<u16>) -> bool {
    forall|i: int, j: int| 0 <= i < j < numbers.len() ==> numbers[i] != numbers[j]
}

/// No file number stands twice.
pub proof fn lemma_file_numbers_distinct(records: Seq<FileRecordDescription>)
    ensures
        distinct_numbers(file_numbers(records)),
        file_numbers(records).len() <= records.len(),
        forall|k: int|
            0 <= k < records.len() ==> file_numbers(records).contains(
                (#[trigger] records[k]).file_number,
            ),
    decreases records.len(),
{
    if records.len() > 0 {
        let rest = records.drop_last();
        lemma_file_numbers_distinct(rest);
        let before = file_numbers(rest);
        let all = file_numbers(records);
        assert forall|k: int| 0 <= k < records.len() implies all.contains(
            (#[trigger] records[k]).file_number,
        ) by {
            if k < rest.len() {
                assert(rest[k] == records[k]);
                let at = choose|at: int| 0 <= at < before.len() && before[at]
                    == rest[k].file_number;
                assert(all[at] == records[k].file_number);
            } else if !before.contains(records.last().file_number) {
                assert(all[before.len() as int] == records.last().file_number);
            }
        }
    }
}

/// The position of `number` in `numbers`.
pub fn position_of_number(numbers: &Vec<u16>, number: u16) -> (found: Option<usize>)
    ensures
        found is Some <==> numbers@.contains(number),
        found matches Some(i) ==> i < numbers@.len() && numbers@[i as int] == number,
{
    let mut i: usize = 0;
    while i < numbers.len()
        invariant
            i <= numbers@.len(),
            forall|k: int| 0 <= k < i ==> numbers@[k] != number,
        decreases numbers@.len() - i,
    {
        if numbers[i] == number {
            return Some(i);
        }
        i = i + 1;
    }
    None
}

/// Whether record `i` is the first with these numbers.
pub open spec fn is_first_record(
    records: Seq<FileRecordDescription>,
    i: int,
    file_number: u16,
    record_number: u16,
) -> bool {
    &&& 0 <= i < records.len()
    &&& records[i].file_number == file_number
    &&& records[i].record_number == record_number
    &&& forall|j: int|
        0 <= j < i ==> (#[trigger] records[j]).file_number != file_number
            || records[j].record_number != record_number
}

/// The files that users have made in `transactions/`, what has been written
/// into open files, and the writes staged so far.
#[derive(Debug)]
pub struct TransactionFsState {
    pub pending: PendingTransaction,
    pub name_to_ino: NameTable<INodeNo>,
    pub ino_to_name: HashMap<u64, String>,
    pub buffers: HashMap<u64, Vec<u8>>,
    pub next_ino: u64,
    pub last_transaction_end_inos: HashSet<u64>,
}

impl TransactionFsState {
    /// Whether the names and the inodes match up, every inode in use was given
    /// out already, those of files are at least `first`, and values are staged
    /// for files only.
    pub open spec fn consistent(self, first: int) -> bool {
        &&& first <= self.next_ino
        &&& forall|name: Seq<char>| #[trigger]
            self.name_to_ino@.dom().contains(name) ==> {
                &&& first <= self.name_to_ino@[name].0 < self.next_ino
                &&& self.ino_to_name@.dom().contains(self.name_to_ino@[name].0)
                &&& self.ino_to_name@[self.name_to_ino@[name].0]@ == name
            }
        &&& forall|ino: u64| #[trigger]
            self.ino_to_name@.dom().contains(ino) ==> {
                &&& self.name_to_ino@.dom().contains(self.ino_to_name@[ino]@)
                &&& self.name_to_ino@[self.ino_to_name@[ino]@] == INodeNo(ino)
            }
        &&& forall|ino: u64| #[trigger]
            self.last_transaction_end_inos@.contains(ino) ==> {
                &&& first <= ino < self.next_ino
                &&& !self.ino_to_name@.dom().contains(ino)
            }
        &&& forall|ino: u64| #[trigger]
            self.buffers@.dom().contains(ino) ==> ino < self.next_ino
        &&& forall|name: Seq<char>| #[trigger]
            self.pending@.dom().contains(name) ==> self.name_to_ino@.dom().contains(name)
    }
}

/// A device as a tree of files. A directory holds one file per register, coil,
/// discrete input and input register, and one directory per file number; a
/// client has `transactions/`, where a file made under the name of a register
/// or coil stages a write; `report/` says how the last write to each register
/// and coil went; a server that trusts clients has `client-trust/`.
#[derive(Debug)]
pub struct InfusedFilesystem {
    pub registers: Vec<RegisterDescription>,
    pub name_to_ino: NameTable<INodeNo>,
    pub store: RegisterStore,
    pub coils: Vec<CoilDescription>,
    pub coil_name_to_ino: NameTable<INodeNo>,
    pub coil_store: CoilStore,
    pub coils_ino: INodeNo,
    pub discrete_inputs: Vec<DiscreteInputDescription>,
    pub discrete_input_name_to_ino: NameTable<INodeNo>,
    pub discrete_input_store: DiscreteInputStore,
    pub discrete_inputs_ino: INodeNo,
    pub input_registers: Vec<InputRegisterDescription>,
    pub input_register_name_to_ino: NameTable<INodeNo>,
    pub input_register_store: InputRegisterStore,
    pub input_registers_ino: INodeNo,
    pub transactions_ino: INodeNo,
    pub transactions: TransactionFsState,
    pub report_ino: INodeNo,
    pub report: WriteReport,
    pub client_trust: Option<ClientTrustState>,
    pub client_trust_ino: INodeNo,
    pub client_trust_approved_ino: INodeNo,
    pub connection_attempts_ino: INodeNo,
    pub approved_log_ino: INodeNo,
    pub pending_log_ino: INodeNo,
    pub rejected_log_ino: INodeNo,
    pub server_id: Option<String>,
    pub server_id_ino: INodeNo,
    pub file_records: Vec<FileRecordDescription>,
    pub file_record_store: FileRecordStore,
    pub file_records_ino: INodeNo,
    pub unique_file_numbers: Vec<u16>,
    pub permissions: FusePermissions,
    pub write_mode: WriteMode,
    pub process: Owner,
}

/// A directory or file of the tree. Those of which there are several are told
/// apart by their position, or by their name where users make them.
pub ghost enum Node {
    Root,
    HoldingRegisters,
    Coils,
    DiscreteInputs,
    InputRegisters,
    Transactions,
    Report,
    ClientTrust,
    Approved,
    ConnectionAttempts,
    FileRecords,
    FileNumber(int),
    Register(int),
    Coil(int),
    DiscreteInput(int),
    InputRegister(int),
    FileRecord(int),
    ReportRegister(int),
    ReportCoil(int),
    ApprovedLog,
    PendingLog,
    RejectedLog,
    ServerId,
    Transaction(Seq<char>),
    Fingerprint(Seq<char>),
}

impl Node {
    /// Whether the node is a directory.
    pub open spec fn is_directory(self) -> bool {
        match self {
            Node::Root | Node::HoldingRegisters | Node::Coils | Node::DiscreteInputs
            | Node::InputRegisters | Node::Transactions | Node::Report | Node::ClientTrust
            | Node::Approved | Node::ConnectionAttempts | Node::FileRecords
            | Node::FileNumber(_) => true,
            _ => false,
        }
    }
}

/// The content of the file of a register, or nothing while it has no value.
pub open spec fn register_line(
    values: Map<Seq<char>, RegisterValue>,
    name: Seq<char>,
) -> Seq<char> {
    if values.dom().contains(name) {
        values[name].text().push('\n')
    } else {
        Seq::empty()
    }
}

/// The content of the file of a coil, or nothing while it has no value.
pub open spec fn coil_line(values: Map<Seq<char>, CoilValue>, name: Seq<char>) -> Seq<char> {
    if values.dom().contains(name) {
        values[name].text().push('\n')
    } else {
        Seq::empty()
    }
}

/// The content of a file in `report/`, or nothing before the first write.
pub open spec fn status_line(
    statuses: Map<Seq<char>, WriteStatus>,
    name: Seq<char>,
) -> Seq<char> {
    if statuses.dom().contains(name) {
        statuses[name].text().push('\n')
    } else {
        Seq::empty()
    }
}

/// The content of a file in `transactions/`, or nothing while nothing is
/// staged for it.
pub open spec fn staged_line(staged: Map<Seq<char>, StagedValue>, name: Seq<char>) -> Seq<char> {
    if staged.dom().contains(name) {
        staged[name]@.text().push('\n')
    } else {
        Seq::empty()
    }
}

/// The bytes of a file record: those last written, or zeros.
pub open spec fn record_bytes(
    records: Map<(u16, u16), Seq<u8>>,
    record: FileRecordDescription,
) -> Seq<u8> {
    if records.dom().contains((record.file_number, record.record_number)) {
        records[(record.file_number, record.record_number)]
    } else {
        Seq::new(2 * record.record_length as nat, |i: int| 0u8)
    }
}

impl InfusedFilesystem {
    /// The first inode that no fixed directory or file has.
    pub open spec fn fixed_end(self) -> int {
        self.file_records_ino.0 + 1 + self.unique_file_numbers@.len() + self.file_records@.len()
    }

    /// Whether the inodes are laid out one behind the other, and each name
    /// has the inode of its file.
    pub open spec fn wf(self) -> bool {
        &&& self.coils_ino.0 == FIRST_REGISTER_INO + self.registers@.len()
        &&& self.discrete_inputs_ino.0 == self.coils_ino.0 + 1 + self.coils@.len()
        &&& self.input_registers_ino.0 == self.discrete_inputs_ino.0 + 1
            + self.discrete_inputs@.len()
        &&& self.transactions_ino.0 == self.input_registers_ino.0 + 1
            + self.input_registers@.len()
        &&& self.report_ino.0 == self.transactions_ino.0 + 1
        &&& self.client_trust_ino.0 == self.report_ino.0 + 1 + self.registers@.len()
            + self.coils@.len()
        &&& self.client_trust_approved_ino.0 == self.client_trust_ino.0 + 1
        &&& self.connection_attempts_ino.0 == self.client_trust_approved_ino.0 + 1
        &&& self.approved_log_ino.0 == self.connection_attempts_ino.0 + 1
        &&& self.pending_log_ino.0 == self.approved_log_ino.0 + 1
        &&& self.rejected_log_ino.0 == self.pending_log_ino.0 + 1
        &&& self.server_id_ino.0 == self.rejected_log_ino.0 + 1
        &&& self.file_records_ino.0 == self.server_id_ino.0 + 1
        &&& self.unique_file_numbers@ == file_numbers(self.file_records@)
        &&& self.fixed_end() <= u64::MAX
        &&& self.name_to_ino@ == inode_map(self.registers@, FIRST_REGISTER_INO as int)
        &&& self.coil_name_to_ino@ == inode_map(self.coils@, self.coils_ino.0 + 1)
        &&& self.discrete_input_name_to_ino@ == inode_map(
            self.discrete_inputs@,
            self.discrete_inputs_ino.0 + 1,
        )
        &&& self.input_register_name_to_ino@ == inode_map(
            self.input_registers@,
            self.input_registers_ino.0 + 1,
        )
    }

    /// Whether the approved clients are in order: their fingerprints and inodes match
    /// up, and the inodes lie behind the fixed ones.
    pub open spec fn clients_in_order(self) -> bool {
        &&& self.wf()
        &&& self.client_trust matches Some(state) ==> {
            &&& state.consistent()
            &&& self.fixed_end() <= state.next()
            &&& forall|ino: u64| #[trigger]
                state.fingerprints().dom().contains(ino) ==> self.fixed_end() <= ino
        }
    }

    /// Whether the inodes that were given out to staged files and to approved
    /// clients are in order: they lie behind the fixed ones, and no inode was
    /// given out to both.
    pub open spec fn in_order(self) -> bool {
        &&& self.clients_in_order()
        &&& self.transactions.consistent(self.fixed_end())
        &&& self.transactions.name_to_ino.wf()
        &&& self.client_trust matches Some(state) ==> forall|ino: u64| #[trigger]
            state.fingerprints().dom().contains(ino)
                ==> !self.transactions.ino_to_name@.dom().contains(ino)
    }

    /// Whether the two differ at most in `transactions/` and what is written
    /// into open files.
    pub open spec fn same_but_transactions(self, other: Self) -> bool {
        &&& self.registers == other.registers
        &&& self.name_to_ino == other.name_to_ino
        &&& self.store == other.store
        &&& self.coils == other.coils
        &&& self.coil_name_to_ino == other.coil_name_to_ino
        &&& self.coil_store == other.coil_store
        &&& self.coils_ino == other.coils_ino
        &&& self.discrete_inputs == other.discrete_inputs
        &&& self.discrete_input_name_to_ino == other.discrete_input_name_to_ino
        &&& self.discrete_input_store == other.discrete_input_store
        &&& self.discrete_inputs_ino == other.discrete_inputs_ino
        &&& self.input_registers == other.input_registers
        &&& self.input_register_name_to_ino == other.input_register_name_to_ino
        &&& self.input_register_store == other.input_register_store
        &&& self.input_registers_ino == other.input_registers_ino
        &&& self.transactions_ino == other.transactions_ino
        &&& self.report_ino == other.report_ino
        &&& self.report == other.report
        &&& self.client_trust == other.client_trust
        &&& self.client_trust_ino == other.client_trust_ino
        &&& self.client_trust_approved_ino == other.client_trust_approved_ino
        &&& self.connection_attempts_ino == other.connection_attempts_ino
        &&& self.approved_log_ino == other.approved_log_ino
        &&& self.pending_log_ino == other.pending_log_ino
        &&& self.rejected_log_ino == other.rejected_log_ino
        &&& self.server_id == other.server_id
        &&& self.server_id_ino == other.server_id_ino
        &&& self.file_records == other.file_records
        &&& self.file_record_store == other.file_record_store
        &&& self.file_records_ino == other.file_records_ino
        &&& self.unique_file_numbers == other.unique_file_numbers
        &&& self.permissions == other.permissions
        &&& self.write_mode == other.write_mode
        &&& self.process == other.process
    }

    /// Whether `ino` is the inode of file `i` of `count` files numbered from
    /// `first` on.
    pub open spec fn in_range(ino: INodeNo, first: int, count: nat) -> bool {
        first <= ino.0 < first + count
    }

    /// The directory with the inode `ino`. `client-trust/` exists where
    /// clients are trusted, `transactions/` where writes are staged.
    pub open spec fn directory_at(self, ino: INodeNo) -> Option<Node> {
        if ino.0 == ROOT_INO {
            Some(Node::Root)
        } else if ino.0 == HOLDING_REGISTERS_INO {
            Some(Node::HoldingRegisters)
        } else if ino == self.coils_ino {
            Some(Node::Coils)
        } else if ino == self.discrete_inputs_ino {
            Some(Node::DiscreteInputs)
        } else if ino == self.input_registers_ino {
            Some(Node::InputRegisters)
        } else if ino == self.transactions_ino && self.write_mode == WriteMode::Staged {
            Some(Node::Transactions)
        } else if ino == self.report_ino {
            Some(Node::Report)
        } else if ino == self.client_trust_ino && self.client_trust is Some {
            Some(Node::ClientTrust)
        } else if ino == self.client_trust_approved_ino {
            Some(Node::Approved)
        } else if ino == self.connection_attempts_ino && self.client_trust is Some {
            Some(Node::ConnectionAttempts)
        } else if ino == self.file_records_ino {
            Some(Node::FileRecords)
        } else if Self::in_range(
            ino,
            self.file_records_ino.0 + 1,
            self.unique_file_numbers@.len(),
        ) {
            Some(Node::FileNumber(ino.0 - (self.file_records_ino.0 + 1)))
        } else {
            None
        }
    }

    /// The file of a value with the inode `ino`.
    pub open spec fn data_file_at(self, ino: INodeNo) -> Option<Node> {
        if Self::in_range(ino, FIRST_REGISTER_INO as int, self.registers@.len()) {
            Some(Node::Register(ino.0 - FIRST_REGISTER_INO))
        } else if Self::in_range(ino, self.coils_ino.0 + 1, self.coils@.len()) {
            Some(Node::Coil(ino.0 - (self.coils_ino.0 + 1)))
        } else if Self::in_range(
            ino,
            self.discrete_inputs_ino.0 + 1,
            self.discrete_inputs@.len(),
        ) {
            Some(Node::DiscreteInput(ino.0 - (self.discrete_inputs_ino.0 + 1)))
        } else if Self::in_range(
            ino,
            self.input_registers_ino.0 + 1,
            self.input_registers@.len(),
        ) {
            Some(Node::InputRegister(ino.0 - (self.input_registers_ino.0 + 1)))
        } else if Self::in_range(ino, self.first_record_ino(), self.file_records@.len()) {
            Some(Node::FileRecord(ino.0 - self.first_record_ino()))
        } else {
            None
        }
    }

    /// The file in `report/` with the inode `ino`.
    pub open spec fn report_file_at(self, ino: INodeNo) -> Option<Node> {
        if Self::in_range(ino, self.report_ino.0 + 1, self.registers@.len()) {
            Some(Node::ReportRegister(ino.0 - (self.report_ino.0 + 1)))
        } else if Self::in_range(
            ino,
            self.report_ino.0 + 1 + self.registers@.len(),
            self.coils@.len(),
        ) {
            Some(Node::ReportCoil(ino.0 - (self.report_ino.0 + 1 + self.registers@.len())))
        } else {
            None
        }
    }

    /// The log or the server's name with the inode `ino`.
    pub open spec fn system_file_at(self, ino: INodeNo) -> Option<Node> {
        if self.client_trust is Some && ino == self.approved_log_ino {
            Some(Node::ApprovedLog)
        } else if self.client_trust is Some && ino == self.pending_log_ino {
            Some(Node::PendingLog)
        } else if self.client_trust is Some && ino == self.rejected_log_ino {
            Some(Node::RejectedLog)
        } else if self.server_id is Some && ino == self.server_id_ino {
            Some(Node::ServerId)
        } else {
            None
        }
    }

    /// The staged file with the inode `ino`.
    pub open spec fn transaction_at(self, ino: INodeNo) -> Option<Node> {
        if self.transactions.ino_to_name@.dom().contains(ino.0) {
            Some(Node::Transaction(self.transactions.ino_to_name@[ino.0]@))
        } else {
            None
        }
    }

    /// The file of an approved fingerprint with the inode `ino`.
    pub open spec fn fingerprint_at(self, ino: INodeNo) -> Option<Node> {
        match self.client_trust {
            Some(state) => if state.fingerprints().dom().contains(ino.0) {
                Some(Node::Fingerprint(state.fingerprints()[ino.0]@))
            } else {
                None
            },
            None => None,
        }
    }

    /// The first inode of the files of file records.
    pub open spec fn first_record_ino(self) -> int {
        self.file_records_ino.0 + 1 + self.unique_file_numbers@.len()
    }

    /// The content of a file.
    pub open spec fn content(self, node: Node) -> Seq<char> {
        match node {
            Node::Register(i) => register_line(self.store@, self.registers@[i].name@),
            Node::Coil(i) => coil_line(self.coil_store@, self.coils@[i].name@),
            Node::DiscreteInput(i) => coil_line(
                self.discrete_input_store@,
                self.discrete_inputs@[i].name@,
            ),
            Node::InputRegister(i) => register_line(
                self.input_register_store@,
                self.input_registers@[i].name@,
            ),
            Node::FileRecord(i) => parsing::hex_dump(
                record_bytes(self.file_record_store@, self.file_records@[i]),
            ).push('\n'),
            Node::ReportRegister(i) => status_line(self.report@, self.registers@[i].name@),
            Node::ReportCoil(i) => status_line(self.report@, self.coils@[i].name@),
            Node::ApprovedLog => match self.client_trust {
                Some(state) => client_trust::joined(state.logs().0),
                None => Seq::empty(),
            },
            Node::PendingLog => match self.client_trust {
                Some(state) => client_trust::joined(state.logs().1),
                None => Seq::empty(),
            },
            Node::RejectedLog => match self.client_trust {
                Some(state) => client_trust::joined(state.logs().2),
                None => Seq::empty(),
            },
            Node::ServerId => match self.server_id {
                Some(id) => id@.push('\n'),
                None => Seq::empty(),
            },
            Node::Transaction(name) => staged_line(self.transactions.pending@, name),
            Node::Fingerprint(name) => name.push('\n'),
            _ => Seq::empty(),
        }
    }

    /// The mode of the files of values that have no access right of their own:
    /// writable where values are written directly.
    pub open spec fn data_mode(self) -> u16 {
        match self.write_mode {
            WriteMode::Direct => 0o644,
            WriteMode::Staged => 0o444,
        }
    }

    /// The mode of the file of a register: writable where values are written
    /// directly and the register may be written.
    pub open spec fn register_mode(self, register: RegisterDescription) -> u16 {
        if self.write_mode == WriteMode::Direct && register.access == AccessRight::ReadWrite {
            0o644
        } else {
            0o444
        }
    }

    /// The mode of a file.
    pub open spec fn mode(self, node: Node) -> u16 {
        match node {
            Node::Register(i) => self.register_mode(self.registers@[i]),
            Node::Coil(_) | Node::DiscreteInput(_) | Node::InputRegister(_)
            | Node::FileRecord(_) => self.data_mode(),
            Node::Transaction(_) => 0o644,
            _ => 0o444,
        }
    }

    /// The configured permissions that hold for `ino`.
    pub open spec fn configured(self, ino: INodeNo) -> Option<DirectoryPermissions> {
        if ino.0 == HOLDING_REGISTERS_INO || self.data_file_at(ino) is Some && self.data_file_at(
            ino,
        )->0 is Register {
            Some(self.permissions.holding_registers)
        } else if ino == self.coils_ino || self.data_file_at(ino) is Some && self.data_file_at(
            ino,
        )->0 is Coil {
            Some(self.permissions.coils)
        } else if self.write_mode == WriteMode::Staged && (ino == self.transactions_ino
            || self.transaction_at(ino) is Some) {
            Some(self.permissions.transactions)
        } else if ino == self.report_ino || self.report_file_at(ino) is Some {
            Some(self.permissions.report)
        } else {
            None
        }
    }

    /// Who owns `ino`: whom the configuration says, else who asks.
    pub open spec fn owner(self, ino: INodeNo, caller: Owner) -> Owner {
        match self.configured(ino) {
            Some(permissions) => Owner { uid: permissions.uid, gid: permissions.gid },
            None => caller,
        }
    }

    /// The attributes of a directory. `client-trust/` is closed to all but the
    /// process's own user, whatever is configured.
    pub open spec fn directory_attributes(self, ino: INodeNo, caller: Owner) -> FileAttr {
        let locked = self.client_trust is Some && ino == self.client_trust_ino;
        let owner = if locked {
            self.process
        } else {
            self.owner(ino, caller)
        };
        FileAttr {
            ino,
            size: 0,
            blocks: 0,
            kind: FileType::Directory,
            perm: if locked {
                0o700
            } else {
                match self.configured(ino) {
                    Some(permissions) => permissions.mode,
                    None => 0o755,
                }
            },
            nlink: 2,
            uid: owner.uid,
            gid: owner.gid,
            rdev: 0,
            blksize: 512,
            flags: 0,
        }
    }

    /// The attributes of a file.
    pub open spec fn file_attributes(
        self,
        ino: INodeNo,
        size: u64,
        perm: u16,
        caller: Owner,
    ) -> FileAttr {
        FileAttr {
            ino,
            size,
            blocks: 0,
            kind: FileType::RegularFile,
            perm,
            nlink: 1,
            uid: self.owner(ino, caller).uid,
            gid: self.owner(ino, caller).gid,
            rdev: 0,
            blksize: 512,
            flags: 0,
        }
    }

    /// The attributes of the node `node` under the inode `ino`: the size of a
    /// file is that of its content in UTF-8.
    pub open spec fn attributes(self, ino: INodeNo, node: Node, caller: Owner) -> FileAttr {
        if node.is_directory() {
            self.directory_attributes(ino, caller)
        } else {
            self.file_attributes(
                ino,
                vstd::utf8::encode_utf8(self.content(node)).len() as u64,
                self.mode(node),
                caller,
            )
        }
    }

    /// Whether the file with the inode `ino` takes writes directly.
    pub open spec fn takes_direct_writes(self, ino: INodeNo) -> bool {
        &&& self.write_mode == WriteMode::Direct
        &&& self.data_file_at(ino) matches Some(node)
        &&& node matches Node::Register(i) ==> self.registers@[i].access == AccessRight::ReadWrite
    }

    /// Lays out the files of a device. The inodes that are given out later,
    /// to staged files and to approved clients, lie behind all others.
    pub fn new(
        registers: Vec<RegisterDescription>,
        coils: Vec<CoilDescription>,
        discrete_inputs: Vec<DiscreteInputDescription>,
        input_registers: Vec<InputRegisterDescription>,
        file_records: Vec<FileRecordDescription>,
        store: RegisterStore,
        coil_store: CoilStore,
        discrete_input_store: DiscreteInputStore,
        input_register_store: InputRegisterStore,
        file_record_store: FileRecordStore,
        report: WriteReport,
        client_trust: Option<ClientTrustState>,
        permissions: FusePermissions,
        write_mode: WriteMode,
        server_id: Option<String>,
        process: Owner,
    ) -> (filesystem: Self)
        requires
            16 + 2 * registers@.len() + 2 * coils@.len() + discrete_inputs@.len()
                + input_registers@.len() + 2 * file_records@.len() <= u64::MAX,
        ensures
            filesystem.wf(),
            filesystem.registers == registers,
            filesystem.coils == coils,
            filesystem.discrete_inputs == discrete_inputs,
            filesystem.input_registers == input_registers,
            filesystem.file_records == file_records,
            filesystem.store == store,
            filesystem.coil_store == coil_store,
            filesystem.discrete_input_store == discrete_input_store,
            filesystem.input_register_store == input_register_store,
            filesystem.file_record_store == file_record_store,
            filesystem.report == report,
            filesystem.permissions == permissions,
            filesystem.write_mode == write_mode,
            filesystem.server_id == server_id,
            filesystem.process == process,
            filesystem.client_trust is Some <==> client_trust is Some,
            client_trust matches Some(before) ==> filesystem.client_trust matches Some(after) && {
                &&& after.next() == filesystem.fixed_end()
                &&& after.inodes() == before.inodes()
                &&& after.listing() == before.listing()
                &&& after.fingerprints() == before.fingerprints()
                &&& after.logs() == before.logs()
            },
            filesystem.transactions.pending@ == Map::<Seq<char>, StagedValue>::empty(),
            filesystem.transactions.name_to_ino@ == Map::<Seq<char>, INodeNo>::empty(),
            filesystem.transactions.ino_to_name@ == Map::<u64, String>::empty(),
            filesystem.transactions.buffers@ == Map::<u64, Vec<u8>>::empty(),
            filesystem.transactions.last_transaction_end_inos@ == Set::<u64>::empty(),
            filesystem.transactions.next_ino == filesystem.fixed_end(),
            filesystem.transactions.consistent(filesystem.fixed_end()),
            (client_trust matches Some(state) ==> state.consistent() && state.fingerprints()
                == Map::<u64, String>::empty()) ==> filesystem.in_order(),
    {
        let name_to_ino = number_files(&registers, FIRST_REGISTER_INO);
        let coils_ino = INodeNo(FIRST_REGISTER_INO + registers.len() as u64);
        let first_coil_ino: u64 = coils_ino.0 + 1;
        let coil_name_to_ino = number_files(&coils, first_coil_ino);
        let discrete_inputs_ino = INodeNo(first_coil_ino + coils.len() as u64);
        let first_discrete_input_ino: u64 = discrete_inputs_ino.0 + 1;
        let discrete_input_name_to_ino = number_files(&discrete_inputs, first_discrete_input_ino);
        let input_registers_ino = INodeNo(first_discrete_input_ino + discrete_inputs.len() as u64);
        let first_input_register_ino: u64 = input_registers_ino.0 + 1;
        let input_register_name_to_ino = number_files(&input_registers, first_input_register_ino);
        let transactions_ino = INodeNo(first_input_register_ino + input_registers.len() as u64);
        let report_ino = INodeNo(transactions_ino.0 + 1);
        let first_report_ino: u64 = report_ino.0 + 1;
        let client_trust_ino = INodeNo(
            first_report_ino + registers.len() as u64 + coils.len() as u64,
        );
        let client_trust_approved_ino = INodeNo(client_trust_ino.0 + 1);
        let connection_attempts_ino = INodeNo(client_trust_approved_ino.0 + 1);
        let approved_log_ino = INodeNo(connection_attempts_ino.0 + 1);
        let pending_log_ino = INodeNo(approved_log_ino.0 + 1);
        let rejected_log_ino = INodeNo(pending_log_ino.0 + 1);
        let server_id_ino = INodeNo(rejected_log_ino.0 + 1);
        let file_records_ino = INodeNo(server_id_ino.0 + 1);
        let mut unique_file_numbers: Vec<u16> = Vec::new();
        let mut i: usize = 0;
        while i < file_records.len()
            invariant
                i <= file_records@.len(),
                unique_file_numbers@ == file_numbers(file_records@.take(i as int)),
            decreases file_records@.len() - i,
        {
            assert(file_records@.take(i + 1).drop_last() =~= file_records@.take(i as int));
            if position_of_number(&unique_file_numbers, file_records[i].file_number).is_none() {
                unique_file_numbers.push(file_records[i].file_number);
            }
            i = i + 1;
        }
        proof {
            assert(file_records@.take(file_records@.len() as int) =~= file_records@);
            lemma_file_numbers_distinct(file_records@);
        }
        let first_free_ino: u64 = file_records_ino.0 + 1 + unique_file_numbers.len() as u64
            + file_records.len() as u64;
        let client_trust = match client_trust {
            Some(mut state) => {
                state.set_next_ino(first_free_ino);
                Some(state)
            },
            None => None,
        };
        let transactions = TransactionFsState {
            pending: PendingTransaction::new(),
            name_to_ino: NameTable::new(),
            ino_to_name: HashMap::new(),
            buffers: HashMap::new(),
            next_ino: first_free_ino,
            last_transaction_end_inos: HashSet::new(),
        };
        InfusedFilesystem {
            registers,
            name_to_ino,
            store,
            coils,
            coil_name_to_ino,
            coil_store,
            coils_ino,
            discrete_inputs,
            discrete_input_name_to_ino,
            discrete_input_store,
            discrete_inputs_ino,
            input_registers,
            input_register_name_to_ino,
            input_register_store,
            input_registers_ino,
            transactions_ino,
            transactions,
            report_ino,
            report,
            client_trust,
            client_trust_ino,
            client_trust_approved_ino,
            connection_attempts_ino,
            approved_log_ino,
            pending_log_ino,
            rejected_log_ino,
            server_id,
            server_id_ino,
            file_records,
            file_record_store,
            file_records_ino,
            unique_file_numbers,
            permissions,
            write_mode,
            process,
        }
    }
}

} // verus!
