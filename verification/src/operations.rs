//! What the file system answers to requests.

use crate::device_description::FileRecordDescription;
use crate::filesystem::{
    first_named, is_first_record, lemma_file_numbers_distinct, position_named, position_of_number,
    Errno, FileAttr, FileType, InfusedFilesystem, Named, Node, Owner, WriteMode,
    FIRST_REGISTER_INO, HOLDING_REGISTERS_INO, ROOT_INO,
};
use crate::inode::INodeNo;
use crate::numbers;
use crate::table::NameTable;
use crate::text;
use vstd::prelude::*;

verus! {

broadcast use vstd::std_specs::hash::group_hash_axioms;

/// An entry of a directory: its inode, what it is, its name, and the offset at
/// which the next entry is found.
#[derive(Debug, PartialEq, Eq)]
pub struct DirEntry {
    pub ino: INodeNo,
    pub kind: FileType,
    pub name: String,
    pub next_offset: u64,
}

/// An entry of a directory: its inode, what it is, and its name.
pub type Listed = (INodeNo, FileType, Seq<char>);

/// What `entries` list.
pub open spec fn listed(entries: Seq<(INodeNo, FileType, String)>) -> Seq<Listed> {
    Seq::new(entries.len(), |i: int| (entries[i].0, entries[i].1, entries[i].2@))
}

/// What `entries` say, each with the offset at which the next one is found.
pub open spec fn entry_views(entries: Seq<DirEntry>) -> Seq<(Listed, int)> {
    Seq::new(
        entries.len(),
        |i: int|
            (
                (entries[i].ino, entries[i].kind, entries[i].name@),
                entries[i].next_offset as int,
            ),
    )
}

/// The entries of a directory from the one at `offset` on, each with the offset at
/// which the next one is found.
pub open spec fn entries_from(all: Seq<Listed>, offset: int) -> Seq<(Listed, int)> {
    Seq::new(
        if offset <= all.len() {
            (all.len() - offset) as nat
        } else {
            0
        },
        |i: int| (all[offset + i], offset + i + 1),
    )
}

/// The first two entries of every directory: itself and its parent.
pub open spec fn dots(own: INodeNo, parent: INodeNo) -> Seq<Listed> {
    seq![(own, FileType::Directory, "."@), (parent, FileType::Directory, ".."@)]
}

/// The files of `items`, with the inodes that `inodes` gives their names.
pub open spec fn named_files<T: Named>(
    items: Seq<T>,
    inodes: Map<Seq<char>, INodeNo>,
) -> Seq<Listed> {
    Seq::new(
        items.len(),
        |i: int| (inodes[items[i].label()], FileType::RegularFile, items[i].label()),
    )
}

/// The files of `items`, numbered from `first` on.
pub open spec fn numbered_files<T: Named>(items: Seq<T>, first: int) -> Seq<Listed> {
    Seq::new(
        items.len(),
        |i: int| (INodeNo((first + i) as u64), FileType::RegularFile, items[i].label()),
    )
}

/// The directories of `file_numbers`, numbered from `first` on.
pub open spec fn number_directories(file_numbers: Seq<u16>, first: int) -> Seq<Listed> {
    Seq::new(
        file_numbers.len(),
        |i: int|
            (
                INodeNo((first + i) as u64),
                FileType::Directory,
                numbers::decimal(file_numbers[i] as nat),
            ),
    )
}

/// The files of the records of one file, where all records are numbered from
/// `first` on.
pub open spec fn record_files(
    records: Seq<FileRecordDescription>,
    first: int,
    file_number: u16,
) -> Seq<Listed>
    decreases records.len(),
{
    if records.len() == 0 {
        Seq::empty()
    } else {
        let before = record_files(records.drop_last(), first, file_number);
        if records.last().file_number == file_number {
            before.push(
                (
                    INodeNo((first + records.len() - 1) as u64),
                    FileType::RegularFile,
                    numbers::decimal(records.last().record_number as nat),
                ),
            )
        } else {
            before
        }
    }
}

/// The files that the entries of a table name.
pub open spec fn table_files(items: Seq<(String, INodeNo)>) -> Seq<Listed> {
    Seq::new(items.len(), |i: int| (items[i].1, FileType::RegularFile, items[i].0@))
}

/// `entries` and one more, where `present`.
pub open spec fn with_entry(entries: Seq<Listed>, present: bool, entry: Listed) -> Seq<Listed> {
    if present {
        entries.push(entry)
    } else {
        entries
    }
}

impl InfusedFilesystem {
    /// The entry `name` of the root directory.
    pub open spec fn root_child(self, name: Seq<char>) -> Option<(INodeNo, Node)> {
        if name == "holding-registers"@ {
            Some((INodeNo(HOLDING_REGISTERS_INO), Node::HoldingRegisters))
        } else if name == "coils"@ {
            Some((self.coils_ino, Node::Coils))
        } else if name == "discrete-inputs"@ {
            Some((self.discrete_inputs_ino, Node::DiscreteInputs))
        } else if name == "input-registers"@ {
            Some((self.input_registers_ino, Node::InputRegisters))
        } else if name == "file-records"@ {
            Some((self.file_records_ino, Node::FileRecords))
        } else if name == "transactions"@ && self.write_mode == WriteMode::Staged {
            Some((self.transactions_ino, Node::Transactions))
        } else if name == "report"@ {
            Some((self.report_ino, Node::Report))
        } else if name == "client-trust"@ && self.client_trust is Some {
            Some((self.client_trust_ino, Node::ClientTrust))
        } else if name == "server-id"@ && self.server_id is Some {
            Some((self.server_id_ino, Node::ServerId))
        } else {
            None
        }
    }

    /// The entry `name` of `report/`: the first register or else the first
    /// coil of that name.
    pub open spec fn report_child(self, name: Seq<char>) -> Option<(INodeNo, Node)> {
        match first_named(self.registers@, name) {
            Some(i) => Some(
                (INodeNo((self.report_ino.0 + 1 + i) as u64), Node::ReportRegister(i)),
            ),
            None => match first_named(self.coils@, name) {
                Some(i) => Some(
                    (
                        INodeNo((self.report_ino.0 + 1 + self.registers@.len() + i) as u64),
                        Node::ReportCoil(i),
                    ),
                ),
                None => None,
            },
        }
    }

    /// The entry `name` of the directory `directory`.
    pub open spec fn child(self, directory: Node, name: Seq<char>) -> Option<(INodeNo, Node)> {
        match directory {
            Node::Root => self.root_child(name),
            Node::ClientTrust => if name == "approved"@ {
                Some((self.client_trust_approved_ino, Node::Approved))
            } else if name == "connection_attempts"@ {
                Some((self.connection_attempts_ino, Node::ConnectionAttempts))
            } else {
                None
            },
            Node::ConnectionAttempts => if name == "approved.log"@ {
                Some((self.approved_log_ino, Node::ApprovedLog))
            } else if name == "pending.log"@ {
                Some((self.pending_log_ino, Node::PendingLog))
            } else if name == "rejected.log"@ {
                Some((self.rejected_log_ino, Node::RejectedLog))
            } else {
                None
            },
            Node::Approved => match self.client_trust {
                Some(state) => if state.inodes().dom().contains(name) {
                    Some((state.inodes()[name], Node::Fingerprint(name)))
                } else {
                    None
                },
                None => None,
            },
            Node::HoldingRegisters => if self.name_to_ino@.dom().contains(name) {
                let ino = self.name_to_ino@[name];
                Some((ino, Node::Register(ino.0 - FIRST_REGISTER_INO)))
            } else {
                None
            },
            Node::Coils => if self.coil_name_to_ino@.dom().contains(name) {
                let ino = self.coil_name_to_ino@[name];
                Some((ino, Node::Coil(ino.0 - (self.coils_ino.0 + 1))))
            } else {
                None
            },
            Node::DiscreteInputs => if self.discrete_input_name_to_ino@.dom().contains(name) {
                let ino = self.discrete_input_name_to_ino@[name];
                Some((ino, Node::DiscreteInput(ino.0 - (self.discrete_inputs_ino.0 + 1))))
            } else {
                None
            },
            Node::InputRegisters => if self.input_register_name_to_ino@.dom().contains(name) {
                let ino = self.input_register_name_to_ino@[name];
                Some((ino, Node::InputRegister(ino.0 - (self.input_registers_ino.0 + 1))))
            } else {
                None
            },
            Node::FileRecords => match numbers::unsigned_up_to(name, 10, u16::MAX as nat) {
                Some(number) => if self.unique_file_numbers@.contains(number as u16) {
                    let i = self.unique_file_numbers@.index_of(number as u16);
                    Some((INodeNo((self.file_records_ino.0 + 1 + i) as u64), Node::FileNumber(i)))
                } else {
                    None
                },
                None => None,
            },
            Node::FileNumber(i) => match numbers::unsigned_up_to(name, 10, u16::MAX as nat) {
                Some(number) => self.record_child(self.unique_file_numbers@[i], number as u16),
                None => None,
            },
            Node::Transactions => if self.transactions.name_to_ino@.dom().contains(name) {
                Some((self.transactions.name_to_ino@[name], Node::Transaction(name)))
            } else {
                None
            },
            Node::Report => self.report_child(name),
            _ => None,
        }
    }

    /// The first file record with these numbers, as an entry of its directory.
    pub open spec fn record_child(self, file_number: u16, record_number: u16) -> Option<
        (INodeNo, Node),
    > {
        if exists|k: int| is_first_record(self.file_records@, k, file_number, record_number) {
            let k = choose|k: int|
                is_first_record(self.file_records@, k, file_number, record_number);
            Some((INodeNo((self.first_record_ino() + k) as u64), Node::FileRecord(k)))
        } else {
            None
        }
    }

    /// The entries of the root directory.
    pub open spec fn root_listing(self) -> Seq<Listed> {
        let root = INodeNo(ROOT_INO);
        let fixed = seq![
            (root, FileType::Directory, "."@),
            (root, FileType::Directory, ".."@),
            (INodeNo(HOLDING_REGISTERS_INO), FileType::Directory, "holding-registers"@),
            (self.coils_ino, FileType::Directory, "coils"@),
            (self.discrete_inputs_ino, FileType::Directory, "discrete-inputs"@),
            (self.input_registers_ino, FileType::Directory, "input-registers"@),
            (self.file_records_ino, FileType::Directory, "file-records"@),
            (self.report_ino, FileType::Directory, "report"@),
        ];
        with_entry(
            with_entry(
                with_entry(
                    fixed,
                    self.write_mode == WriteMode::Staged,
                    (self.transactions_ino, FileType::Directory, "transactions"@),
                ),
                self.client_trust is Some,
                (self.client_trust_ino, FileType::Directory, "client-trust"@),
            ),
            self.server_id is Some,
            (self.server_id_ino, FileType::RegularFile, "server-id"@),
        )
    }

    /// The entries of the directory `directory`, which has the inode `ino`.
    pub open spec fn listing(self, ino: INodeNo, directory: Node) -> Seq<Listed> {
        let root = INodeNo(ROOT_INO);
        match directory {
            Node::Root => self.root_listing(),
            Node::ClientTrust => dots(ino, root) + seq![
                (self.client_trust_approved_ino, FileType::Directory, "approved"@),
                (self.connection_attempts_ino, FileType::Directory, "connection_attempts"@),
            ],
            Node::ConnectionAttempts => dots(ino, self.client_trust_ino) + seq![
                (self.approved_log_ino, FileType::RegularFile, "approved.log"@),
                (self.pending_log_ino, FileType::RegularFile, "pending.log"@),
                (self.rejected_log_ino, FileType::RegularFile, "rejected.log"@),
            ],
            Node::Approved => dots(ino, self.client_trust_ino) + match self.client_trust {
                Some(state) => table_files(state.listing()),
                None => Seq::empty(),
            },
            Node::HoldingRegisters => dots(ino, root) + named_files(
                self.registers@,
                self.name_to_ino@,
            ),
            Node::Coils => dots(ino, root) + named_files(self.coils@, self.coil_name_to_ino@),
            Node::DiscreteInputs => dots(ino, root) + named_files(
                self.discrete_inputs@,
                self.discrete_input_name_to_ino@,
            ),
            Node::InputRegisters => dots(ino, root) + named_files(
                self.input_registers@,
                self.input_register_name_to_ino@,
            ),
            Node::FileRecords => dots(ino, root) + number_directories(
                self.unique_file_numbers@,
                self.file_records_ino.0 + 1,
            ),
            Node::FileNumber(i) => dots(ino, self.file_records_ino) + record_files(
                self.file_records@,
                self.first_record_ino(),
                self.unique_file_numbers@[i],
            ),
            Node::Transactions => dots(ino, root) + table_files(
                self.transactions.name_to_ino.items(),
            ),
            Node::Report => dots(ino, root) + numbered_files(
                self.registers@,
                self.report_ino.0 + 1,
            ) + numbered_files(self.coils@, self.report_ino.0 + 1 + self.registers@.len()),
            _ => Seq::empty(),
        }
    }

    /// What `ino` is to a request for its attributes.
    pub open spec fn attribute_node(self, ino: INodeNo) -> Option<Node> {
        if self.directory_at(ino) is Some && (self.directory_at(ino)->0 is Approved
            ==> self.client_trust is Some) {
            self.directory_at(ino)
        } else if self.system_file_at(ino) is Some {
            self.system_file_at(ino)
        } else if self.fingerprint_at(ino) is Some {
            self.fingerprint_at(ino)
        } else if self.data_file_at(ino) is Some {
            self.data_file_at(ino)
        } else if self.report_file_at(ino) is Some {
            self.report_file_at(ino)
        } else {
            self.transaction_at(ino)
        }
    }

    /// What `ino` is to a request for its content.
    pub open spec fn content_node(self, ino: INodeNo) -> Option<Node> {
        if self.data_file_at(ino) is Some {
            self.data_file_at(ino)
        } else if self.report_file_at(ino) is Some {
            self.report_file_at(ino)
        } else if self.transaction_at(ino) is Some {
            self.transaction_at(ino)
        } else if self.fingerprint_at(ino) is Some {
            self.fingerprint_at(ino)
        } else {
            self.system_file_at(ino)
        }
    }
}

/// A name in the numbering of `items` has the inode of an item of that name.
pub proof fn lemma_inode_map<T: Named>(items: Seq<T>, first: int, name: Seq<char>)
    requires
        0 <= first,
        first + items.len() <= u64::MAX,
        crate::filesystem::inode_map(items, first).dom().contains(name),
    ensures
        ({
            let ino = crate::filesystem::inode_map(items, first)[name];
            &&& InfusedFilesystem::in_range(ino, first, items.len())
            &&& items[ino.0 - first].label() == name
        }),
    decreases items.len(),
{
    if items.len() > 0 && items.last().label() != name {
        lemma_inode_map(items.drop_last(), first, name);
    }
}

/// Two records that are each the first with the same numbers are one.
pub proof fn lemma_first_record_unique(
    records: Seq<FileRecordDescription>,
    i: int,
    j: int,
    file_number: u16,
    record_number: u16,
)
    requires
        is_first_record(records, i, file_number, record_number),
        is_first_record(records, j, file_number, record_number),
    ensures
        i == j,
{
    if i < j {
        assert(records[i].file_number != file_number || records[i].record_number != record_number);
    } else if j < i {
        assert(records[j].file_number != file_number || records[j].record_number != record_number);
    }
}

/// Where some record has these numbers, one of them is the first.
pub proof fn lemma_first_record_exists(
    records: Seq<FileRecordDescription>,
    i: int,
    file_number: u16,
    record_number: u16,
) -> (k: int)
    requires
        0 <= i < records.len(),
        records[i].file_number == file_number,
        records[i].record_number == record_number,
    ensures
        is_first_record(records, k, file_number, record_number),
        k <= i,
    decreases i,
{
    if forall|j: int|
        0 <= j < i ==> (#[trigger] records[j]).file_number != file_number
            || records[j].record_number != record_number {
        i
    } else {
        let j = choose|j: int|
            0 <= j < i && (#[trigger] records[j]).file_number == file_number
                && records[j].record_number == record_number;
        lemma_first_record_exists(records, j, file_number, record_number)
    }
}

/// The number up to 65535 that `name` writes.
fn parse_number(name: &str) -> (number: Option<u16>)
    ensures
        number is Some <==> numbers::unsigned_up_to(name@, 10, u16::MAX as nat) is Some,
        number matches Some(n) ==> numbers::unsigned_up_to(name@, 10, u16::MAX as nat) == Some(
            n as nat,
        ),
{
    let chars = text::chars_of(name);
    match numbers::parse_unsigned(chars.as_slice(), 10, u16::MAX as u64) {
        Some(number) => Some(number as u16),
        None => None,
    }
}

impl InfusedFilesystem {
    /// The attributes of a file with this content and mode.
    fn attr_of_content(&self, ino: INodeNo, content: &str, mode: u16, caller: Owner) -> (attr:
        FileAttr)
        requires
            self.wf(),
        ensures
            attr == self.file_attributes(
                ino,
                vstd::utf8::encode_utf8(content@).len() as u64,
                mode,
                caller,
            ),
    {
        self.file_attr(ino, text::byte_length(content), mode, caller)
    }

    /// The attributes of the entry `name` of the root directory.
    fn lookup_root(&self, name: &str, caller: Owner) -> (attr: Option<FileAttr>)
        requires
            self.wf(),
        ensures
            attr == (match self.root_child(name@) {
                Some((ino, node)) => Some(self.attributes(ino, node, caller)),
                None => None,
            }),
    {
        if text::same_text(name, "holding-registers") {
            Some(self.directory_attr(INodeNo(HOLDING_REGISTERS_INO), caller))
        } else if text::same_text(name, "coils") {
            Some(self.directory_attr(self.coils_ino, caller))
        } else if text::same_text(name, "discrete-inputs") {
            Some(self.directory_attr(self.discrete_inputs_ino, caller))
        } else if text::same_text(name, "input-registers") {
            Some(self.directory_attr(self.input_registers_ino, caller))
        } else if text::same_text(name, "file-records") {
            Some(self.directory_attr(self.file_records_ino, caller))
        } else if text::same_text(name, "transactions") && self.transactions_enabled() {
            Some(self.directory_attr(self.transactions_ino, caller))
        } else if text::same_text(name, "report") {
            Some(self.directory_attr(self.report_ino, caller))
        } else if text::same_text(name, "client-trust") && self.client_trust.is_some() {
            Some(self.directory_attr(self.client_trust_ino, caller))
        } else if text::same_text(name, "server-id") && self.server_id.is_some() {
            let content = self.server_id_content();
            Some(self.attr_of_content(self.server_id_ino, content.as_str(), 0o444, caller))
        } else {
            None
        }
    }

    /// The attributes of the entry `name` of a directory of `client-trust/`,
    /// where clients are trusted.
    fn lookup_client_trust(&self, parent: INodeNo, name: &str, caller: Owner) -> (attr: Option<
        FileAttr,
    >)
        requires
            self.wf(),
            self.directory_at(parent) matches Some(node) && (node is ClientTrust
                || node is ConnectionAttempts || node is Approved),
        ensures
            attr == (match self.child(self.directory_at(parent)->0, name@) {
                Some((ino, node)) => Some(self.attributes(ino, node, caller)),
                None => None,
            }),
    {
        if parent == self.client_trust_ino {
            if text::same_text(name, "approved") {
                Some(self.directory_attr(self.client_trust_approved_ino, caller))
            } else if text::same_text(name, "connection_attempts") {
                Some(self.directory_attr(self.connection_attempts_ino, caller))
            } else {
                None
            }
        } else if parent == self.connection_attempts_ino {
            let ino = if text::same_text(name, "approved.log") {
                self.approved_log_ino
            } else if text::same_text(name, "pending.log") {
                self.pending_log_ino
            } else if text::same_text(name, "rejected.log") {
                self.rejected_log_ino
            } else {
                return None;
            };
            let content = self.connection_attempts_log_content(ino);
            Some(self.attr_of_content(ino, content.as_str(), 0o444, caller))
        } else {
            match &self.client_trust {
                Some(state) => match state.ino_by_fingerprint(name) {
                    Some(ino) => {
                        let mut content = text::copy(name);
                        content.push('\n');
                        Some(self.attr_of_content(ino, content.as_str(), 0o444, caller))
                    },
                    None => None,
                },
                None => None,
            }
        }
    }

    /// The attributes of the file of a value with the inode `ino`.
    fn data_file_attr(&self, ino: INodeNo, caller: Owner) -> (attr: Option<FileAttr>)
        requires
            self.wf(),
        ensures
            attr == (match self.data_file_at(ino) {
                Some(node) => Some(self.attributes(ino, node, caller)),
                None => None,
            }),
    {
        match self.data_file(ino) {
            Some((content, mode)) => Some(
                self.attr_of_content(ino, content.as_str(), mode, caller),
            ),
            None => None,
        }
    }

    /// The attributes of the entry `name` of a directory of values.
    fn lookup_value(&self, parent: INodeNo, name: &str, caller: Owner) -> (attr: Option<FileAttr>)
        requires
            self.wf(),
            self.directory_at(parent) matches Some(node) && (node is HoldingRegisters
                || node is Coils || node is DiscreteInputs || node is InputRegisters),
        ensures
            attr == (match self.child(self.directory_at(parent)->0, name@) {
                Some((ino, node)) => Some(self.attributes(ino, node, caller)),
                None => None,
            }),
    {
        let found = if parent.0 == HOLDING_REGISTERS_INO {
            proof {
                if self.name_to_ino@.dom().contains(name@) {
                    lemma_inode_map(self.registers@, FIRST_REGISTER_INO as int, name@);
                }
            }
            self.name_to_ino.get(name)
        } else if parent == self.coils_ino {
            proof {
                if self.coil_name_to_ino@.dom().contains(name@) {
                    lemma_inode_map(self.coils@, self.coils_ino.0 + 1, name@);
                }
            }
            self.coil_name_to_ino.get(name)
        } else if parent == self.discrete_inputs_ino {
            proof {
                if self.discrete_input_name_to_ino@.dom().contains(name@) {
                    lemma_inode_map(
                        self.discrete_inputs@,
                        self.discrete_inputs_ino.0 + 1,
                        name@,
                    );
                }
            }
            self.discrete_input_name_to_ino.get(name)
        } else {
            proof {
                if self.input_register_name_to_ino@.dom().contains(name@) {
                    lemma_inode_map(
                        self.input_registers@,
                        self.input_registers_ino.0 + 1,
                        name@,
                    );
                }
            }
            self.input_register_name_to_ino.get(name)
        };
        match found {
            Some(ino) => self.data_file_attr(*ino, caller),
            None => None,
        }
    }

    /// The attributes of the entry `name` of `file-records/` or of one of its
    /// directories.
    fn lookup_file_record(&self, parent: INodeNo, name: &str, caller: Owner) -> (attr: Option<
        FileAttr,
    >)
        requires
            self.wf(),
            self.directory_at(parent) matches Some(node) && (node is FileRecords
                || node is FileNumber),
        ensures
            attr == (match self.child(self.directory_at(parent)->0, name@) {
                Some((ino, node)) => Some(self.attributes(ino, node, caller)),
                None => None,
            }),
    {
        let number = match parse_number(name) {
            Some(number) => number,
            None => {
                return None;
            },
        };
        if parent == self.file_records_ino {
            match position_of_number(&self.unique_file_numbers, number) {
                Some(index) => {
                    proof {
                        lemma_file_numbers_distinct(self.file_records@);
                        let i = self.unique_file_numbers@.index_of(number);
                        assert(self.unique_file_numbers@[i] == number);
                        assert(i == index);
                    }
                    Some(
                        self.directory_attr(
                            INodeNo(self.first_file_number_ino() + index as u64),
                            caller,
                        ),
                    )
                },
                None => None,
            }
        } else {
            match self.file_number_by_ino(parent) {
                Some(file_number) => match self.file_record_by_numbers(file_number, number) {
                    Some((ino, _)) => {
                        proof {
                            let i = ino.0 - self.first_record_ino();
                            let k = choose|k: int|
                                is_first_record(self.file_records@, k, file_number, number);
                            lemma_first_record_unique(
                                self.file_records@,
                                i,
                                k,
                                file_number,
                                number,
                            );
                        }
                        self.data_file_attr(ino, caller)
                    },
                    None => None,
                },
                None => None,
            }
        }
    }

    /// The attributes of the entry `name` of `report/`.
    fn lookup_report(&self, name: &str, caller: Owner) -> (attr: Option<FileAttr>)
        requires
            self.wf(),
        ensures
            attr == (match self.report_child(name@) {
                Some((ino, node)) => Some(self.attributes(ino, node, caller)),
                None => None,
            }),
    {
        let ino = match position_named(&self.registers, name) {
            Some(index) => INodeNo(self.first_report_ino() + index as u64),
            None => match position_named(&self.coils, name) {
                Some(index) => INodeNo(self.first_coil_report_ino() + index as u64),
                None => {
                    return None;
                },
            },
        };
        let content = self.report_content(name);
        Some(self.attr_of_content(ino, content.as_str(), 0o444, caller))
    }

    /// What a request for the entry `name` of the directory `parent` is answered.
    pub open spec fn lookup_reply(
        self,
        caller: Owner,
        parent: INodeNo,
        name: Seq<char>,
    ) -> Result<FileAttr, Errno> {
        match self.directory_at(parent) {
            Some(directory) => match self.child(directory, name) {
                Some((ino, node)) => Ok(self.attributes(ino, node, caller)),
                None => Err(Errno::ENOENT),
            },
            None => Err(Errno::ENOENT),
        }
    }

    /// What a request for the attributes of `ino` is answered.
    pub open spec fn getattr_reply(self, caller: Owner, ino: INodeNo) -> Result<FileAttr, Errno> {
        match self.attribute_node(ino) {
            Some(node) => Ok(self.attributes(ino, node, caller)),
            None => Err(Errno::ENOENT),
        }
    }

    /// The attributes of the entry `name` of the directory `parent`; a name
    /// that is no text names nothing.
    pub fn lookup(&self, caller: Owner, parent: INodeNo, name: Option<&str>) -> (reply: Result<
        FileAttr,
        Errno,
    >)
        requires
            self.wf(),
        ensures
            reply == (match name {
                Some(name) => self.lookup_reply(caller, parent, name@),
                None => Err(Errno::ENOENT),
            }),
    {
        let name = match name {
            Some(name) => name,
            None => {
                return Err(Errno::ENOENT);
            },
        };
        let found = if parent.0 == ROOT_INO {
            self.lookup_root(name, caller)
        } else if parent == self.client_trust_approved_ino || (self.client_trust.is_some() && (
        parent == self.client_trust_ino || parent == self.connection_attempts_ino)) {
            self.lookup_client_trust(parent, name, caller)
        } else if parent.0 == HOLDING_REGISTERS_INO || parent == self.coils_ino || parent
            == self.discrete_inputs_ino || parent == self.input_registers_ino {
            self.lookup_value(parent, name, caller)
        } else if parent == self.file_records_ino || self.file_number_by_ino(parent).is_some() {
            self.lookup_file_record(parent, name, caller)
        } else if parent == self.transactions_ino && self.transactions_enabled() {
            match self.transactions.name_to_ino.get(name) {
                Some(ino) => {
                    let content = self.transaction_content(name);
                    Some(self.attr_of_content(*ino, content.as_str(), 0o644, caller))
                },
                None => None,
            }
        } else if parent == self.report_ino {
            self.lookup_report(name, caller)
        } else {
            None
        };
        match found {
            Some(attr) => Ok(attr),
            None => Err(Errno::ENOENT),
        }
    }

    /// The attributes of `ino`.
    pub fn getattr(&self, caller: Owner, ino: INodeNo) -> (reply: Result<FileAttr, Errno>)
        requires
            self.wf(),
        ensures
            reply == self.getattr_reply(caller, ino),
    {
        let trusting = self.client_trust.is_some();
        if ino.0 == ROOT_INO || ino.0 == HOLDING_REGISTERS_INO || ino == self.coils_ino || ino
            == self.discrete_inputs_ino || ino == self.input_registers_ino || ino
            == self.file_records_ino || self.file_number_by_ino(ino).is_some() || (ino
            == self.transactions_ino && self.transactions_enabled()) || ino == self.report_ino || (
        ino == self.client_trust_ino && trusting) || (ino == self.client_trust_approved_ino
            && trusting) || (ino == self.connection_attempts_ino && trusting) {
            return Ok(self.directory_attr(ino, caller));
        }
        if let Some(content) = self.system_file(ino) {
            return Ok(self.attr_of_content(ino, content.as_str(), 0o444, caller));
        }
        if let Some(content) = self.fingerprint_file(ino) {
            return Ok(self.attr_of_content(ino, content.as_str(), 0o444, caller));
        }
        if let Some(attr) = self.data_file_attr(ino, caller) {
            return Ok(attr);
        }
        if let Some(content) = self.report_file(ino) {
            return Ok(self.attr_of_content(ino, content.as_str(), 0o444, caller));
        }
        match self.transaction_file(ino) {
            Some(content) => Ok(self.attr_of_content(ino, content.as_str(), 0o644, caller)),
            None => Err(Errno::ENOENT),
        }
    }

    /// The part of `bytes` from `offset` on, at most `size` bytes long.
    pub open spec fn window(bytes: Seq<u8>, offset: u64, size: u32) -> Seq<u8> {
        if offset >= bytes.len() {
            Seq::empty()
        } else if offset + size <= bytes.len() {
            bytes.subrange(offset as int, offset + size)
        } else {
            bytes.subrange(offset as int, bytes.len() as int)
        }
    }

    /// What a request to read `size` bytes of `ino` from `offset` on is answered.
    pub open spec fn read_reply(self, ino: INodeNo, offset: u64, size: u32) -> Result<
        Seq<u8>,
        Errno,
    > {
        match self.content_node(ino) {
            Some(node) => Ok(
                Self::window(vstd::utf8::encode_utf8(self.content(node)), offset, size),
            ),
            None => Err(Errno::ENOENT),
        }
    }

    /// At most `size` bytes of the content of the file `ino`, from `offset` on.
    pub fn read(&self, ino: INodeNo, offset: u64, size: u32) -> (reply: Result<Vec<u8>, Errno>)
        requires
            self.wf(),
        ensures
            reply matches Ok(data) ==> self.read_reply(ino, offset, size) == Ok::<Seq<u8>, Errno>(
                data@,
            ),
            reply matches Err(error) ==> self.read_reply(ino, offset, size) == Err::<
                Seq<u8>,
                Errno,
            >(error),
    {
        let content = if let Some((content, _)) = self.data_file(ino) {
            content
        } else if let Some(content) = self.report_file(ino) {
            content
        } else if let Some(content) = self.transaction_file(ino) {
            content
        } else if let Some(content) = self.fingerprint_file(ino) {
            content
        } else if let Some(content) = self.system_file(ino) {
            content
        } else {
            return Err(Errno::ENOENT);
        };
        let bytes = content.as_str().as_bytes();
        if offset >= bytes.len() as u64 {
            return Ok(Vec::new());
        }
        let start: usize = offset as usize;
        let end: usize = if (bytes.len() - start) as u64 <= size as u64 {
            bytes.len()
        } else {
            start + size as usize
        };
        Ok(vstd::slice::slice_to_vec(vstd::slice::slice_subrange(bytes, start, end)))
    }
}

/// Adds an entry to a listing.
fn push_entry(
    entries: &mut Vec<(INodeNo, FileType, String)>,
    ino: INodeNo,
    kind: FileType,
    name: &str,
)
    ensures
        listed(final(entries)@) == listed(old(entries)@).push((ino, kind, name@)),
        final(entries)@.len() == old(entries)@.len() + 1,
{
    entries.push((ino, kind, text::copy(name)));
    assert(listed(entries@) =~= listed(old(entries)@).push((ino, kind, name@)));
}

/// Starts the listing of the directory `own` in `parent`.
fn start_listing(own: INodeNo, parent: INodeNo) -> (entries: Vec<(INodeNo, FileType, String)>)
    ensures
        listed(entries@) == dots(own, parent),
{
    let mut entries: Vec<(INodeNo, FileType, String)> = Vec::new();
    push_entry(&mut entries, own, FileType::Directory, ".");
    push_entry(&mut entries, parent, FileType::Directory, "..");
    assert(listed(entries@) =~= dots(own, parent));
    entries
}

/// Adds the files of `items` to a listing, with the inodes of their names.
fn push_named<T: Named>(
    entries: &mut Vec<(INodeNo, FileType, String)>,
    items: &Vec<T>,
    inodes: &NameTable<INodeNo>,
)
    requires
        forall|i: int|
            0 <= i < items@.len() ==> inodes@.dom().contains((#[trigger] items@[i]).label()),
    ensures
        listed(final(entries)@) == listed(old(entries)@) + named_files(items@, inodes@),
{
    let ghost before = listed(entries@);
    let mut i: usize = 0;
    assert(before =~= before + named_files(items@, inodes@).take(0));
    while i < items.len()
        invariant
            i <= items@.len(),
            forall|i: int|
                0 <= i < items@.len() ==> inodes@.dom().contains((#[trigger] items@[i]).label()),
            listed(entries@) == before + named_files(items@, inodes@).take(i as int),
        decreases items@.len() - i,
    {
        assert(inodes@.dom().contains(items@[i as int].label()));
        let name = items[i].name();
        if let Some(ino) = inodes.get(name) {
            push_entry(entries, *ino, FileType::RegularFile, name);
        }
        assert(listed(entries@) =~= before + named_files(items@, inodes@).take(i + 1));
        i = i + 1;
    }
    assert(named_files(items@, inodes@).take(i as int) =~= named_files(items@, inodes@));
}

/// Adds the files of `items` to a listing, numbered from `first` on.
fn push_numbered<T: Named>(
    entries: &mut Vec<(INodeNo, FileType, String)>,
    items: &Vec<T>,
    first: u64,
)
    requires
        first + items@.len() <= u64::MAX,
    ensures
        listed(final(entries)@) == listed(old(entries)@) + numbered_files(items@, first as int),
{
    let ghost before = listed(entries@);
    let ghost files = numbered_files(items@, first as int);
    let mut i: usize = 0;
    assert(before =~= before + files.take(0));
    while i < items.len()
        invariant
            i <= items@.len(),
            first + items@.len() <= u64::MAX,
            files == numbered_files(items@, first as int),
            listed(entries@) == before + files.take(i as int),
        decreases items@.len() - i,
    {
        push_entry(entries, INodeNo(first + i as u64), FileType::RegularFile, items[i].name());
        assert(listed(entries@) =~= before + files.take(i + 1));
        i = i + 1;
    }
    assert(files.take(i as int) =~= files);
}

/// Every item has its name in the numbering.
pub proof fn lemma_inode_map_total<T: Named>(items: Seq<T>, first: int)
    ensures
        forall|i: int|
            0 <= i < items.len() ==> crate::filesystem::inode_map(items, first).dom().contains(
                (#[trigger] items[i]).label(),
            ),
    decreases items.len(),
{
    if items.len() > 0 {
        lemma_inode_map_total(items.drop_last(), first);
        assert forall|i: int| 0 <= i < items.len() implies crate::filesystem::inode_map(
            items,
            first,
        ).dom().contains((#[trigger] items[i]).label()) by {
            if i < items.len() - 1 {
                assert(items.drop_last()[i] == items[i]);
            }
        }
    }
}

impl InfusedFilesystem {
    /// The listing of the root directory.
    fn list_root(&self) -> (entries: Vec<(INodeNo, FileType, String)>)
        ensures
            listed(entries@) == self.root_listing(),
    {
        let root = INodeNo(ROOT_INO);
        let directory = FileType::Directory;
        let mut entries = start_listing(root, root);
        push_entry(&mut entries, INodeNo(HOLDING_REGISTERS_INO), directory, "holding-registers");
        push_entry(&mut entries, self.coils_ino, directory, "coils");
        push_entry(&mut entries, self.discrete_inputs_ino, directory, "discrete-inputs");
        push_entry(&mut entries, self.input_registers_ino, directory, "input-registers");
        push_entry(&mut entries, self.file_records_ino, directory, "file-records");
        push_entry(&mut entries, self.report_ino, directory, "report");
        assert(listed(entries@) =~= seq![
            (root, FileType::Directory, "."@),
            (root, FileType::Directory, ".."@),
            (INodeNo(HOLDING_REGISTERS_INO), FileType::Directory, "holding-registers"@),
            (self.coils_ino, FileType::Directory, "coils"@),
            (self.discrete_inputs_ino, FileType::Directory, "discrete-inputs"@),
            (self.input_registers_ino, FileType::Directory, "input-registers"@),
            (self.file_records_ino, FileType::Directory, "file-records"@),
            (self.report_ino, FileType::Directory, "report"@),
        ]);
        if self.transactions_enabled() {
            push_entry(&mut entries, self.transactions_ino, directory, "transactions");
        }
        if self.client_trust.is_some() {
            push_entry(&mut entries, self.client_trust_ino, directory, "client-trust");
        }
        if self.server_id.is_some() {
            push_entry(&mut entries, self.server_id_ino, FileType::RegularFile, "server-id");
        }
        entries
    }

    /// The listing of `client-trust/approved/`.
    fn list_approved(&self) -> (entries: Vec<(INodeNo, FileType, String)>)
        requires
            self.wf(),
        ensures
            listed(entries@) == self.listing(self.client_trust_approved_ino, Node::Approved),
    {
        let mut entries = start_listing(self.client_trust_approved_ino, self.client_trust_ino);
        let ghost before = listed(entries@);
        match &self.client_trust {
            Some(state) => {
                let approved = state.approved_entries();
                let ghost files = table_files(state.listing());
                let mut i: usize = 0;
                assert(before =~= before + files.take(0));
                while i < approved.len()
                    invariant
                        i <= approved@.len(),
                        approved@.len() == state.listing().len(),
                        files == table_files(state.listing()),
                        forall|k: int|
                            0 <= k < approved@.len() ==> {
                                &&& (#[trigger] approved@[k]).0@ == state.listing()[k].0@
                                &&& approved@[k].1 == state.listing()[k].1
                            },
                        listed(entries@) == before + files.take(i as int),
                    decreases approved@.len() - i,
                {
                    push_entry(
                        &mut entries,
                        approved[i].1,
                        FileType::RegularFile,
                        approved[i].0.as_str(),
                    );
                    assert(listed(entries@) =~= before + files.take(i + 1));
                    i = i + 1;
                }
                assert(files.take(i as int) =~= files);
            },
            None => {
                assert(before =~= before + Seq::<Listed>::empty());
            },
        }
        entries
    }

    /// The listing of a directory of values.
    fn list_values(&self, ino: INodeNo) -> (entries: Vec<(INodeNo, FileType, String)>)
        requires
            self.wf(),
            self.directory_at(ino) matches Some(node) && (node is HoldingRegisters || node is Coils
                || node is DiscreteInputs || node is InputRegisters),
        ensures
            listed(entries@) == self.listing(ino, self.directory_at(ino)->0),
    {
        proof {
            lemma_inode_map_total(self.registers@, FIRST_REGISTER_INO as int);
            lemma_inode_map_total(self.coils@, self.coils_ino.0 + 1);
            lemma_inode_map_total(self.discrete_inputs@, self.discrete_inputs_ino.0 + 1);
            lemma_inode_map_total(self.input_registers@, self.input_registers_ino.0 + 1);
        }
        let mut entries = start_listing(ino, INodeNo(ROOT_INO));
        if ino.0 == HOLDING_REGISTERS_INO {
            push_named(&mut entries, &self.registers, &self.name_to_ino);
        } else if ino == self.coils_ino {
            push_named(&mut entries, &self.coils, &self.coil_name_to_ino);
        } else if ino == self.discrete_inputs_ino {
            push_named(&mut entries, &self.discrete_inputs, &self.discrete_input_name_to_ino);
        } else {
            push_named(&mut entries, &self.input_registers, &self.input_register_name_to_ino);
        }
        entries
    }

    /// The listing of `file-records/`.
    fn list_file_numbers(&self) -> (entries: Vec<(INodeNo, FileType, String)>)
        requires
            self.wf(),
        ensures
            listed(entries@) == self.listing(self.file_records_ino, Node::FileRecords),
    {
        let mut entries = start_listing(self.file_records_ino, INodeNo(ROOT_INO));
        let ghost before = listed(entries@);
        let first: u64 = self.first_file_number_ino();
        let ghost files = number_directories(self.unique_file_numbers@, first as int);
        let mut i: usize = 0;
        assert(before =~= before + files.take(0));
        while i < self.unique_file_numbers.len()
            invariant
                self.wf(),
                i <= self.unique_file_numbers@.len(),
                first == self.file_records_ino.0 + 1,
                files == number_directories(self.unique_file_numbers@, first as int),
                listed(entries@) == before + files.take(i as int),
            decreases self.unique_file_numbers@.len() - i,
        {
            let mut name = String::new();
            numbers::push_decimal(&mut name, self.unique_file_numbers[i] as u64);
            assert(name@ =~= numbers::decimal(self.unique_file_numbers@[i as int] as nat));
            push_entry(
                &mut entries,
                INodeNo(first + i as u64),
                FileType::Directory,
                name.as_str(),
            );
            assert(listed(entries@) =~= before + files.take(i + 1));
            i = i + 1;
        }
        assert(files.take(i as int) =~= files);
        entries
    }

    /// The listing of the directory of `file_number`, which has the inode
    /// `ino`.
    fn list_records(&self, ino: INodeNo, file_number: u16) -> (entries: Vec<
        (INodeNo, FileType, String),
    >)
        requires
            self.wf(),
        ensures
            listed(entries@) == dots(ino, self.file_records_ino) + record_files(
                self.file_records@,
                self.first_record_ino(),
                file_number,
            ),
    {
        let mut entries = start_listing(ino, self.file_records_ino);
        let ghost before = listed(entries@);
        let first: u64 = self.first_file_record_ino();
        let mut i: usize = 0;
        assert(before =~= before + record_files(
            self.file_records@.take(0),
            first as int,
            file_number,
        ));
        while i < self.file_records.len()
            invariant
                self.wf(),
                i <= self.file_records@.len(),
                first == self.first_record_ino(),
                listed(entries@) == before + record_files(
                    self.file_records@.take(i as int),
                    first as int,
                    file_number,
                ),
            decreases self.file_records@.len() - i,
        {
            let record = &self.file_records[i];
            assert(self.file_records@.take(i + 1).drop_last() =~= self.file_records@.take(
                i as int,
            ));
            if record.file_number == file_number {
                let mut name = String::new();
                numbers::push_decimal(&mut name, record.record_number as u64);
                assert(name@ =~= numbers::decimal(record.record_number as nat));
                push_entry(
                    &mut entries,
                    INodeNo(first + i as u64),
                    FileType::RegularFile,
                    name.as_str(),
                );
            }
            assert(listed(entries@) =~= before + record_files(
                self.file_records@.take(i + 1),
                first as int,
                file_number,
            ));
            i = i + 1;
        }
        assert(self.file_records@.take(i as int) =~= self.file_records@);
        entries
    }

    /// The listing of `transactions/`.
    fn list_transactions(&self) -> (entries: Vec<(INodeNo, FileType, String)>)
        ensures
            listed(entries@) == self.listing(self.transactions_ino, Node::Transactions),
            self.transactions.name_to_ino.wf(),
    {
        let mut entries = start_listing(self.transactions_ino, INodeNo(ROOT_INO));
        let ghost before = listed(entries@);
        let ghost files = table_files(self.transactions.name_to_ino.items());
        let count: usize = self.transactions.name_to_ino.len();
        let mut i: usize = 0;
        assert(before =~= before + files.take(0));
        while i < count
            invariant
                i <= count,
                count == self.transactions.name_to_ino.items().len(),
                files == table_files(self.transactions.name_to_ino.items()),
                listed(entries@) == before + files.take(i as int),
            decreases count - i,
        {
            let (name, ino) = self.transactions.name_to_ino.entry(i);
            push_entry(&mut entries, *ino, FileType::RegularFile, name);
            assert(listed(entries@) =~= before + files.take(i + 1));
            i = i + 1;
        }
        assert(files.take(i as int) =~= files);
        entries
    }

    /// The entries of the directory `ino`.
    fn list(&self, ino: INodeNo) -> (entries: Option<Vec<(INodeNo, FileType, String)>>)
        requires
            self.wf(),
        ensures
            entries is Some <==> self.directory_at(ino) is Some,
            entries matches Some(e) ==> listed(e@) == self.listing(ino, self.directory_at(ino)->0),
            self.directory_at(ino) == Some(Node::Transactions)
                ==> self.transactions.name_to_ino.wf(),
    {
        let trusting = self.client_trust.is_some();
        if ino.0 == ROOT_INO {
            Some(self.list_root())
        } else if ino == self.client_trust_ino && trusting {
            let mut entries = start_listing(ino, INodeNo(ROOT_INO));
            push_entry(
                &mut entries,
                self.client_trust_approved_ino,
                FileType::Directory,
                "approved",
            );
            push_entry(
                &mut entries,
                self.connection_attempts_ino,
                FileType::Directory,
                "connection_attempts",
            );
            assert(listed(entries@) =~= self.listing(ino, Node::ClientTrust));
            Some(entries)
        } else if ino == self.connection_attempts_ino && trusting {
            let mut entries = start_listing(ino, self.client_trust_ino);
            let file = FileType::RegularFile;
            push_entry(&mut entries, self.approved_log_ino, file, "approved.log");
            push_entry(&mut entries, self.pending_log_ino, file, "pending.log");
            push_entry(&mut entries, self.rejected_log_ino, file, "rejected.log");
            assert(listed(entries@) =~= self.listing(ino, Node::ConnectionAttempts));
            Some(entries)
        } else if ino == self.client_trust_approved_ino {
            Some(self.list_approved())
        } else if ino.0 == HOLDING_REGISTERS_INO || ino == self.coils_ino || ino
            == self.discrete_inputs_ino || ino == self.input_registers_ino {
            Some(self.list_values(ino))
        } else if ino == self.file_records_ino {
            Some(self.list_file_numbers())
        } else if let Some(file_number) = self.file_number_by_ino(ino) {
            Some(self.list_records(ino, file_number))
        } else if ino == self.transactions_ino && self.transactions_enabled() {
            Some(self.list_transactions())
        } else if ino == self.report_ino {
            let mut entries = start_listing(ino, INodeNo(ROOT_INO));
            push_numbered(&mut entries, &self.registers, self.first_report_ino());
            push_numbered(&mut entries, &self.coils, self.first_coil_report_ino());
            Some(entries)
        } else {
            None
        }
    }

    /// What a request for the entries of `ino` from `offset` on is answered.
    pub open spec fn readdir_reply(self, ino: INodeNo, offset: u64) -> Result<
        Seq<(Listed, int)>,
        Errno,
    > {
        match self.directory_at(ino) {
            Some(directory) => Ok(entries_from(self.listing(ino, directory), offset as int)),
            None => Err(Errno::ENOTDIR),
        }
    }

    /// The entries of the directory `ino` from the entry `offset` on.
    pub fn readdir(&self, ino: INodeNo, offset: u64) -> (reply: Result<Vec<DirEntry>, Errno>)
        requires
            self.wf(),
        ensures
            reply matches Ok(entries) ==> self.readdir_reply(ino, offset) == Ok::<
                Seq<(Listed, int)>,
                Errno,
            >(entry_views(entries@)),
            reply matches Err(error) ==> self.readdir_reply(ino, offset) == Err::<
                Seq<(Listed, int)>,
                Errno,
            >(error),
            self.directory_at(ino) == Some(Node::Transactions)
                ==> self.transactions.name_to_ino.wf(),
    {
        let all = match self.list(ino) {
            Some(entries) => entries,
            None => {
                return Err(Errno::ENOTDIR);
            },
        };
        let ghost expected = self.listing(ino, self.directory_at(ino)->0);
        let mut entries: Vec<DirEntry> = Vec::new();
        let count: usize = all.len();
        if offset < count as u64 {
            let mut i: usize = offset as usize;
            while i < count
                invariant
                    offset <= i <= count,
                    count == all@.len(),
                    listed(all@) == expected,
                    entries@.len() == i - offset,
                    forall|k: int|
                        0 <= k < entries@.len() ==> {
                            &&& ((#[trigger] entries@[k]).ino, entries@[k].kind, entries@[k].name@)
                                == expected[offset + k]
                            &&& entries@[k].next_offset == offset + k + 1
                        },
                decreases count - i,
            {
                assert(expected[i as int] == (all@[i as int].0, all@[i as int].1, all@[
                i as int].2@));
                entries.push(
                    DirEntry {
                        ino: all[i].0,
                        kind: all[i].1,
                        name: all[i].2.clone(),
                        next_offset: i as u64 + 1,
                    },
                );
                i = i + 1;
            }
        }
        assert(listed(all@).len() == all@.len());
        assert(entry_views(entries@) =~= entries_from(expected, offset as int));
        Ok(entries)
    }
}

} // verus!
