//! What is found and read under each path of the file system, and what a change of one
//! value changes of it.

use crate::client_trust::law_log_shows_its_lines;
use crate::device_description::{AccessRight, FileRecordDescription};
use crate::filesystem::{
    file_numbers, first_named, is_first_record, Errno, FileAttr, FileType, InfusedFilesystem,
    Named, Node, Owner, WriteMode,
};
use crate::filesystem_laws::names_differ;
use crate::inode::INodeNo;
use crate::numbers;
use crate::operations::{
    entries_from, lemma_first_record_exists, lemma_first_record_unique, lemma_inode_map,
    lemma_inode_map_total, record_files,
};
use crate::permissions::DirectoryPermissions;
use crate::values::{CoilValue, RegisterValue, WriteStatus};
use vstd::prelude::*;

verus! {

/// Whether `data` is what `bytes` hold from `offset` on, at most `size` of them.
pub open spec fn is_piece(data: Seq<u8>, bytes: Seq<u8>, offset: int, size: int) -> bool {
    &&& data.len() <= size
    &&& offset <= bytes.len() ==> offset + data.len() <= bytes.len()
    &&& offset > bytes.len() ==> data.len() == 0
    &&& data.len() < size && offset <= bytes.len() ==> offset + data.len() == bytes.len()
    &&& forall|k: int| 0 <= k < data.len() ==> #[trigger] data[k] == bytes[offset + k]
}

impl FileAttr {
    /// Whether what is the same of all directories, and of all files, is as it should be.
    pub open spec fn has_usual_fields(self) -> bool {
        &&& self.nlink == (if self.kind == FileType::Directory {
            2u32
        } else {
            1u32
        })
        &&& self.kind == FileType::Directory ==> self.size == 0
        &&& self.blksize == 512
        &&& self.blocks == 0
        &&& self.rdev == 0
        &&& self.flags == 0
    }
}

impl InfusedFilesystem {
    /// The inode that is found by looking up the names of `path`, each in the directory
    /// that was found before it, from the root on.
    pub open spec fn at_path(self, caller: Owner, path: Seq<Seq<char>>) -> Option<INodeNo>
        decreases path.len(),
    {
        if path.len() == 0 {
            Some(INodeNo(1))
        } else {
            match self.at_path(caller, path.drop_last()) {
                Some(directory) => match self.lookup_reply(caller, directory, path.last()) {
                    Ok(attr) => Some(attr.ino),
                    Err(_) => None,
                },
                None => None,
            }
        }
    }

    /// Whether `text` is what is read of `ino`, at any offset.
    pub open spec fn shows(self, ino: INodeNo, text: Seq<char>) -> bool {
        forall|offset: u64, size: u32|
            (#[trigger] self.read_reply(ino, offset, size)) matches Ok(data) && is_piece(
                data,
                vstd::utf8::encode_utf8(text),
                offset as int,
                size as int,
            )
    }

    /// Whether `path` leads to a file that reads as `text`.
    pub open spec fn shows_at(self, caller: Owner, path: Seq<Seq<char>>, text: Seq<char>) -> bool {
        &&& self.at_path(caller, path) matches Some(ino)
        &&& self.shows(ino, text)
    }

    proof fn lemma_shows(self, ino: INodeNo)
        requires
            self.content_node(ino) is Some,
        ensures
            self.shows(ino, self.content(self.content_node(ino)->0)),
    {
        let bytes = vstd::utf8::encode_utf8(self.content(self.content_node(ino)->0));
        assert forall|offset: u64, size: u32|
            (#[trigger] self.read_reply(ino, offset, size)) matches Ok(data) && is_piece(
                data,
                bytes,
                offset as int,
                size as int,
            ) by {}
    }

    /// What a directory at the root has under a name is what its path leads to.
    proof fn lemma_in_directory(self, caller: Owner, directory: Seq<char>, name: Seq<char>)
        requires
            self.root_child(directory) is Some,
            self.directory_at((self.root_child(directory)->0).0) is Some,
            self.child(
                self.directory_at((self.root_child(directory)->0).0)->0,
                name,
            ) is Some,
        ensures
            self.at_path(caller, seq![directory, name]) == Some(
                (self.child(
                    self.directory_at((self.root_child(directory)->0).0)->0,
                    name,
                )->0).0,
            ),
    {
        let path = seq![directory, name];
        let first = path.drop_last();
        assert(first.drop_last() =~= Seq::<Seq<char>>::empty());
        assert(first.last() == directory);
        assert(self.at_path(caller, first.drop_last()) == Some(INodeNo(1)));
        assert(self.at_path(caller, first) == Some((self.root_child(directory)->0).0));
    }

    proof fn lemma_at_root(self, caller: Owner, name: Seq<char>)
        ensures
            self.at_path(caller, seq![name]) == match self.root_child(name) {
                Some((ino, _)) => Some(ino),
                None => None,
            },
    {
        let path = seq![name];
        assert(path.drop_last() =~= Seq::<Seq<char>>::empty());
        assert(self.at_path(caller, path.drop_last()) == Some(INodeNo(1)));
    }

    /// The names at the root are told apart.
    proof fn lemma_root_names(self)
        ensures
            self.root_child("holding-registers"@) == Some(
                (INodeNo(2), Node::HoldingRegisters),
            ),
            self.root_child("coils"@) == Some((self.coils_ino, Node::Coils)),
            self.root_child("discrete-inputs"@) == Some(
                (self.discrete_inputs_ino, Node::DiscreteInputs),
            ),
            self.root_child("input-registers"@) == Some(
                (self.input_registers_ino, Node::InputRegisters),
            ),
            self.root_child("file-records"@) == Some((self.file_records_ino, Node::FileRecords)),
            self.root_child("report"@) == Some((self.report_ino, Node::Report)),
            self.root_child("transactions"@) == if self.write_mode == WriteMode::Staged {
                Some((self.transactions_ino, Node::Transactions))
            } else {
                None
            },
            self.root_child("client-trust"@) == if self.client_trust is Some {
                Some((self.client_trust_ino, Node::ClientTrust))
            } else {
                None
            },
            self.root_child("server-id"@) == if self.server_id is Some {
                Some((self.server_id_ino, Node::ServerId))
            } else {
                None
            },
    {
        reveal_strlit("holding-registers");
        reveal_strlit("coils");
        reveal_strlit("discrete-inputs");
        reveal_strlit("input-registers");
        reveal_strlit("file-records");
        reveal_strlit("transactions");
        reveal_strlit("report");
        reveal_strlit("client-trust");
        reveal_strlit("server-id");
        assert("holding-registers"@.len() == 17);
        assert("coils"@.len() == 5);
        assert("discrete-inputs"@.len() == 15 && "discrete-inputs"@[0] == 'd');
        assert("input-registers"@.len() == 15 && "input-registers"@[0] == 'i');
        assert("file-records"@.len() == 12 && "file-records"@[0] == 'f');
        assert("transactions"@.len() == 12 && "transactions"@[0] == 't');
        assert("report"@.len() == 6);
        assert("client-trust"@.len() == 12 && "client-trust"@[0] == 'c');
        assert("server-id"@.len() == 9);
    }

    /// The file of each register in `holding-registers/` shows the value that the store
    /// holds under the name of that very register, and a newline; nothing while it
    /// holds none.
    pub proof fn law_register_file_shows_its_value(self, caller: Owner, i: int)
        requires
            self.wf(),
            0 <= i < self.registers@.len(),
        ensures
            ({
                let name = self.registers@[i].name@;
                self.shows_at(
                    caller,
                    seq!["holding-registers"@, name],
                    if self.store@.dom().contains(name) {
                        self.store@[name].text() + seq!['\n']
                    } else {
                        Seq::empty()
                    },
                )
            }),
    {
        let name = self.registers@[i].name@;
        assert(self.registers@[i].label() == name);
        lemma_inode_map_total(self.registers@, 3);
        lemma_inode_map(self.registers@, 3, name);
        self.lemma_root_names();
        self.lemma_in_directory(caller, "holding-registers"@, name);
        let ino = self.name_to_ino@[name];
        self.lemma_shows(ino);
        assert(self.store@[name].text() + seq!['\n'] =~= self.store@[name].text().push('\n'));
        assert(self.at_path(caller, seq!["holding-registers"@, name]) == Some(ino));
    }

    /// The file of each coil in `coils/` shows the value that the store holds under the
    /// name of that very coil, and a newline; nothing while it holds none.
    pub proof fn law_coil_file_shows_its_value(self, caller: Owner, i: int)
        requires
            self.wf(),
            0 <= i < self.coils@.len(),
        ensures
            ({
                let name = self.coils@[i].name@;
                self.shows_at(
                    caller,
                    seq!["coils"@, name],
                    if self.coil_store@.dom().contains(name) {
                        self.coil_store@[name].text() + seq!['\n']
                    } else {
                        Seq::empty()
                    },
                )
            }),
    {
        let name = self.coils@[i].name@;
        assert(self.coils@[i].label() == name);
        lemma_inode_map_total(self.coils@, self.coils_ino.0 + 1);
        lemma_inode_map(self.coils@, self.coils_ino.0 + 1, name);
        self.lemma_root_names();
        self.lemma_in_directory(caller, "coils"@, name);
        let ino = self.coil_name_to_ino@[name];
        self.lemma_shows(ino);
        assert(self.coil_store@[name].text() + seq!['\n'] =~= self.coil_store@[name].text().push(
            '\n',
        ));
        assert(self.at_path(caller, seq!["coils"@, name]) == Some(ino));
    }

    /// The file of each discrete input in `discrete-inputs/` shows the value that the
    /// store holds under the name of that very input, and a newline; nothing while it
    /// holds none.
    pub proof fn law_discrete_input_file_shows_its_value(self, caller: Owner, i: int)
        requires
            self.wf(),
            0 <= i < self.discrete_inputs@.len(),
        ensures
            ({
                let name = self.discrete_inputs@[i].name@;
                self.shows_at(
                    caller,
                    seq!["discrete-inputs"@, name],
                    if self.discrete_input_store@.dom().contains(name) {
                        self.discrete_input_store@[name].text() + seq!['\n']
                    } else {
                        Seq::empty()
                    },
                )
            }),
    {
        let name = self.discrete_inputs@[i].name@;
        let first = self.discrete_inputs_ino.0 + 1;
        assert(self.discrete_inputs@[i].label() == name);
        lemma_inode_map_total(self.discrete_inputs@, first);
        lemma_inode_map(self.discrete_inputs@, first, name);
        self.lemma_root_names();
        self.lemma_in_directory(caller, "discrete-inputs"@, name);
        let ino = self.discrete_input_name_to_ino@[name];
        self.lemma_shows(ino);
        let text = self.discrete_input_store@[name].text();
        assert(text + seq!['\n'] =~= text.push('\n'));
        assert(self.at_path(caller, seq!["discrete-inputs"@, name]) == Some(ino));
    }

    /// The file of each input register in `input-registers/` shows the value that the
    /// store holds under the name of that very register, and a newline; nothing while
    /// it holds none.
    pub proof fn law_input_register_file_shows_its_value(self, caller: Owner, i: int)
        requires
            self.wf(),
            0 <= i < self.input_registers@.len(),
        ensures
            ({
                let name = self.input_registers@[i].name@;
                self.shows_at(
                    caller,
                    seq!["input-registers"@, name],
                    if self.input_register_store@.dom().contains(name) {
                        self.input_register_store@[name].text() + seq!['\n']
                    } else {
                        Seq::empty()
                    },
                )
            }),
    {
        let name = self.input_registers@[i].name@;
        let first = self.input_registers_ino.0 + 1;
        assert(self.input_registers@[i].label() == name);
        lemma_inode_map_total(self.input_registers@, first);
        lemma_inode_map(self.input_registers@, first, name);
        self.lemma_root_names();
        self.lemma_in_directory(caller, "input-registers"@, name);
        let ino = self.input_register_name_to_ino@[name];
        self.lemma_shows(ino);
        let text = self.input_register_store@[name].text();
        assert(text + seq!['\n'] =~= text.push('\n'));
        assert(self.at_path(caller, seq!["input-registers"@, name]) == Some(ino));
    }

    /// The file in `report/` of each register or coil shows how the last write under its
    /// name went, and a newline; nothing before the first write.
    pub proof fn law_report_file_shows_the_last_write(self, caller: Owner, name: Seq<char>)
        requires
            self.wf(),
            (exists|i: int|
                0 <= i < self.registers@.len() && (#[trigger] self.registers@[i]).name@ == name)
                || (exists|i: int|
                0 <= i < self.coils@.len() && (#[trigger] self.coils@[i]).name@ == name),
        ensures
            self.shows_at(
                caller,
                seq!["report"@, name],
                if self.report@.dom().contains(name) {
                    self.report@[name].text() + seq!['\n']
                } else {
                    Seq::empty()
                },
            ),
    {
        lemma_found(self.registers@, name);
        lemma_found(self.coils@, name);
        if exists|i: int|
            0 <= i < self.registers@.len() && (#[trigger] self.registers@[i]).name@ == name {
            let i = choose|i: int|
                0 <= i < self.registers@.len() && (#[trigger] self.registers@[i]).name@ == name;
            assert(self.registers@[i].label() == name);
        } else {
            let i = choose|i: int|
                0 <= i < self.coils@.len() && (#[trigger] self.coils@[i]).name@ == name;
            assert(self.coils@[i].label() == name);
        }
        self.lemma_root_names();
        self.lemma_in_directory(caller, "report"@, name);
        let ino = (self.report_child(name)->0).0;
        self.lemma_shows(ino);
        let text = self.report@[name].text();
        assert(text + seq!['\n'] =~= text.push('\n'));
        assert(self.at_path(caller, seq!["report"@, name]) == Some(ino));
    }

    /// The file of a staged write in `transactions/` shows what is staged under its name,
    /// and a newline; nothing while nothing is.
    pub proof fn law_staged_file_shows_what_is_staged(self, caller: Owner, name: Seq<char>)
        requires
            self.in_order(),
            self.write_mode == WriteMode::Staged,
            self.transactions.name_to_ino@.dom().contains(name),
        ensures
            self.shows_at(
                caller,
                seq!["transactions"@, name],
                if self.transactions.pending@.dom().contains(name) {
                    self.transactions.pending@[name]@.text() + seq!['\n']
                } else {
                    Seq::empty()
                },
            ),
    {
        self.lemma_root_names();
        self.lemma_in_directory(caller, "transactions"@, name);
        let ino = self.transactions.name_to_ino@[name];
        self.law_inodes_do_not_collide(ino);
        assert(self.content_node(ino) == Some(Node::Transaction(name)));
        self.lemma_shows(ino);
        let text = self.transactions.pending@[name]@.text();
        assert(text + seq!['\n'] =~= text.push('\n'));
        assert(self.at_path(caller, seq!["transactions"@, name]) == Some(ino));
    }

    /// The file `server-id` shows the name of the server and a newline; it is there
    /// where the server has one.
    pub proof fn law_server_id_is_shown(self, caller: Owner)
        requires
            self.in_order(),
        ensures
            self.at_path(caller, seq!["server-id"@]) is Some <==> self.server_id is Some,
            self.server_id matches Some(id) ==> self.shows_at(
                caller,
                seq!["server-id"@],
                id@ + seq!['\n'],
            ),
    {
        self.lemma_root_names();
        self.lemma_at_root(caller, "server-id"@);
        if let Some(id) = self.server_id {
            self.law_inodes_do_not_collide(self.server_id_ino);
            assert(self.content_node(self.server_id_ino) == Some(Node::ServerId));
            self.lemma_shows(self.server_id_ino);
            assert(id@ + seq!['\n'] =~= id@.push('\n'));
        }
    }

    /// The file of a record in `file-records/`, by the decimal numbers of the file and
    /// of the record, shows the bytes that the store holds under these numbers, or as
    /// many zeros as the record has room for.
    pub proof fn law_record_file_shows_its_bytes(self, caller: Owner, i: int)
        requires
            self.wf(),
            is_first_record(
                self.file_records@,
                i,
                self.file_records@[i].file_number,
                self.file_records@[i].record_number,
            ),
        ensures
            ({
                let record = self.file_records@[i];
                let key = (record.file_number, record.record_number);
                self.shows_at(
                    caller,
                    seq![
                        "file-records"@,
                        numbers::decimal(record.file_number as nat),
                        numbers::decimal(record.record_number as nat),
                    ],
                    crate::parsing::hex_dump(
                        if self.file_record_store@.dom().contains(key) {
                            self.file_record_store@[key]
                        } else {
                            Seq::new(2 * record.record_length as nat, |k: int| 0u8)
                        },
                    ) + seq!['\n'],
                )
            }),
    {
        let record = self.file_records@[i];
        let file = numbers::decimal(record.file_number as nat);
        let place = numbers::decimal(record.record_number as nat);
        let key = (record.file_number, record.record_number);
        crate::filesystem_laws::lemma_decimal_is_number(record.file_number);
        crate::filesystem_laws::lemma_decimal_is_number(record.record_number);
        crate::filesystem::lemma_file_numbers_distinct(self.file_records@);
        let f = self.unique_file_numbers@.index_of(record.file_number);
        assert(self.unique_file_numbers@.contains(record.file_number));
        assert(0 <= f < self.unique_file_numbers@.len());
        assert(self.unique_file_numbers@[f] == record.file_number);
        self.lemma_root_names();
        self.lemma_in_directory(caller, "file-records"@, file);
        let directory = INodeNo((self.file_records_ino.0 + 1 + f) as u64);
        assert(self.at_path(caller, seq!["file-records"@, file]) == Some(directory));
        assert(self.directory_at(directory) == Some(Node::FileNumber(f)));
        let path = seq!["file-records"@, file, place];
        assert(path.drop_last() =~= seq!["file-records"@, file]);
        let chosen = choose|k: int|
            is_first_record(
                self.file_records@,
                k,
                record.file_number,
                record.record_number,
            );
        lemma_first_record_unique(
            self.file_records@,
            i,
            chosen,
            record.file_number,
            record.record_number,
        );
        let ino = INodeNo((self.first_record_ino() + i) as u64);
        assert(self.child(Node::FileNumber(f), place) == Some((ino, Node::FileRecord(i))));
        assert(self.at_path(caller, path) == Some(ino));
        self.lemma_shows(ino);
        let bytes = if self.file_record_store@.dom().contains(key) {
            self.file_record_store@[key]
        } else {
            Seq::new(2 * record.record_length as nat, |k: int| 0u8)
        };
        assert(crate::filesystem::record_bytes(self.file_record_store@, record) =~= bytes);
        let text = crate::parsing::hex_dump(bytes);
        assert(text + seq!['\n'] =~= text.push('\n'));
    }

    /// A new value of a register changes what is read of no file but that of its name.
    pub proof fn law_setting_a_register_changes_its_file_alone(
        before: Self,
        after: Self,
        name: Seq<char>,
        value: RegisterValue,
        ino: INodeNo,
        offset: u64,
        size: u32,
    )
        requires
            before.wf(),
            after == (InfusedFilesystem { store: after.store, ..before }),
            after.store@ == before.store@.insert(name, value),
            forall|i: int|
                0 <= i < before.registers@.len() && (#[trigger] before.registers@[i]).name@ == name
                    ==> ino.0 != 3 + i,
        ensures
            after.wf(),
            after.read_reply(ino, offset, size) == before.read_reply(ino, offset, size),
    {
    }

    /// A new value of a coil changes what is read of no file but that of its name.
    pub proof fn law_setting_a_coil_changes_its_file_alone(
        before: Self,
        after: Self,
        name: Seq<char>,
        value: CoilValue,
        ino: INodeNo,
        offset: u64,
        size: u32,
    )
        requires
            before.wf(),
            after == (InfusedFilesystem { coil_store: after.coil_store, ..before }),
            after.coil_store@ == before.coil_store@.insert(name, value),
            forall|i: int|
                0 <= i < before.coils@.len() && (#[trigger] before.coils@[i]).name@ == name
                    ==> ino.0 != before.coils_ino.0 + 1 + i,
        ensures
            after.wf(),
            after.read_reply(ino, offset, size) == before.read_reply(ino, offset, size),
    {
    }

    /// A new value of a discrete input changes what is read of no file but that of its name.
    pub proof fn law_setting_a_discrete_input_changes_its_file_alone(
        before: Self,
        after: Self,
        name: Seq<char>,
        value: CoilValue,
        ino: INodeNo,
        offset: u64,
        size: u32,
    )
        requires
            before.wf(),
            after == (InfusedFilesystem {
                discrete_input_store: after.discrete_input_store,
                ..before
            }),
            after.discrete_input_store@ == before.discrete_input_store@.insert(name, value),
            forall|i: int|
                0 <= i < before.discrete_inputs@.len() && (
                #[trigger] before.discrete_inputs@[i]).name@ == name ==> ino.0
                    != before.discrete_inputs_ino.0 + 1 + i,
        ensures
            after.wf(),
            after.read_reply(ino, offset, size) == before.read_reply(ino, offset, size),
    {
    }

    /// A new value of an input register changes what is read of no file but that of its name.
    pub proof fn law_setting_an_input_register_changes_its_file_alone(
        before: Self,
        after: Self,
        name: Seq<char>,
        value: RegisterValue,
        ino: INodeNo,
        offset: u64,
        size: u32,
    )
        requires
            before.wf(),
            after == (InfusedFilesystem {
                input_register_store: after.input_register_store,
                ..before
            }),
            after.input_register_store@ == before.input_register_store@.insert(name, value),
            forall|i: int|
                0 <= i < before.input_registers@.len() && (
                #[trigger] before.input_registers@[i]).name@ == name ==> ino.0
                    != before.input_registers_ino.0 + 1 + i,
        ensures
            after.wf(),
            after.read_reply(ino, offset, size) == before.read_reply(ino, offset, size),
    {
    }

    /// A new status in the report changes what is read of no file but those of its name in
    /// `report/`.
    pub proof fn law_reporting_changes_its_file_alone(
        before: Self,
        after: Self,
        name: Seq<char>,
        value: WriteStatus,
        ino: INodeNo,
        offset: u64,
        size: u32,
    )
        requires
            before.wf(),
            after == (InfusedFilesystem { report: after.report, ..before }),
            after.report@ == before.report@.insert(name, value),
            forall|i: int|
                0 <= i < before.registers@.len() && (#[trigger] before.registers@[i]).name@ == name
                    ==> ino.0 != before.report_ino.0 + 1 + i,
            forall|i: int|
                0 <= i < before.coils@.len() && (#[trigger] before.coils@[i]).name@ == name
                    ==> ino.0 != before.report_ino.0 + 1 + before.registers@.len() + i,
        ensures
            after.wf(),
            after.read_reply(ino, offset, size) == before.read_reply(ino, offset, size),
    {
    }

    /// New bytes of a file record change what is read of no file but that of the record.
    pub proof fn law_setting_a_record_changes_its_file_alone(
        before: Self,
        after: Self,
        key: (u16, u16),
        value: Seq<u8>,
        ino: INodeNo,
        offset: u64,
        size: u32,
    )
        requires
            before.wf(),
            after == (InfusedFilesystem { file_record_store: after.file_record_store, ..before }),
            after.file_record_store@ == before.file_record_store@.insert(key, value),
            forall|i: int|
                0 <= i < before.file_records@.len() && (
                #[trigger] before.file_records@[i]).file_number == key.0
                    && before.file_records@[i].record_number == key.1 ==> ino.0
                    != before.first_record_ino() + i,
        ensures
            after.wf(),
            after.read_reply(ino, offset, size) == before.read_reply(ino, offset, size),
    {
    }

    /// Setting the value of a register is seen in its file, and in that of no register of
    /// another name.
    pub proof fn law_set_register_is_seen(
        before: Self,
        after: Self,
        caller: Owner,
        name: Seq<char>,
        value: RegisterValue,
        i: int,
        text: Seq<char>,
    )
        requires
            before.wf(),
            after == (InfusedFilesystem { store: after.store, ..before }),
            after.store@ == before.store@.insert(name, value),
            0 <= i < before.registers@.len(),
        ensures
            before.registers@[i].name@ == name ==> after.shows_at(
                caller,
                seq!["holding-registers"@, name],
                value.text() + seq!['\n'],
            ),
            before.registers@[i].name@ != name && before.shows_at(
                caller,
                seq!["holding-registers"@, before.registers@[i].name@],
                text,
            ) ==> after.shows_at(
                caller,
                seq!["holding-registers"@, before.registers@[i].name@],
                text,
            ),
    {
        let own = before.registers@[i].name@;
        after.law_register_file_shows_its_value(caller, i);
        if own != name {
            lemma_inode_map_total(before.registers@, 3);
            assert(before.registers@[i].label() == own);
            lemma_inode_map(before.registers@, 3, own);
            before.lemma_root_names();
            after.lemma_root_names();
            before.lemma_in_directory(caller, "holding-registers"@, own);
            after.lemma_in_directory(caller, "holding-registers"@, own);
            let path = seq!["holding-registers"@, own];
            let ino = before.name_to_ino@[own];
            assert(before.at_path(caller, path) == Some(ino));
            assert(after.at_path(caller, path) == Some(ino));
            assert(before.registers@[ino.0 - 3].label() == own);
            if before.shows_at(caller, path, text) {
                assert forall|offset: u64, size: u32|
                    (#[trigger] after.read_reply(ino, offset, size)) matches Ok(data) && is_piece(
                        data,
                        vstd::utf8::encode_utf8(text),
                        offset as int,
                        size as int,
                    ) by {
                    Self::law_setting_a_register_changes_its_file_alone(
                        before,
                        after,
                        name,
                        value,
                        ino,
                        offset,
                        size,
                    );
                    assert(before.read_reply(ino, offset, size) is Ok);
                }
            }
        }
    }

    /// Reading a file in two parts, the second from where the first ends, gives what
    /// reading it at once gives.
    pub proof fn law_reads_join(self, ino: INodeNo, offset: u64, first: u32, second: u32)
        requires
            offset + first <= u64::MAX,
            first + second <= u32::MAX,
            self.read_reply(ino, offset, first) is Ok,
        ensures
            self.read_reply(ino, (offset + first) as u64, second) is Ok,
            self.read_reply(ino, offset, (first + second) as u32) is Ok,
            self.read_reply(ino, offset, (first + second) as u32)->Ok_0 == self.read_reply(
                ino,
                offset,
                first,
            )->Ok_0 + self.read_reply(ino, (offset + first) as u64, second)->Ok_0,
    {
        assert(self.read_reply(ino, offset, (first + second) as u32)->Ok_0 =~= self.read_reply(
            ino,
            offset,
            first,
        )->Ok_0 + self.read_reply(ino, (offset + first) as u64, second)->Ok_0);
    }

    /// The attributes of a file give the length of what is read of it.
    pub proof fn law_size_is_what_is_read(self, caller: Owner, ino: INodeNo, text: Seq<char>)
        requires
            self.in_order(),
            self.shows(ino, text),
            vstd::utf8::encode_utf8(text).len() < u32::MAX,
        ensures
            self.getattr_reply(caller, ino) matches Ok(attr) && attr.ino == ino && attr.kind
                == FileType::RegularFile && attr.size == vstd::utf8::encode_utf8(text).len(),
    {
        assert(self.read_reply(ino, 0, u32::MAX) is Ok);
        assert(self.content_node(ino) is Some);
        self.law_readable_files_have_attributes(ino);
    }

    /// The directories of the root that can be configured have the mode and the owner of
    /// their own configuration. The others are open to all and belong to who asks, but
    /// for `client-trust/`, which is closed to all but the process.
    pub proof fn law_directories_are_as_configured(self, caller: Owner)
        requires
            self.in_order(),
        ensures
            ({
                let root = INodeNo(1);
                let of = |attr: FileAttr, p: DirectoryPermissions|
                    attr.kind == FileType::Directory && attr.perm == p.mode && attr.uid == p.uid
                        && attr.gid == p.gid;
                let open = DirectoryPermissions { mode: 0o755, uid: caller.uid, gid: caller.gid };
                let closed = DirectoryPermissions {
                    mode: 0o700,
                    uid: self.process.uid,
                    gid: self.process.gid,
                };
                let p = self.permissions;
                &&& self.lookup_reply(caller, root, "holding-registers"@) matches Ok(attr) && of(
                    attr,
                    p.holding_registers,
                )
                &&& self.lookup_reply(caller, root, "coils"@) matches Ok(attr) && of(attr, p.coils)
                &&& self.lookup_reply(caller, root, "report"@) matches Ok(attr) && of(
                    attr,
                    p.report,
                )
                &&& self.write_mode == WriteMode::Staged ==> (self.lookup_reply(
                    caller,
                    root,
                    "transactions"@,
                ) matches Ok(attr) && of(attr, p.transactions))
                &&& self.lookup_reply(caller, root, "discrete-inputs"@) matches Ok(attr) && of(
                    attr,
                    open,
                )
                &&& self.lookup_reply(caller, root, "input-registers"@) matches Ok(attr) && of(
                    attr,
                    open,
                )
                &&& self.lookup_reply(caller, root, "file-records"@) matches Ok(attr) && of(
                    attr,
                    open,
                )
                &&& self.client_trust is Some ==> (self.lookup_reply(
                    caller,
                    root,
                    "client-trust"@,
                ) matches Ok(attr) && of(attr, closed))
            }),
    {
        self.lemma_root_names();
        self.lemma_no_staged_file_at(self.discrete_inputs_ino);
        self.lemma_no_staged_file_at(self.input_registers_ino);
        self.lemma_no_staged_file_at(self.file_records_ino);
        self.lemma_no_staged_file_at(self.report_ino);
    }

    proof fn lemma_no_staged_file_at(self, ino: INodeNo)
        requires
            self.in_order(),
            ino.0 < self.fixed_end(),
        ensures
            self.transaction_at(ino) is None,
    {
        if self.transactions.ino_to_name@.dom().contains(ino.0) {
            let name = self.transactions.ino_to_name@[ino.0]@;
            assert(self.transactions.name_to_ino@.dom().contains(name));
        }
    }

    /// The files of registers belong to whom `holding-registers/` belongs. One is writable
    /// where values are written directly and the register may be written, and readable by
    /// all in any case.
    pub proof fn law_register_file_attributes(self, caller: Owner, i: int)
        requires
            self.wf(),
            names_differ(self.registers@),
            0 <= i < self.registers@.len(),
        ensures
            self.lookup_reply(caller, INodeNo(2), self.registers@[i].name@) matches Ok(attr)
                && attr.kind == FileType::RegularFile && attr.uid
                == self.permissions.holding_registers.uid && attr.gid
                == self.permissions.holding_registers.gid && attr.perm == (if self.write_mode
                == WriteMode::Direct && self.registers@[i].access == AccessRight::ReadWrite {
                0o644u16
            } else {
                0o444u16
            }),
    {
        lemma_inode_map_total(self.registers@, 3);
        assert(self.registers@[i].label() == self.registers@[i].name@);
        lemma_inode_map(self.registers@, 3, self.registers@[i].name@);
        let ino = self.name_to_ino@[self.registers@[i].name@];
        assert(self.registers@[ino.0 - 3].label() == self.registers@[i].label());
        assert(ino.0 - 3 == i);
    }

    /// The files of coils belong to whom `coils/` belongs, and are writable where values
    /// are written directly.
    pub proof fn law_coil_file_attributes(self, caller: Owner, i: int)
        requires
            self.wf(),
            0 <= i < self.coils@.len(),
        ensures
            self.lookup_reply(caller, self.coils_ino, self.coils@[i].name@) matches Ok(attr)
                && attr.kind == FileType::RegularFile && attr.uid == self.permissions.coils.uid
                && attr.gid == self.permissions.coils.gid && attr.perm == (if self.write_mode
                == WriteMode::Direct {
                0o644u16
            } else {
                0o444u16
            }),
    {
        lemma_inode_map_total(self.coils@, self.coils_ino.0 + 1);
        assert(self.coils@[i].label() == self.coils@[i].name@);
        lemma_inode_map(self.coils@, self.coils_ino.0 + 1, self.coils@[i].name@);
    }

    /// The files of discrete inputs belong to who asks, and are writable where values are
    /// written directly.
    pub proof fn law_discrete_input_file_attributes(self, caller: Owner, i: int)
        requires
            self.in_order(),
            0 <= i < self.discrete_inputs@.len(),
        ensures
            self.lookup_reply(
                caller,
                self.discrete_inputs_ino,
                self.discrete_inputs@[i].name@,
            ) matches Ok(attr) && attr.kind == FileType::RegularFile && attr.uid == caller.uid
                && attr.gid == caller.gid && attr.perm == (if self.write_mode == WriteMode::Direct {
                0o644u16
            } else {
                0o444u16
            }),
    {
        let first = self.discrete_inputs_ino.0 + 1;
        lemma_inode_map_total(self.discrete_inputs@, first);
        assert(self.discrete_inputs@[i].label() == self.discrete_inputs@[i].name@);
        lemma_inode_map(self.discrete_inputs@, first, self.discrete_inputs@[i].name@);
        let ino = self.discrete_input_name_to_ino@[self.discrete_inputs@[i].name@];
        self.lemma_no_staged_file_at(ino);
    }

    /// The files of input registers belong to who asks, and are writable where values are
    /// written directly.
    pub proof fn law_input_register_file_attributes(self, caller: Owner, i: int)
        requires
            self.in_order(),
            0 <= i < self.input_registers@.len(),
        ensures
            self.lookup_reply(
                caller,
                self.input_registers_ino,
                self.input_registers@[i].name@,
            ) matches Ok(attr) && attr.kind == FileType::RegularFile && attr.uid == caller.uid
                && attr.gid == caller.gid && attr.perm == (if self.write_mode == WriteMode::Direct {
                0o644u16
            } else {
                0o444u16
            }),
    {
        let first = self.input_registers_ino.0 + 1;
        lemma_inode_map_total(self.input_registers@, first);
        assert(self.input_registers@[i].label() == self.input_registers@[i].name@);
        lemma_inode_map(self.input_registers@, first, self.input_registers@[i].name@);
        let ino = self.input_register_name_to_ino@[self.input_registers@[i].name@];
        self.lemma_no_staged_file_at(ino);
    }

    /// The files in `report/` belong to whom `report/` belongs and are read only; those in
    /// `transactions/` belong to whom `transactions/` belongs and are writable.
    pub proof fn law_report_and_staged_file_attributes(self, caller: Owner, name: Seq<char>)
        requires
            self.in_order(),
        ensures
            self.lookup_reply(caller, self.report_ino, name) matches Ok(attr) ==> attr.kind
                == FileType::RegularFile && attr.uid == self.permissions.report.uid && attr.gid
                == self.permissions.report.gid && attr.perm == 0o444,
            self.write_mode == WriteMode::Staged ==> (self.lookup_reply(
                caller,
                self.transactions_ino,
                name,
            ) matches Ok(attr) ==> attr.kind == FileType::RegularFile && attr.uid
                == self.permissions.transactions.uid && attr.gid
                == self.permissions.transactions.gid && attr.perm == 0o644),
    {
        lemma_found(self.registers@, name);
        lemma_found(self.coils@, name);
        if let Some((ino, _)) = self.report_child(name) {
            self.lemma_no_staged_file_at(ino);
        }
        if self.transactions.name_to_ino@.dom().contains(name) {
            let ino = self.transactions.name_to_ino@[name];
            assert(self.transaction_at(ino) is Some);
            self.law_inodes_do_not_collide(ino);
        }
    }

    /// In each directory of values a name is found where an item has that name, and
    /// nowhere else; in `report/` where a register or a coil has it.
    pub proof fn law_only_names_of_items_are_found(self, caller: Owner, name: Seq<char>)
        requires
            self.wf(),
        ensures
            self.lookup_reply(caller, INodeNo(2), name) is Ok <==> exists|i: int|
                0 <= i < self.registers@.len() && (#[trigger] self.registers@[i]).name@ == name,
            self.lookup_reply(caller, self.coils_ino, name) is Ok <==> exists|i: int|
                0 <= i < self.coils@.len() && (#[trigger] self.coils@[i]).name@ == name,
            self.lookup_reply(caller, self.discrete_inputs_ino, name) is Ok <==> exists|i: int|
                0 <= i < self.discrete_inputs@.len() && (
                #[trigger] self.discrete_inputs@[i]).name@ == name,
            self.lookup_reply(caller, self.input_registers_ino, name) is Ok <==> exists|i: int|
                0 <= i < self.input_registers@.len() && (
                #[trigger] self.input_registers@[i]).name@ == name,
            self.lookup_reply(caller, self.report_ino, name) is Ok <==> (exists|i: int|
                0 <= i < self.registers@.len() && (#[trigger] self.registers@[i]).name@ == name)
                || (exists|i: int|
                0 <= i < self.coils@.len() && (#[trigger] self.coils@[i]).name@ == name),
    {
        self.lemma_registers_found(name);
        self.lemma_coils_found(name);
        self.lemma_discrete_inputs_found(name);
        self.lemma_input_registers_found(name);
        lemma_found(self.registers@, name);
        lemma_found(self.coils@, name);
        if let Some(i) = first_named(self.registers@, name) {
            assert(self.registers@[i].name@ == name);
        }
        if let Some(i) = first_named(self.coils@, name) {
            assert(self.coils@[i].name@ == name);
        }
        assert(forall|i: int|
            0 <= i < self.registers@.len() && (#[trigger] self.registers@[i]).name@ == name
                ==> self.registers@[i].label() == name);
        assert(forall|i: int|
            0 <= i < self.coils@.len() && (#[trigger] self.coils@[i]).name@ == name
                ==> self.coils@[i].label() == name);
    }

    proof fn lemma_registers_found(self, name: Seq<char>)
        requires
            self.wf(),
        ensures
            self.name_to_ino@.dom().contains(name) <==> exists|i: int|
                0 <= i < self.registers@.len() && (#[trigger] self.registers@[i]).name@ == name,
    {
        let first: int = 3;
        lemma_inode_map_total(self.registers@, first);
        if self.name_to_ino@.dom().contains(name) {
            lemma_inode_map(self.registers@, first, name);
            let i = self.name_to_ino@[name].0 - first;
            assert(self.registers@[i].label() == name);
            assert(self.registers@[i].name@ == name);
        }
        if exists|i: int|
            0 <= i < self.registers@.len() && (#[trigger] self.registers@[i]).name@ == name {
            let i = choose|i: int|
                0 <= i < self.registers@.len() && (#[trigger] self.registers@[i]).name@ == name;
            assert(self.registers@[i].label() == name);
        }
    }

    proof fn lemma_coils_found(self, name: Seq<char>)
        requires
            self.wf(),
        ensures
            self.coil_name_to_ino@.dom().contains(name) <==> exists|i: int|
                0 <= i < self.coils@.len() && (#[trigger] self.coils@[i]).name@ == name,
    {
        let first: int = self.coils_ino.0 + 1;
        lemma_inode_map_total(self.coils@, first);
        if self.coil_name_to_ino@.dom().contains(name) {
            lemma_inode_map(self.coils@, first, name);
            let i = self.coil_name_to_ino@[name].0 - first;
            assert(self.coils@[i].label() == name);
            assert(self.coils@[i].name@ == name);
        }
        if exists|i: int|
            0 <= i < self.coils@.len() && (#[trigger] self.coils@[i]).name@ == name {
            let i = choose|i: int|
                0 <= i < self.coils@.len() && (#[trigger] self.coils@[i]).name@ == name;
            assert(self.coils@[i].label() == name);
        }
    }

    proof fn lemma_discrete_inputs_found(self, name: Seq<char>)
        requires
            self.wf(),
        ensures
            self.discrete_input_name_to_ino@.dom().contains(name) <==> exists|i: int|
                0 <= i < self.discrete_inputs@.len() && (
                #[trigger] self.discrete_inputs@[i]).name@ == name,
    {
        let first: int = self.discrete_inputs_ino.0 + 1;
        lemma_inode_map_total(self.discrete_inputs@, first);
        if self.discrete_input_name_to_ino@.dom().contains(name) {
            lemma_inode_map(self.discrete_inputs@, first, name);
            let i = self.discrete_input_name_to_ino@[name].0 - first;
            assert(self.discrete_inputs@[i].label() == name);
            assert(self.discrete_inputs@[i].name@ == name);
        }
        if exists|i: int|
            0 <= i < self.discrete_inputs@.len() && (
            #[trigger] self.discrete_inputs@[i]).name@ == name {
            let i = choose|i: int|
                0 <= i < self.discrete_inputs@.len() && (
                #[trigger] self.discrete_inputs@[i]).name@ == name;
            assert(self.discrete_inputs@[i].label() == name);
        }
    }

    proof fn lemma_input_registers_found(self, name: Seq<char>)
        requires
            self.wf(),
        ensures
            self.input_register_name_to_ino@.dom().contains(name) <==> exists|i: int|
                0 <= i < self.input_registers@.len() && (
                #[trigger] self.input_registers@[i]).name@ == name,
    {
        let first: int = self.input_registers_ino.0 + 1;
        lemma_inode_map_total(self.input_registers@, first);
        if self.input_register_name_to_ino@.dom().contains(name) {
            lemma_inode_map(self.input_registers@, first, name);
            let i = self.input_register_name_to_ino@[name].0 - first;
            assert(self.input_registers@[i].label() == name);
            assert(self.input_registers@[i].name@ == name);
        }
        if exists|i: int|
            0 <= i < self.input_registers@.len() && (
            #[trigger] self.input_registers@[i]).name@ == name {
            let i = choose|i: int|
                0 <= i < self.input_registers@.len() && (
                #[trigger] self.input_registers@[i]).name@ == name;
            assert(self.input_registers@[i].label() == name);
        }
    }

    /// The root has `transactions/` where writes are staged, `client-trust/` where clients
    /// are trusted, `server-id` where the server has a name, the directories of values
    /// and `report/` always, and nothing else.
    pub proof fn law_names_of_the_root(self, caller: Owner, name: Seq<char>)
        ensures
            self.lookup_reply(caller, INodeNo(1), name) is Ok <==> {
                ||| name == "holding-registers"@
                ||| name == "coils"@
                ||| name == "discrete-inputs"@
                ||| name == "input-registers"@
                ||| name == "file-records"@
                ||| name == "report"@
                ||| name == "transactions"@ && self.write_mode == WriteMode::Staged
                ||| name == "client-trust"@ && self.client_trust is Some
                ||| name == "server-id"@ && self.server_id is Some
            },
    {
        self.lemma_root_names();
    }

    proof fn lemma_in_client_trust(self, caller: Owner, directory: Seq<char>, name: Seq<char>)
        requires
            self.wf(),
            self.client_trust is Some,
            self.child(Node::ClientTrust, directory) is Some,
            self.directory_at((self.child(Node::ClientTrust, directory)->0).0) is Some,
            self.child(
                self.directory_at((self.child(Node::ClientTrust, directory)->0).0)->0,
                name,
            ) is Some,
        ensures
            self.at_path(caller, seq!["client-trust"@, directory, name]) == Some(
                (self.child(
                    self.directory_at((self.child(Node::ClientTrust, directory)->0).0)->0,
                    name,
                )->0).0,
            ),
    {
        let path = seq!["client-trust"@, directory, name];
        let front = path.drop_last();
        self.lemma_root_names();
        self.lemma_in_directory(caller, "client-trust"@, directory);
        assert(front =~= seq!["client-trust"@, directory]);
        assert(path.last() == name);
        assert(self.at_path(caller, front) == Some(
            (self.child(Node::ClientTrust, directory)->0).0,
        ));
    }

    /// The three logs in `client-trust/connection_attempts/` each show the lines of the
    /// attempts that they are named after.
    pub proof fn law_logs_are_shown(self, caller: Owner)
        requires
            self.in_order(),
            self.client_trust is Some,
        ensures
            ({
                let logs = self.client_trust->0.logs();
                let directory = "connection_attempts"@;
                let ended = |line: Seq<char>| line + seq!['\n'];
                &&& self.shows_at(
                    caller,
                    seq!["client-trust"@, directory, "approved.log"@],
                    logs.0.map_values(ended).flatten(),
                )
                &&& self.shows_at(
                    caller,
                    seq!["client-trust"@, directory, "pending.log"@],
                    logs.1.map_values(ended).flatten(),
                )
                &&& self.shows_at(
                    caller,
                    seq!["client-trust"@, directory, "rejected.log"@],
                    logs.2.map_values(ended).flatten(),
                )
            }),
    {
        reveal_strlit("approved");
        reveal_strlit("connection_attempts");
        reveal_strlit("approved.log");
        reveal_strlit("pending.log");
        reveal_strlit("rejected.log");
        assert("approved"@.len() != "connection_attempts"@.len());
        assert("approved.log"@[0] != "pending.log"@[0]);
        assert("approved.log"@[0] != "rejected.log"@[0]);
        assert("pending.log"@[0] != "rejected.log"@[0]);
        let logs = self.client_trust->0.logs();
        let directory = "connection_attempts"@;
        let ended = |line: Seq<char>| line + seq!['\n'];
        law_log_shows_its_lines(logs.0);
        law_log_shows_its_lines(logs.1);
        law_log_shows_its_lines(logs.2);
        self.lemma_in_client_trust(caller, directory, "approved.log"@);
        self.lemma_in_client_trust(caller, directory, "pending.log"@);
        self.lemma_in_client_trust(caller, directory, "rejected.log"@);
        self.law_inodes_do_not_collide(self.approved_log_ino);
        self.law_inodes_do_not_collide(self.pending_log_ino);
        self.law_inodes_do_not_collide(self.rejected_log_ino);
        self.lemma_shows(self.approved_log_ino);
        self.lemma_shows(self.pending_log_ino);
        self.lemma_shows(self.rejected_log_ino);
        assert(self.content_node(self.approved_log_ino) == Some(Node::ApprovedLog));
        assert(self.content_node(self.pending_log_ino) == Some(Node::PendingLog));
        assert(self.content_node(self.rejected_log_ino) == Some(Node::RejectedLog));
    }

    /// The file of an approved client in `client-trust/approved/` is named after its
    /// fingerprint, which it shows; clients that are not approved have none.
    pub proof fn law_approved_clients_are_shown(self, caller: Owner, fingerprint: Seq<char>)
        requires
            self.in_order(),
            self.client_trust is Some,
        ensures
            self.client_trust->0.inodes().dom().contains(fingerprint) ==> self.shows_at(
                caller,
                seq!["client-trust"@, "approved"@, fingerprint],
                fingerprint + seq!['\n'],
            ),
            !self.client_trust->0.inodes().dom().contains(fingerprint) ==> self.lookup_reply(
                caller,
                self.client_trust_approved_ino,
                fingerprint,
            ) is Err,
    {
        reveal_strlit("approved");
        reveal_strlit("connection_attempts");
        assert("approved"@.len() != "connection_attempts"@.len());
        let state = self.client_trust->0;
        if state.inodes().dom().contains(fingerprint) {
            let ino = state.inodes()[fingerprint];
            self.lemma_in_client_trust(caller, "approved"@, fingerprint);
            assert(state.fingerprints().dom().contains(ino.0));
            self.law_inodes_do_not_collide(ino);
            assert(self.fingerprint_at(ino) is Some);
            assert(self.content_node(ino) == Some(Node::Fingerprint(fingerprint)));
            self.lemma_shows(ino);
            assert(fingerprint + seq!['\n'] =~= fingerprint.push('\n'));
        }
    }

    /// What is found in a directory is listed in it: every inode that a lookup gives is
    /// that of an entry, beyond those of the directory itself and its parent, whose kind
    /// is that of the attributes.
    pub proof fn law_found_entries_are_listed(
        self,
        caller: Owner,
        parent: INodeNo,
        name: Seq<char>,
    ) -> (i: int)
        requires
            self.in_order(),
            self.client_trust matches Some(state) ==> state.listed(),
            self.lookup_reply(caller, parent, name) is Ok,
        ensures
            self.readdir_reply(parent, 0) is Ok,
            2 <= i < self.readdir_reply(parent, 0)->Ok_0.len(),
            (self.readdir_reply(parent, 0)->Ok_0[i].0).0 == self.lookup_reply(
                caller,
                parent,
                name,
            )->Ok_0.ino,
            (self.readdir_reply(parent, 0)->Ok_0[i].0).1 == self.lookup_reply(
                caller,
                parent,
                name,
            )->Ok_0.kind,
    {
        let directory = self.directory_at(parent)->0;
        let all = self.listing(parent, directory);
        let (ino, node) = self.child(directory, name)->0;
        let i = self.lemma_listed(parent, name);
        assert(entries_from(all, 0)[i].0 == all[i]);
        i
    }

    proof fn lemma_listed(self, parent: INodeNo, name: Seq<char>) -> (i: int)
        requires
            self.in_order(),
            self.client_trust matches Some(state) ==> state.listed(),
            self.directory_at(parent) is Some,
            self.child(self.directory_at(parent)->0, name) is Some,
        ensures
            ({
                let directory = self.directory_at(parent)->0;
                let all = self.listing(parent, directory);
                let (ino, node) = self.child(directory, name)->0;
                &&& 2 <= i < all.len()
                &&& all[i].0 == ino
                &&& all[i].1 == (if node.is_directory() {
                    FileType::Directory
                } else {
                    FileType::RegularFile
                })
            }),
    {
        let directory = self.directory_at(parent)->0;
        let all = self.listing(parent, directory);
        let (ino, node) = self.child(directory, name)->0;
        match directory {
            Node::Root => self.lemma_root_listed(name),
            Node::ClientTrust => if name == "approved"@ {
                2
            } else {
                3
            },
            Node::ConnectionAttempts => if name == "approved.log"@ {
                2
            } else if name == "pending.log"@ {
                3
            } else {
                4
            },
            Node::Approved => {
                let state = self.client_trust->0;
                let k = choose|k: int|
                    0 <= k < state.listing().len() && (#[trigger] state.listing()[k]).0@ == name;
                assert(state.inodes().dom().contains(name));
                assert(state.inodes()[state.listing()[k].0@] == state.listing()[k].1);
                2 + k
            },
            Node::HoldingRegisters => {
                lemma_inode_map(self.registers@, 3, name);
                2 + (ino.0 - 3)
            },
            Node::Coils => {
                lemma_inode_map(self.coils@, self.coils_ino.0 + 1, name);
                2 + (ino.0 - (self.coils_ino.0 + 1))
            },
            Node::DiscreteInputs => {
                lemma_inode_map(self.discrete_inputs@, self.discrete_inputs_ino.0 + 1, name);
                2 + (ino.0 - (self.discrete_inputs_ino.0 + 1))
            },
            Node::InputRegisters => {
                lemma_inode_map(self.input_registers@, self.input_registers_ino.0 + 1, name);
                2 + (ino.0 - (self.input_registers_ino.0 + 1))
            },
            Node::FileRecords => {
                let number = numbers::unsigned_up_to(name, 10, u16::MAX as nat)->0 as u16;
                let i = self.unique_file_numbers@.index_of(number);
                assert(self.unique_file_numbers@[i] == number);
                2 + i
            },
            Node::FileNumber(f) => {
                let number = numbers::unsigned_up_to(name, 10, u16::MAX as nat)->0 as u16;
                let file_number = self.unique_file_numbers@[f];
                let k = choose|k: int|
                    is_first_record(self.file_records@, k, file_number, number);
                let at = lemma_record_listed(
                    self.file_records@,
                    self.first_record_ino(),
                    file_number,
                    k,
                );
                2 + at
            },
            Node::Transactions => {
                let k = self.transactions.name_to_ino.lemma_position(name);
                2 + k
            },
            Node::Report => {
                lemma_found(self.registers@, name);
                lemma_found(self.coils@, name);
                match first_named(self.registers@, name) {
                    Some(k) => 2 + k,
                    None => 2 + self.registers@.len() + first_named(self.coils@, name)->0,
                }
            },
            _ => 0,
        }
    }

    proof fn lemma_root_listed(self, name: Seq<char>) -> (i: int)
        requires
            self.root_child(name) is Some,
        ensures
            ({
                let all = self.root_listing();
                let (ino, node) = self.root_child(name)->0;
                &&& 2 <= i < all.len()
                &&& all[i].0 == ino
                &&& all[i].1 == (if node.is_directory() {
                    FileType::Directory
                } else {
                    FileType::RegularFile
                })
            }),
    {
        self.lemma_root_names();
        let staged: int = if self.write_mode == WriteMode::Staged {
            1
        } else {
            0
        };
        let trusting: int = if self.client_trust is Some {
            1
        } else {
            0
        };
        if name == "holding-registers"@ {
            2
        } else if name == "coils"@ {
            3
        } else if name == "discrete-inputs"@ {
            4
        } else if name == "input-registers"@ {
            5
        } else if name == "file-records"@ {
            6
        } else if name == "report"@ {
            7
        } else if name == "transactions"@ {
            8
        } else if name == "client-trust"@ {
            8 + staged
        } else {
            8 + staged + trusting
        }
    }

    /// A directory in `file-records/` is found under a decimal number where a record has
    /// that file number, and nowhere else; a file in it where a record has both numbers.
    pub proof fn law_only_numbers_of_records_are_found(
        self,
        caller: Owner,
        file_number: u16,
        record_number: u16,
        f: int,
    )
        requires
            self.wf(),
            0 <= f < self.unique_file_numbers@.len(),
            self.unique_file_numbers@[f] == file_number,
        ensures
            self.lookup_reply(
                caller,
                self.file_records_ino,
                numbers::decimal(record_number as nat),
            ) is Ok <==> exists|i: int|
                0 <= i < self.file_records@.len() && (
                #[trigger] self.file_records@[i]).file_number == record_number,
            self.lookup_reply(
                caller,
                INodeNo((self.file_records_ino.0 + 1 + f) as u64),
                numbers::decimal(record_number as nat),
            ) is Ok <==> exists|i: int|
                0 <= i < self.file_records@.len() && (
                #[trigger] self.file_records@[i]).file_number == file_number
                    && self.file_records@[i].record_number == record_number,
    {
        crate::filesystem_laws::lemma_decimal_is_number(record_number);
        crate::filesystem::lemma_file_numbers_distinct(self.file_records@);
        lemma_number_has_record(self.file_records@, record_number);
        let directory = INodeNo((self.file_records_ino.0 + 1 + f) as u64);
        assert(self.directory_at(directory) == Some(Node::FileNumber(f)));
        if exists|i: int|
            0 <= i < self.file_records@.len() && (#[trigger] self.file_records@[i]).file_number
                == file_number && self.file_records@[i].record_number == record_number {
            let i = choose|i: int|
                0 <= i < self.file_records@.len() && (
                #[trigger] self.file_records@[i]).file_number == file_number
                    && self.file_records@[i].record_number == record_number;
            let k = lemma_first_record_exists(self.file_records@, i, file_number, record_number);
        }
    }

    /// What is not there is answered as such: a name, attributes or a content with
    /// `ENOENT`, the entries of what is no directory with `ENOTDIR`. No directory is read,
    /// and no file has entries.
    pub proof fn law_answers_where_nothing_is(
        self,
        caller: Owner,
        ino: INodeNo,
        name: Seq<char>,
        offset: u64,
        size: u32,
    )
        requires
            self.in_order(),
        ensures
            self.lookup_reply(caller, ino, name) matches Err(error) ==> error == Errno::ENOENT,
            self.getattr_reply(caller, ino) matches Err(error) ==> error == Errno::ENOENT,
            self.read_reply(ino, offset, size) matches Err(error) ==> error == Errno::ENOENT,
            self.readdir_reply(ino, offset) matches Err(error) ==> error == Errno::ENOTDIR,
            self.readdir_reply(ino, offset) is Ok ==> self.read_reply(ino, offset, size) is Err,
            self.read_reply(ino, offset, size) is Ok ==> self.readdir_reply(ino, offset) is Err,
            self.lookup_reply(caller, ino, name) is Ok ==> self.readdir_reply(ino, offset) is Ok,
    {
        self.law_inodes_do_not_collide(ino);
    }

    /// The first entry of every directory is the directory itself, the second its parent:
    /// the directory in which it is found under some name. The root is its own parent.
    pub proof fn law_first_entries_are_itself_and_its_parent(
        self,
        caller: Owner,
        ino: INodeNo,
    ) -> (name: Seq<char>)
        requires
            self.in_order(),
            self.readdir_reply(ino, 0) is Ok,
            ino == self.client_trust_approved_ino ==> self.client_trust is Some,
        ensures
            ({
                let entries = self.readdir_reply(ino, 0)->Ok_0;
                &&& entries.len() >= 2
                &&& entries[0].0 == (ino, FileType::Directory, "."@)
                &&& (entries[1].0).1 == FileType::Directory
                &&& (entries[1].0).2 == ".."@
                &&& ino.0 == 1 ==> (entries[1].0).0 == ino
                &&& ino.0 != 1 ==> (self.lookup_reply(caller, (entries[1].0).0, name) matches Ok(
                    attr,
                ) && attr.ino == ino)
            }),
    {
        let directory = self.directory_at(ino)->0;
        let all = self.listing(ino, directory);
        self.lemma_root_names();
        reveal_strlit("approved");
        reveal_strlit("connection_attempts");
        assert("approved"@.len() != "connection_attempts"@.len());
        assert(all.len() >= 2);
        assert(entries_from(all, 0)[0].0 == all[0]);
        assert(entries_from(all, 0)[1].0 == all[1]);
        match directory {
            Node::HoldingRegisters => "holding-registers"@,
            Node::Coils => "coils"@,
            Node::DiscreteInputs => "discrete-inputs"@,
            Node::InputRegisters => "input-registers"@,
            Node::Transactions => "transactions"@,
            Node::Report => "report"@,
            Node::ClientTrust => "client-trust"@,
            Node::Approved => "approved"@,
            Node::ConnectionAttempts => "connection_attempts"@,
            Node::FileRecords => "file-records"@,
            Node::FileNumber(f) => {
                let number = self.unique_file_numbers@[f];
                crate::filesystem_laws::lemma_decimal_is_number(number);
                crate::filesystem::lemma_file_numbers_distinct(self.file_records@);
                let k = self.unique_file_numbers@.index_of(number);
                assert(self.unique_file_numbers@.contains(number));
                assert(self.unique_file_numbers@[k] == number);
                assert(k == f);
                numbers::decimal(number as nat)
            },
            _ => Seq::empty(),
        }
    }

    /// Whatever is found, by its name or its inode, has two links and no size where it is a
    /// directory, one link where it is a file, and blocks of 512 bytes of which it uses
    /// none.
    pub proof fn law_attributes_in_common(
        self,
        caller: Owner,
        ino: INodeNo,
        name: Seq<char>,
    )
        ensures
            self.getattr_reply(caller, ino) matches Ok(attr) ==> attr.ino == ino
                && attr.has_usual_fields(),
            self.lookup_reply(caller, ino, name) matches Ok(attr) ==> attr.has_usual_fields(),
    {
    }

    /// The logs and the files of approved clients belong to who asks and are read only,
    /// as is `server-id`; file records are writable where values are written directly.
    pub proof fn law_other_file_attributes(self, caller: Owner, name: Seq<char>, i: int)
        requires
            self.in_order(),
        ensures
            self.client_trust is Some ==> (self.lookup_reply(
                caller,
                self.connection_attempts_ino,
                name,
            ) matches Ok(attr) ==> attr.perm == 0o444 && attr.uid == caller.uid && attr.gid
                == caller.gid),
            self.lookup_reply(caller, self.client_trust_approved_ino, name) matches Ok(attr)
                ==> attr.perm == 0o444 && attr.uid == caller.uid && attr.gid == caller.gid,
            self.server_id is Some ==> (self.lookup_reply(caller, INodeNo(1), "server-id"@) matches
                Ok(attr) && attr.perm == 0o444 && attr.uid == caller.uid && attr.gid
                == caller.gid),
            0 <= i < self.file_records@.len() ==> (self.getattr_reply(
                caller,
                INodeNo((self.first_record_ino() + i) as u64),
            ) matches Ok(attr) && attr.kind == FileType::RegularFile && attr.uid == caller.uid
                && attr.gid == caller.gid && attr.perm == (if self.write_mode
                == WriteMode::Direct {
                0o644u16
            } else {
                0o444u16
            })),
    {
        self.lemma_root_names();
        self.lemma_no_staged_file_at(self.server_id_ino);
        self.lemma_no_staged_file_at(self.approved_log_ino);
        self.lemma_no_staged_file_at(self.pending_log_ino);
        self.lemma_no_staged_file_at(self.rejected_log_ino);
        if let Some(state) = self.client_trust {
            if state.inodes().dom().contains(name) {
                let ino = state.inodes()[name];
                assert(state.fingerprints().dom().contains(ino.0));
                self.law_inodes_do_not_collide(ino);
                assert(self.fingerprint_at(ino) is Some);
            }
        }
        if 0 <= i < self.file_records@.len() {
            let ino = INodeNo((self.first_record_ino() + i) as u64);
            self.law_inodes_do_not_collide(ino);
            assert(self.data_file_at(ino) == Some(Node::FileRecord(i)));
            self.lemma_no_staged_file_at(ino);
        }
    }

    /// What is not shown cannot be reached by its inode either: `transactions/` where
    /// values are written directly, what is about clients where none are trusted, and
    /// `server-id` where the server has no name. The root is open to all and belongs to
    /// who asks.
    pub proof fn law_hidden_inodes_are_not_found(
        self,
        caller: Owner,
        name: Seq<char>,
        offset: u64,
        size: u32,
    )
        requires
            self.in_order(),
        ensures
            self.write_mode == WriteMode::Direct ==> {
                &&& self.readdir_reply(self.transactions_ino, offset) is Err
                &&& self.getattr_reply(caller, self.transactions_ino) is Err
                &&& self.lookup_reply(caller, self.transactions_ino, name) is Err
            },
            self.client_trust is None ==> {
                &&& self.readdir_reply(self.client_trust_ino, offset) is Err
                &&& self.readdir_reply(self.connection_attempts_ino, offset) is Err
                &&& self.getattr_reply(caller, self.client_trust_ino) is Err
                &&& self.getattr_reply(caller, self.client_trust_approved_ino) is Err
                &&& self.getattr_reply(caller, self.connection_attempts_ino) is Err
                &&& self.getattr_reply(caller, self.approved_log_ino) is Err
                &&& self.getattr_reply(caller, self.pending_log_ino) is Err
                &&& self.getattr_reply(caller, self.rejected_log_ino) is Err
                &&& self.read_reply(self.approved_log_ino, offset, size) is Err
                &&& self.read_reply(self.pending_log_ino, offset, size) is Err
                &&& self.read_reply(self.rejected_log_ino, offset, size) is Err
                &&& self.lookup_reply(caller, self.client_trust_approved_ino, name) is Err
            },
            self.server_id is None ==> {
                &&& self.getattr_reply(caller, self.server_id_ino) is Err
                &&& self.read_reply(self.server_id_ino, offset, size) is Err
            },
            self.getattr_reply(caller, INodeNo(1)) matches Ok(attr) && attr.kind
                == FileType::Directory && attr.perm == 0o755 && attr.uid == caller.uid && attr.gid
                == caller.gid,
    {
        self.lemma_no_staged_file_at(INodeNo(1));
        self.lemma_no_staged_file_at(self.transactions_ino);
        self.lemma_no_staged_file_at(self.client_trust_ino);
        self.lemma_no_staged_file_at(self.client_trust_approved_ino);
        self.lemma_no_staged_file_at(self.connection_attempts_ino);
        self.lemma_no_staged_file_at(self.approved_log_ino);
        self.lemma_no_staged_file_at(self.pending_log_ino);
        self.lemma_no_staged_file_at(self.rejected_log_ino);
        self.lemma_no_staged_file_at(self.server_id_ino);
        self.lemma_no_client_at(self.transactions_ino);
        self.lemma_no_client_at(self.server_id_ino);
    }

    proof fn lemma_no_client_at(self, ino: INodeNo)
        requires
            self.in_order(),
            ino.0 < self.fixed_end(),
        ensures
            self.fingerprint_at(ino) is None,
    {
        if let Some(state) = self.client_trust {
            if state.fingerprints().dom().contains(ino.0) {
                assert(self.fixed_end() <= ino.0);
            }
        }
    }
}

/// Where an item has a name, the first of that name is found.
pub proof fn lemma_found<T: Named>(items: Seq<T>, name: Seq<char>)
    ensures
        (exists|i: int| 0 <= i < items.len() && (#[trigger] items[i]).label() == name)
            <==> first_named(items, name) is Some,
        first_named(items, name) matches Some(i) ==> 0 <= i < items.len() && items[i].label()
            == name && forall|j: int| 0 <= j < i ==> (#[trigger] items[j]).label() != name,
    decreases items.len(),
{
    if items.len() > 0 {
        let rest = items.drop_last();
        lemma_found(rest, name);
        assert forall|i: int| 0 <= i < rest.len() implies rest[i] == #[trigger] items[i] by {}
        if exists|i: int| 0 <= i < items.len() && (#[trigger] items[i]).label() == name {
            let i = choose|i: int| 0 <= i < items.len() && (#[trigger] items[i]).label() == name;
            if i < rest.len() {
                assert(rest[i].label() == name);
            }
        }
        if let Some(i) = first_named(rest, name) {
            assert(items[i] == rest[i]);
        } else {
            assert forall|j: int| 0 <= j < rest.len() implies (#[trigger] items[j]).label()
                != name by {
                assert(rest[j] == items[j]);
            }
        }
        assert(items.last() == items[items.len() - 1]);
    }
}

/// A record is listed in the directory of its file.
proof fn lemma_record_listed(
    records: Seq<FileRecordDescription>,
    first: int,
    file_number: u16,
    k: int,
) -> (at: int)
    requires
        0 <= k < records.len(),
        records[k].file_number == file_number,
    ensures
        0 <= at < record_files(records, first, file_number).len(),
        record_files(records, first, file_number)[at].0 == INodeNo((first + k) as u64),
        record_files(records, first, file_number)[at].1 == FileType::RegularFile,
    decreases records.len(),
{
    let rest = records.drop_last();
    if k < rest.len() {
        assert(rest[k] == records[k]);
        lemma_record_listed(rest, first, file_number, k)
    } else {
        record_files(rest, first, file_number).len() as int
    }
}

/// A file number that is listed is that of some record.
proof fn lemma_number_has_record(records: Seq<FileRecordDescription>, number: u16)
    ensures
        file_numbers(records).contains(number) ==> exists|i: int|
            0 <= i < records.len() && (#[trigger] records[i]).file_number == number,
    decreases records.len(),
{
    if records.len() > 0 {
        let rest = records.drop_last();
        lemma_number_has_record(rest, number);
        if file_numbers(records).contains(number) {
            if file_numbers(rest).contains(number) {
                let i = choose|i: int|
                    0 <= i < rest.len() && (#[trigger] rest[i]).file_number == number;
                assert(records[i].file_number == number);
            } else {
                let at = file_numbers(records).index_of(number);
                assert(records[records.len() - 1].file_number == number) by {
                    if at < file_numbers(rest).len() {
                        assert(file_numbers(rest)[at] == number);
                    }
                }
            }
        }
    }
}

} // verus!
