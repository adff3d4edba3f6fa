//! What holds of the file system as a whole.

use crate::client_trust::ClientTrustState;
use crate::device_description::{AccessRight, FileRecordDescription};
use crate::filesystem::{
    first_named, is_first_record, lemma_file_numbers_distinct, Errno, FileAttr, FileType,
    InfusedFilesystem, Named, Node, Owner, TransactionFsState, WriteMode, FIRST_REGISTER_INO,
    HOLDING_REGISTERS_INO, ROOT_INO,
};
use crate::inode::INodeNo;
use crate::numbers;
use crate::operations::{
    entries_from, lemma_first_record_exists, lemma_first_record_unique, lemma_inode_map,
    lemma_inode_map_total, record_files, Listed,
};
use crate::parsing;
use crate::text;
use crate::values::Staged;
use crate::writing::{overwritten, FileStep};
use vstd::prelude::*;

verus! {

impl InfusedFilesystem {
    /// Whether the file system has the directory or file `node` under a fixed inode,
    /// shown or not.
    pub open spec fn has_fixed(self, node: Node) -> bool {
        match node {
            Node::FileNumber(i) => 0 <= i < self.unique_file_numbers@.len(),
            Node::Register(i) => 0 <= i < self.registers@.len(),
            Node::Coil(i) => 0 <= i < self.coils@.len(),
            Node::DiscreteInput(i) => 0 <= i < self.discrete_inputs@.len(),
            Node::InputRegister(i) => 0 <= i < self.input_registers@.len(),
            Node::FileRecord(i) => 0 <= i < self.file_records@.len(),
            Node::ReportRegister(i) => 0 <= i < self.registers@.len(),
            Node::ReportCoil(i) => 0 <= i < self.coils@.len(),
            Node::Transaction(_) => false,
            Node::Fingerprint(_) => false,
            _ => true,
        }
    }

    /// The inode of a directory or file that has a fixed one.
    pub open spec fn fixed_inode(self, node: Node) -> int {
        match node {
            Node::Root => ROOT_INO as int,
            Node::HoldingRegisters => HOLDING_REGISTERS_INO as int,
            Node::Coils => self.coils_ino.0 as int,
            Node::DiscreteInputs => self.discrete_inputs_ino.0 as int,
            Node::InputRegisters => self.input_registers_ino.0 as int,
            Node::Transactions => self.transactions_ino.0 as int,
            Node::Report => self.report_ino.0 as int,
            Node::ClientTrust => self.client_trust_ino.0 as int,
            Node::Approved => self.client_trust_approved_ino.0 as int,
            Node::ConnectionAttempts => self.connection_attempts_ino.0 as int,
            Node::FileRecords => self.file_records_ino.0 as int,
            Node::FileNumber(i) => self.file_records_ino.0 + 1 + i,
            Node::Register(i) => FIRST_REGISTER_INO + i,
            Node::Coil(i) => self.coils_ino.0 + 1 + i,
            Node::DiscreteInput(i) => self.discrete_inputs_ino.0 + 1 + i,
            Node::InputRegister(i) => self.input_registers_ino.0 + 1 + i,
            Node::FileRecord(i) => self.first_record_ino() + i,
            Node::ReportRegister(i) => self.report_ino.0 + 1 + i,
            Node::ReportCoil(i) => self.report_ino.0 + 1 + self.registers@.len() + i,
            Node::ApprovedLog => self.approved_log_ino.0 as int,
            Node::PendingLog => self.pending_log_ino.0 as int,
            Node::RejectedLog => self.rejected_log_ino.0 as int,
            Node::ServerId => self.server_id_ino.0 as int,
            Node::Transaction(_) | Node::Fingerprint(_) => 0,
        }
    }

    /// All the directories and files with a fixed inode have different ones, which
    /// lie below those that are given out later; and what is found at such an inode
    /// is that directory or file.
    pub proof fn law_fixed_inodes_differ(self, a: Node, b: Node)
        requires
            self.wf(),
            self.has_fixed(a),
            self.has_fixed(b),
        ensures
            0 < self.fixed_inode(a) < self.fixed_end(),
            a != b ==> self.fixed_inode(a) != self.fixed_inode(b),
            self.in_order() ==> {
                let found = self.attribute_node(INodeNo(self.fixed_inode(a) as u64));
                found is None || found == Some(a)
            },
    {
        if self.in_order() {
            let ino = INodeNo(self.fixed_inode(a) as u64);
            assert(ino.0 == self.fixed_inode(a));
            self.law_inodes_do_not_collide(ino);
            if self.transactions.ino_to_name@.dom().contains(ino.0) {
                let name = self.transactions.ino_to_name@[ino.0]@;
                assert(self.transactions.name_to_ino@.dom().contains(name));
            }
            if let Some(state) = self.client_trust {
                if state.fingerprints().dom().contains(ino.0) {
                    assert(self.fixed_end() <= ino.0);
                }
            }
        }
    }

    /// With trusted clients, the fixed inodes all differ, and a fingerprint that is
    /// approved anew gets an inode above all of them, as long as the inodes of clients
    /// are counted from behind the fixed ones, as they are from the start.
    pub proof fn law_approvals_lie_behind_the_fixed_inodes(
        self,
        a: Node,
        b: Node,
        after: ClientTrustState,
        name: Seq<char>,
        ino: INodeNo,
    )
        requires
            self.wf(),
            self.client_trust is Some,
            self.fixed_end() <= self.client_trust->0.next(),
            self.has_fixed(a),
            self.has_fixed(b),
            ClientTrustState::approves(self.client_trust->0, after, name, ino),
            !self.client_trust->0.inodes().dom().contains(name),
        ensures
            a != b ==> self.fixed_inode(a) != self.fixed_inode(b),
            self.fixed_inode(a) < ino.0,
            self.fixed_end() <= after.next(),
    {
        self.law_fixed_inodes_differ(a, b);
    }

    /// Approving a client keeps the clients in order; it keeps all inodes in order unless
    /// a staged file has the inode that the client gets. Where nothing is staged none
    /// has.
    pub proof fn law_approval_keeps_order(before: Self, after: Self, name: Seq<char>, ino: INodeNo)
        requires
            before.clients_in_order(),
            before.client_trust is Some,
            after.client_trust is Some,
            after == (InfusedFilesystem { client_trust: after.client_trust, ..before }),
            ClientTrustState::approves(before.client_trust->0, after.client_trust->0, name, ino),
        ensures
            after.clients_in_order(),
            before.in_order() && before.transaction_at(ino) is None ==> after.in_order(),
    {
        let b = before.client_trust->0;
        let a = after.client_trust->0;
        ClientTrustState::law_approved_client_is_found(b, a, name, ino, name);
        assert forall|k: u64| #[trigger] a.fingerprints().dom().contains(k) implies {
            &&& after.fixed_end() <= k
            &&& before.in_order() && before.transaction_at(ino) is None
                ==> !after.transactions.ino_to_name@.dom().contains(k)
        } by {
            if k != ino.0 || b.inodes().dom().contains(name) {
                assert(b.fingerprints().dom().contains(k));
            }
        }
    }

    /// Withdrawing an approval keeps the clients and all inodes in order, as long as the
    /// clients stay consistent, which a withdrawal keeps.
    pub proof fn law_withdrawal_keeps_order(
        before: Self,
        after: Self,
        name: Seq<char>,
        removed: bool,
    )
        requires
            before.clients_in_order(),
            before.client_trust is Some,
            after.client_trust is Some,
            after == (InfusedFilesystem { client_trust: after.client_trust, ..before }),
            ClientTrustState::withdraws(
                before.client_trust->0,
                after.client_trust->0,
                name,
                removed,
            ),
            after.client_trust->0.consistent(),
        ensures
            after.clients_in_order(),
            before.in_order() ==> after.in_order(),
    {
        let b = before.client_trust->0;
        let a = after.client_trust->0;
        assert forall|k: u64| #[trigger] a.fingerprints().dom().contains(k) implies {
            &&& after.fixed_end() <= k
            &&& before.in_order() ==> !after.transactions.ino_to_name@.dom().contains(k)
        } by {
            assert(b.fingerprints().dom().contains(k));
        }
    }

    /// Over any history of `transactions/`, the inode that is given to a file is that
    /// of no fixed directory or file, and no two files are given one inode: where two
    /// requests are answered with the same inode, both made the file of one name.
    pub proof fn law_created_inodes_are_new(
        self,
        states: Seq<TransactionFsState>,
        steps: Seq<FileStep>,
        earlier: int,
        later: int,
        node: Node,
    )
        requires
            self.wf(),
            self.has_fixed(node),
            TransactionFsState::is_history(states, steps),
            states[0].consistent(self.fixed_end()),
            0 <= earlier < later < steps.len(),
            given(steps[earlier]) is Some,
            given(steps[later]) is Some,
        ensures
            (given(steps[earlier])->0).0 != self.fixed_inode(node),
            (given(steps[later])->0).0 != self.fixed_inode(node),
            given(steps[earlier]) == given(steps[later]) ==> {
                &&& steps[earlier] is Opened
                &&& steps[earlier] == steps[later]
                &&& states[later].name_to_ino@.dom().contains(steps[later]->Opened_0)
            },
    {
        let first = self.fixed_end();
        self.law_fixed_inodes_differ(node, node);
        lemma_all_numbered(states, steps, first, earlier);
        lemma_all_numbered(states, steps, first, later);
        assert(TransactionFsState::takes(states[earlier], states[earlier + 1], steps[earlier]));
        assert(TransactionFsState::takes(states[later], states[later + 1], steps[later]));
        lemma_given_stays(states, steps, first, earlier, later);
    }

    /// An inode is that of one thing at most: of a directory, of a value, of a
    /// file in `report/`, of a log or the server's name, of a staged file or of
    /// an approved client.
    pub proof fn law_inodes_do_not_collide(self, ino: INodeNo)
        requires
            self.in_order(),
        ensures
            self.directory_at(ino) is Some ==> self.data_file_at(ino) is None
                && self.report_file_at(ino) is None && self.system_file_at(ino) is None
                && self.transaction_at(ino) is None && self.fingerprint_at(ino) is None,
            self.data_file_at(ino) is Some ==> self.report_file_at(ino) is None
                && self.system_file_at(ino) is None && self.transaction_at(ino) is None
                && self.fingerprint_at(ino) is None,
            self.report_file_at(ino) is Some ==> self.system_file_at(ino) is None
                && self.transaction_at(ino) is None && self.fingerprint_at(ino) is None,
            self.system_file_at(ino) is Some ==> self.transaction_at(ino) is None
                && self.fingerprint_at(ino) is None,
            self.transaction_at(ino) is Some ==> self.fingerprint_at(ino) is None,
    {
        if self.transaction_at(ino) is Some {
            assert(self.transactions.ino_to_name@.dom().contains(ino.0));
            let name = self.transactions.ino_to_name@[ino.0]@;
            assert(self.transactions.name_to_ino@.dom().contains(name));
        }
        if let Some(state) = self.client_trust {
            if state.fingerprints().dom().contains(ino.0) {
                assert(self.fixed_end() <= ino.0);
            }
        }
    }

    /// Every file that can be read has attributes, and they are those of the
    /// content that is read.
    pub proof fn law_readable_files_have_attributes(self, ino: INodeNo)
        requires
            self.in_order(),
            self.content_node(ino) is Some,
        ensures
            self.attribute_node(ino) == self.content_node(ino),
    {
        self.law_inodes_do_not_collide(ino);
    }

    /// What a directory has under a name has the attributes of its inode: a
    /// lookup of a name and a request for the attributes of the inode that it
    /// gave are answered alike. Of a staged file this holds where no approved client
    /// has its inode too.
    pub proof fn law_lookup_agrees_with_getattr(
        self,
        caller: Owner,
        parent: INodeNo,
        name: Seq<char>,
    )
        requires
            self.clients_in_order(),
            parent == self.transactions_ino ==> self.in_order(),
            self.lookup_reply(caller, parent, name) is Ok,
        ensures
            self.getattr_reply(caller, self.lookup_reply(caller, parent, name)->Ok_0.ino)
                == self.lookup_reply(caller, parent, name),
    {
        let (ino, node) = self.child(self.directory_at(parent)->0, name)->0;
        self.lemma_child_is_at_its_inode(parent, name, ino, node);
    }

    /// An inode that belongs to no directory and no file is answered as such, whether its
    /// attributes or its content are asked for.
    pub proof fn law_unknown_inode_is_not_found(self, caller: Owner, ino: INodeNo)
        requires
            self.directory_at(ino) is None,
            self.data_file_at(ino) is None,
            self.report_file_at(ino) is None,
            self.system_file_at(ino) is None,
            self.transaction_at(ino) is None,
            self.fingerprint_at(ino) is None,
        ensures
            self.getattr_reply(caller, ino) == Err::<FileAttr, Errno>(Errno::ENOENT),
            self.content_node(ino) is None,
    {
    }

    /// What a directory has under a name is what is found at its inode.
    proof fn lemma_child_is_at_its_inode(
        self,
        parent: INodeNo,
        name: Seq<char>,
        ino: INodeNo,
        node: Node,
    )
        requires
            self.clients_in_order(),
            parent == self.transactions_ino ==> self.in_order(),
            self.directory_at(parent) is Some,
            self.child(self.directory_at(parent)->0, name) == Some((ino, node)),
        ensures
            self.attribute_node(ino) == Some(node),
    {
        if parent == self.transactions_ino {
            self.law_inodes_do_not_collide(ino);
        }
        if let Some(state) = self.client_trust {
            if state.fingerprints().dom().contains(ino.0) {
                assert(self.fixed_end() <= ino.0);
            }
        }
        match self.directory_at(parent)->0 {
            Node::HoldingRegisters => {
                lemma_inode_map(self.registers@, FIRST_REGISTER_INO as int, name);
            },
            Node::Coils => {
                lemma_inode_map(self.coils@, self.coils_ino.0 + 1, name);
            },
            Node::DiscreteInputs => {
                lemma_inode_map(self.discrete_inputs@, self.discrete_inputs_ino.0 + 1, name);
            },
            Node::InputRegisters => {
                lemma_inode_map(self.input_registers@, self.input_registers_ino.0 + 1, name);
            },
            Node::FileRecords => {
                let number = numbers::unsigned_up_to(name, 10, u16::MAX as nat)->0 as u16;
                let i = self.unique_file_numbers@.index_of(number);
                assert(self.unique_file_numbers@[i] == number);
            },
            Node::Report => {
                lemma_first_named_bounds(self.registers@, name);
                lemma_first_named_bounds(self.coils@, name);
            },
            Node::Transactions => {
                assert(self.transactions.name_to_ino@.dom().contains(name));
            },
            Node::Approved => {
                let state = self.client_trust->0;
                assert(state.inodes().dom().contains(name));
                assert(state.fingerprints().dom().contains(ino.0));
            },
            _ => {},
        }
    }

    /// Every entry that a directory lists, beyond itself and its parent, is
    /// found under its name, as the inode and the kind it is listed with. Left out
    /// are names that stand twice where each has a file of its own: registers and
    /// coils in `report/`, and file records. No name stands twice in `transactions/`.
    pub proof fn law_listed_entries_are_found(self, caller: Owner, ino: INodeNo, i: int)
        requires
            self.wf(),
            self.directory_at(ino) is Some,
            self.directory_at(ino)->0 is Approved ==> (self.client_trust matches Some(state)
                ==> state.consistent()),
            self.directory_at(ino)->0 is Transactions ==> self.transactions.name_to_ino.wf(),
            2 <= i < self.listing(ino, self.directory_at(ino)->0).len(),
            self.directory_at(ino)->0 is Report ==> names_differ(self.registers@)
                && names_differ(self.coils@) && forall|a: int, b: int|
                0 <= a < self.registers@.len() && 0 <= b < self.coils@.len() ==> (
                #[trigger] self.registers@[a]).name@ != (#[trigger] self.coils@[b]).name@,
            self.directory_at(ino)->0 is FileNumber ==> records_differ(self.file_records@),
        ensures
            ({
                let entry = self.listing(ino, self.directory_at(ino)->0)[i];
                &&& self.lookup_reply(caller, ino, entry.2) matches Ok(attr)
                &&& attr.ino == entry.0
                &&& attr.kind == entry.1
            }),
    {
        self.lemma_finds_entry(ino, i);
    }

    /// Listing a directory from any entry on gives the rest of the whole listing, in
    /// order, and each entry says at which offset the next one is found.
    pub proof fn law_listing_resumes(all: Seq<Listed>, offset: int, i: int)
        requires
            0 <= offset <= all.len(),
            0 <= i < entries_from(all, offset).len(),
        ensures
            entries_from(all, offset) == entries_from(all, 0).skip(offset),
            entries_from(all, entries_from(all, offset)[i].1) == entries_from(all, offset).skip(
                i + 1,
            ),
    {
        assert(entries_from(all, offset) =~= entries_from(all, 0).skip(offset));
        assert(entries_from(all, offset + i + 1) =~= entries_from(all, offset).skip(i + 1));
    }

    /// Whether entry `i` of the directory with the inode `ino` is found under
    /// its name, as the inode and the kind it is listed with.
    spec fn finds_entry(self, ino: INodeNo, i: int) -> bool {
        let directory = self.directory_at(ino)->0;
        let entry = self.listing(ino, directory)[i];
        &&& self.child(directory, entry.2) matches Some((found, node))
        &&& found == entry.0
        &&& node.is_directory() <==> entry.1 == FileType::Directory
    }

    proof fn lemma_finds_entry(self, ino: INodeNo, i: int)
        requires
            self.wf(),
            self.directory_at(ino) is Some,
            self.directory_at(ino)->0 is Approved ==> (self.client_trust matches Some(state)
                ==> state.consistent()),
            self.directory_at(ino)->0 is Transactions ==> self.transactions.name_to_ino.wf(),
            2 <= i < self.listing(ino, self.directory_at(ino)->0).len(),
            self.directory_at(ino)->0 is Report ==> names_differ(self.registers@)
                && names_differ(self.coils@) && forall|a: int, b: int|
                0 <= a < self.registers@.len() && 0 <= b < self.coils@.len() ==> (
                #[trigger] self.registers@[a]).name@ != (#[trigger] self.coils@[b]).name@,
            self.directory_at(ino)->0 is FileNumber ==> records_differ(self.file_records@),
        ensures
            self.finds_entry(ino, i),
    {
        let directory = self.directory_at(ino)->0;
        let entry = self.listing(ino, directory)[i];
        match directory {
            Node::Root => self.lemma_root_entries(i),
            Node::ClientTrust => {
                reveal_strlit("approved");
                reveal_strlit("connection_attempts");
                assert("approved"@.len() != "connection_attempts"@.len());
            },
            Node::ConnectionAttempts => {
                reveal_strlit("approved.log");
                reveal_strlit("pending.log");
                reveal_strlit("rejected.log");
                assert("approved.log"@[0] != "pending.log"@[0]);
                assert("approved.log"@[0] != "rejected.log"@[0]);
                assert("pending.log"@[0] != "rejected.log"@[0]);
            },
            Node::Approved => {
                let state = self.client_trust->0;
                let item = state.listing()[i - 2];
                assert(state.inodes().dom().contains(item.0@));
            },
            Node::HoldingRegisters => {
                lemma_inode_map_total(self.registers@, FIRST_REGISTER_INO as int);
                assert(self.registers@[i - 2].label() == entry.2);
            },
            Node::Coils => {
                lemma_inode_map_total(self.coils@, self.coils_ino.0 + 1);
                assert(self.coils@[i - 2].label() == entry.2);
            },
            Node::DiscreteInputs => {
                lemma_inode_map_total(self.discrete_inputs@, self.discrete_inputs_ino.0 + 1);
                assert(self.discrete_inputs@[i - 2].label() == entry.2);
            },
            Node::InputRegisters => {
                lemma_inode_map_total(self.input_registers@, self.input_registers_ino.0 + 1);
                assert(self.input_registers@[i - 2].label() == entry.2);
            },
            Node::FileRecords => {
                let number = self.unique_file_numbers@[i - 2];
                lemma_decimal_is_number(number);
                lemma_file_numbers_distinct(self.file_records@);
                let k = self.unique_file_numbers@.index_of(number);
                assert(self.unique_file_numbers@[k] == number);
                assert(k == i - 2);
            },
            Node::FileNumber(f) => {
                let file_number = self.unique_file_numbers@[f];
                let k = lemma_record_entry(
                    self.file_records@,
                    self.first_record_ino(),
                    file_number,
                    i - 2,
                );
                let record = self.file_records@[k];
                lemma_decimal_is_number(record.record_number);
                let first = lemma_first_record_exists(
                    self.file_records@,
                    k,
                    file_number,
                    record.record_number,
                );
                let chosen = choose|c: int|
                    is_first_record(self.file_records@, c, file_number, record.record_number);
                lemma_first_record_unique(
                    self.file_records@,
                    first,
                    chosen,
                    file_number,
                    record.record_number,
                );
                if first < k {
                    assert(self.file_records@[first].file_number
                        != self.file_records@[k].file_number
                        || self.file_records@[first].record_number
                        != self.file_records@[k].record_number);
                }
            },
            Node::Transactions => {
                self.transactions.name_to_ino.lemma_entry(i - 2);
            },
            Node::Report => {
                let n = self.registers@.len() as int;
                if i - 2 < n {
                    lemma_first_named_at(self.registers@, i - 2);
                } else {
                    let c = i - 2 - n;
                    lemma_first_named_at(self.coils@, c);
                    lemma_first_named_bounds(self.registers@, self.coils@[c].name@);
                    if first_named(self.registers@, self.coils@[c].name@) is Some {
                        let a = first_named(self.registers@, self.coils@[c].name@)->0;
                        assert(self.registers@[a].name@ != self.coils@[c].name@);
                    }
                }
            },
            _ => {},
        }
    }

    proof fn lemma_root_entries(self, i: int)
        requires
            self.wf(),
            2 <= i < self.root_listing().len(),
        ensures
            self.root_child(self.root_listing()[i].2) matches Some((found, node)) && found
                == self.root_listing()[i].0 && (node.is_directory() <==> self.root_listing()[i].1
                == FileType::Directory),
    {
        reveal_strlit("holding-registers");
        reveal_strlit("coils");
        reveal_strlit("discrete-inputs");
        reveal_strlit("input-registers");
        reveal_strlit("file-records");
        reveal_strlit("transactions");
        reveal_strlit("report");
        reveal_strlit("client-trust");
        reveal_strlit("server-id");
        // Where two names are of one length, their first letters differ.
        assert("holding-registers"@.len() == 17);
        assert("coils"@.len() == 5);
        assert("discrete-inputs"@.len() == 15 && "discrete-inputs"@[0] == 'd');
        assert("input-registers"@.len() == 15 && "input-registers"@[0] == 'i');
        assert("file-records"@.len() == 12 && "file-records"@[0] == 'f');
        assert("transactions"@.len() == 12 && "transactions"@[0] == 't');
        assert("report"@.len() == 6);
        assert("client-trust"@.len() == 12 && "client-trust"@[0] == 'c');
        assert("server-id"@.len() == 9);
    }

    /// Staging, writing into open files, taking back and sending off change no
    /// value: every file but those in `transactions/` keeps its content, so a
    /// value changes only once the device was read again.
    pub proof fn law_staging_changes_no_value(before: Self, after: Self, node: Node)
        requires
            after.same_but_transactions(before),
            !(node is Transaction),
        ensures
            after.content(node) == before.content(node),
    {
    }

    /// A register that may only be read is never writable: its file says so,
    /// and takes no direct writes, in either mode.
    pub proof fn law_read_only_registers_stay_read_only(self, i: int)
        requires
            self.wf(),
            0 <= i < self.registers@.len(),
            self.registers@[i].access == AccessRight::ReadOnly,
        ensures
            self.mode(Node::Register(i)) == 0o444,
            !self.takes_direct_writes(INodeNo((FIRST_REGISTER_INO + i) as u64)),
    {
    }

    /// Where writes are staged no file of a value is writable.
    pub proof fn law_clients_write_nothing_directly(self, ino: INodeNo)
        requires
            self.write_mode == WriteMode::Staged,
        ensures
            !self.takes_direct_writes(ino),
            self.data_file_at(ino) matches Some(node) ==> self.mode(node) == 0o444,
    {
    }

    /// The file of a value is writable by its mode exactly where it takes
    /// direct writes.
    pub proof fn law_mode_says_what_is_writable(self, ino: INodeNo)
        requires
            self.data_file_at(ino) is Some,
        ensures
            self.takes_direct_writes(ino) <==> self.mode(self.data_file_at(ino)->0) == 0o644,
    {
    }

    /// Whatever is configured, `client-trust/` is open to the process's own
    /// user alone.
    pub proof fn law_client_trust_is_locked(self, caller: Owner)
        requires
            self.client_trust is Some,
        ensures
            self.directory_attributes(self.client_trust_ino, caller).perm == 0o700,
            self.directory_attributes(self.client_trust_ino, caller).uid == self.process.uid,
            self.directory_attributes(self.client_trust_ino, caller).gid == self.process.gid,
    {
    }

    /// Once `TRANSACTION_END` was made, `transactions/` is empty: no name is
    /// found in it, `TRANSACTION_END` neither, and the inode it was given
    /// reads as nothing. It is still known to one request that changes its
    /// attributes.
    pub proof fn law_transaction_end_vanishes(
        before: Self,
        after: Self,
        ino: INodeNo,
        name: Seq<char>,
    )
        requires
            before.in_order(),
            after.same_but_transactions(before),
            TransactionFsState::ended(before.transactions, after.transactions, ino),
        ensures
            after.child(Node::Transactions, name) is None,
            after.transaction_at(ino) is None,
            !after.takes_direct_writes(ino),
            after.transactions.last_transaction_end_inos@.contains(ino.0),
    {
        assert(before.transactions.consistent(before.fixed_end()));
    }

    /// A file that was made in `transactions/` is found under its name, with
    /// the inode it was given, and shows what is staged for it.
    pub proof fn law_created_file_is_found(
        before: Self,
        after: Self,
        name: Seq<char>,
        ino: INodeNo,
    )
        requires
            TransactionFsState::opened(before.transactions, after.transactions, name, ino),
        ensures
            after.child(Node::Transactions, name) == Some((ino, Node::Transaction(name))),
    {
    }
}

impl TransactionFsState {
    /// Removing a file that was just made leaves `transactions/` as it was,
    /// but for the inode that is used up.
    pub proof fn law_unlink_undoes_create(
        before: Self,
        made: Self,
        after: Self,
        first: int,
        name: Seq<char>,
        ino: INodeNo,
    )
        requires
            before.consistent(first),
            !before.name_to_ino@.dom().contains(name),
            Self::opened(before, made, name, ino),
            Self::unlinked(made, after, name),
        ensures
            after.name_to_ino@ == before.name_to_ino@,
            after.ino_to_name@ == before.ino_to_name@,
            after.buffers@ == before.buffers@,
            after.pending@ == before.pending@,
    {
        assert(!before.ino_to_name@.dom().contains(ino.0)) by {
            if before.ino_to_name@.dom().contains(ino.0) {
                let other = before.ino_to_name@[ino.0]@;
                assert(before.name_to_ino@.dom().contains(other));
            }
        }
        assert(!before.buffers@.dom().contains(ino.0));
        assert(!before.pending@.dom().contains(name));
        assert(after.name_to_ino@ =~= before.name_to_ino@);
        assert(after.ino_to_name@.dom() =~= before.ino_to_name@.dom());
        assert(after.ino_to_name@ =~= before.ino_to_name@);
        assert(after.buffers@.dom() =~= before.buffers@.dom());
        assert(after.buffers@ =~= before.buffers@);
        assert(after.pending@ =~= before.pending@);
    }
}

/// The inode that a step gives to a file.
pub open spec fn given(step: FileStep) -> Option<INodeNo> {
    match step {
        FileStep::Opened(_, ino) => Some(ino),
        FileStep::Ended(ino) => Some(ino),
        _ => None,
    }
}

/// No step lowers the inode that is given out next, and a file that is made anew gets
/// one from there on, below the next one.
pub proof fn law_inode_counter_only_rises(
    before: TransactionFsState,
    after: TransactionFsState,
    step: FileStep,
)
    requires
        TransactionFsState::takes(before, after, step),
    ensures
        before.next_ino <= after.next_ino,
        step matches FileStep::Opened(name, ino) ==> before.name_to_ino@.dom().contains(name)
            || before.next_ino <= ino.0 < after.next_ino,
        step matches FileStep::Ended(ino) ==> before.next_ino <= ino.0 < after.next_ino,
{
}

/// Whether every file has an inode from `first` on, below the next one, and is the
/// file of that inode.
spec fn numbered(state: TransactionFsState, first: int) -> bool {
    &&& first <= state.next_ino
    &&& forall|name: Seq<char>| #[trigger]
        state.name_to_ino@.dom().contains(name) ==> {
            &&& first <= state.name_to_ino@[name].0 < state.next_ino
            &&& state.ino_to_name@.dom().contains(state.name_to_ino@[name].0)
            &&& state.ino_to_name@[state.name_to_ino@[name].0]@ == name
        }
}

proof fn lemma_step_numbered(
    before: TransactionFsState,
    after: TransactionFsState,
    step: FileStep,
    first: int,
)
    requires
        numbered(before, first),
        TransactionFsState::takes(before, after, step),
    ensures
        numbered(after, first),
        before.next_ino <= after.next_ino,
        given(step) matches Some(ino) ==> first <= ino.0 < after.next_ino,
        step matches FileStep::Ended(ino) ==> ino.0 == before.next_ino,
{
    assert forall|name: Seq<char>| #[trigger]
        after.name_to_ino@.dom().contains(name) implies {
        &&& first <= after.name_to_ino@[name].0 < after.next_ino
        &&& after.ino_to_name@.dom().contains(after.name_to_ino@[name].0)
        &&& after.ino_to_name@[after.name_to_ino@[name].0]@ == name
    } by {
        if before.name_to_ino@.dom().contains(name) {
            if let FileStep::Unlinked(gone) = step {
                assert(before.ino_to_name@[before.name_to_ino@[gone].0]@ == gone);
            }
            if let FileStep::Opened(made, ino) = step {
                if !before.name_to_ino@.dom().contains(made) {
                    assert(before.name_to_ino@[name].0 != ino.0);
                }
            }
        }
    }
    if let FileStep::Opened(made, ino) = step {
        if before.name_to_ino@.dom().contains(made) {
            assert(first <= before.name_to_ino@[made].0);
        }
    }
}

proof fn lemma_all_numbered(
    states: Seq<TransactionFsState>,
    steps: Seq<FileStep>,
    first: int,
    k: int,
)
    requires
        TransactionFsState::is_history(states, steps),
        numbered(states[0], first),
        0 <= k < steps.len(),
    ensures
        numbered(states[k], first),
        numbered(states[k + 1], first),
        given(steps[k]) matches Some(ino) ==> first <= ino.0 < states[k + 1].next_ino,
    decreases k,
{
    if k > 0 {
        lemma_all_numbered(states, steps, first, k - 1);
    }
    lemma_step_numbered(states[k], states[k + 1], steps[k], first);
}

/// After it was given to a file, an inode is that of no file of another name.
proof fn lemma_given_stays(
    states: Seq<TransactionFsState>,
    steps: Seq<FileStep>,
    first: int,
    from: int,
    to: int,
)
    requires
        TransactionFsState::is_history(states, steps),
        numbered(states[0], first),
        0 <= from < to <= steps.len(),
        given(steps[from]) is Some,
    ensures
        (given(steps[from])->0).0 < states[to].next_ino,
        forall|name: Seq<char>| #[trigger]
            states[to].name_to_ino@.dom().contains(name) && states[to].name_to_ino@[name]
                == given(steps[from])->0 ==> (steps[from] matches FileStep::Opened(made, _)
                && made == name),
    decreases to,
{
    let ino = given(steps[from])->0;
    lemma_all_numbered(states, steps, first, to - 1);
    lemma_step_numbered(states[to - 1], states[to], steps[to - 1], first);
    assert(TransactionFsState::takes(states[to - 1], states[to], steps[to - 1]));
    if to - 1 > from {
        lemma_given_stays(states, steps, first, from, to - 1);
    }
    assert forall|name: Seq<char>| #[trigger]
        states[to].name_to_ino@.dom().contains(name) && states[to].name_to_ino@[name]
            == ino implies (steps[from] matches FileStep::Opened(made, _) && made == name) by {
        if to - 1 > from {
            if states[to - 1].name_to_ino@.dom().contains(name) {
                assert(states[to - 1].name_to_ino@[name] == ino);
            }
        } else if let FileStep::Opened(made, _) = steps[from] {
            assert(states[to].name_to_ino@.dom().contains(made));
        } else {
            assert(states[to].name_to_ino@ == Map::<Seq<char>, INodeNo>::empty());
        }
    }
}

/// Writing a value in two fragments, one behind the other, is writing it at
/// once.
pub proof fn law_fragments_join(buffer: Seq<u8>, offset: int, head: Seq<u8>, tail: Seq<u8>)
    requires
        0 <= offset,
    ensures
        overwritten(overwritten(buffer, offset, head), offset + head.len(), tail) == overwritten(
            buffer,
            offset,
            head + tail,
        ),
{
    assert(overwritten(overwritten(buffer, offset, head), offset + head.len(), tail)
        =~= overwritten(buffer, offset, head + tail));
}

/// Whether no name stands twice.
pub open spec fn names_differ<T: Named>(items: Seq<T>) -> bool {
    forall|i: int, j: int|
        0 <= i < j < items.len() ==> (#[trigger] items[i]).label() != (
        #[trigger] items[j]).label()
}

/// Whether no two file records have the same numbers.
pub open spec fn records_differ(records: Seq<FileRecordDescription>) -> bool {
    forall|i: int, j: int|
        0 <= i < j < records.len() ==> (#[trigger] records[i]).file_number != (
        #[trigger] records[j]).file_number || records[i].record_number
            != records[j].record_number
}

proof fn lemma_first_named_bounds<T: Named>(items: Seq<T>, name: Seq<char>)
    ensures
        first_named(items, name) matches Some(i) ==> 0 <= i < items.len() && items[i].label()
            == name,
    decreases items.len(),
{
    if items.len() > 0 {
        lemma_first_named_bounds(items.drop_last(), name);
    }
}

proof fn lemma_first_named_at<T: Named>(items: Seq<T>, i: int)
    requires
        names_differ(items),
        0 <= i < items.len(),
    ensures
        first_named(items, items[i].label()) == Some(i),
    decreases items.len(),
{
    let rest = items.drop_last();
    assert(names_differ(rest)) by {
        assert forall|a: int, b: int| 0 <= a < b < rest.len() implies (
        #[trigger] rest[a]).label() != (#[trigger] rest[b]).label() by {
            assert(items[a].label() != items[b].label());
        }
    }
    if i < items.len() - 1 {
        assert(rest[i] == items[i]);
        lemma_first_named_at(rest, i);
    } else {
        lemma_first_named_bounds(rest, items[i].label());
        if let Some(k) = first_named(rest, items[i].label()) {
            assert(items[k].label() != items[i].label());
        }
    }
}

/// The decimal digits of a number name that number.
pub proof fn lemma_decimal_is_number(n: u16)
    ensures
        numbers::unsigned_up_to(numbers::decimal(n as nat), 10, u16::MAX as nat) == Some(n as nat),
{
    numbers::lemma_decimal_value(n as nat);
    assert(numbers::decimal(n as nat)[0] != '+');
}

/// Entry `i` of the directory of a file number is one of its records.
proof fn lemma_record_entry(
    records: Seq<FileRecordDescription>,
    first: int,
    file_number: u16,
    i: int,
) -> (k: int)
    requires
        0 <= i < record_files(records, first, file_number).len(),
    ensures
        0 <= k < records.len(),
        records[k].file_number == file_number,
        record_files(records, first, file_number)[i] == (
            INodeNo((first + k) as u64),
            FileType::RegularFile,
            numbers::decimal(records[k].record_number as nat),
        ),
    decreases records.len(),
{
    let rest = records.drop_last();
    if i < record_files(rest, first, file_number).len() {
        let k = lemma_record_entry(rest, first, file_number, i);
        assert(rest[k] == records[k]);
        k
    } else {
        records.len() - 1
    }
}

/// Characters without white space add to the word under way.
pub proof fn lemma_split_words_word(s: Seq<char>, t: Seq<char>)
    requires
        forall|i: int| 0 <= i < t.len() ==> !text::is_space(#[trigger] t[i]),
    ensures
        text::split_words(s + t) == (text::split_words(s).0, text::split_words(s).1 + t),
    decreases t.len(),
{
    if t.len() == 0 {
        assert(s + t =~= s);
        assert(text::split_words(s).1 + t =~= text::split_words(s).1);
    } else {
        assert((s + t).drop_last() =~= s + t.drop_last());
        assert((s + t).last() == t.last());
        lemma_split_words_word(s, t.drop_last());
        assert((text::split_words(s).1 + t.drop_last()).push(t.last()) =~= text::split_words(s).1
            + t);
    }
}

proof fn lemma_hex4(word: u16)
    ensures
        numbers::hex4(word).len() == 4,
        forall|i: int| 0 <= i < 4 ==> !text::is_space(#[trigger] numbers::hex4(word)[i]),
        numbers::hex_or_decimal(seq!['0', 'x'] + numbers::hex4(word), u16::MAX as nat) == Some(
            word as nat,
        ),
{
    let d = [
        ((word / 256) as u8 / 16) as nat,
        ((word / 256) as u8 % 16) as nat,
        ((word % 256) as u8 / 16) as nat,
        ((word % 256) as u8 % 16) as nat,
    ];
    numbers::lemma_digit_char_value(d[0], 16);
    numbers::lemma_digit_char_value(d[1], 16);
    numbers::lemma_digit_char_value(d[2], 16);
    numbers::lemma_digit_char_value(d[3], 16);
    let s = numbers::hex4(word);
    assert(s =~= seq![
        numbers::digit_char(d[0]),
        numbers::digit_char(d[1]),
        numbers::digit_char(d[2]),
        numbers::digit_char(d[3]),
    ]);
    assert((seq!['0', 'x'] + s).subrange(2, 6) =~= s);
    let s3 = s.drop_last();
    let s2 = s3.drop_last();
    let s1 = s2.drop_last();
    assert(s1.drop_last() =~= Seq::<char>::empty());
    assert(numbers::digits_value(s1.drop_last(), 16) == Some(0nat));
    assert(numbers::digits_value(s1, 16) == Some(d[0]));
    assert(numbers::digits_value(s2, 16) == Some(d[0] * 16 + d[1]));
    assert(numbers::digits_value(s3, 16) == Some((d[0] * 16 + d[1]) * 16 + d[2]));
    assert(numbers::digits_value(s, 16) == Some(
        ((d[0] * 16 + d[1]) * 16 + d[2]) * 16 + d[3],
    ));
    assert(s[0] != '+');
}

/// Writing the content of a staged masked write back stages the same masks.
pub proof fn law_masks_text_reads_back(and_mask: u16, or_mask: u16)
    ensures
        parsing::masks_reading(
            (Staged::MaskedRegister { and_mask, or_mask }).text().push('\n'),
        ) == Some((and_mask, or_mask)),
{
    reveal_strlit("MASK 0x");
    reveal_strlit(" 0x");
    let line = (Staged::MaskedRegister { and_mask, or_mask }).text().push('\n');
    let keyword = seq!['M', 'A', 'S', 'K'];
    let first = seq!['0', 'x'] + numbers::hex4(and_mask);
    let second = seq!['0', 'x'] + numbers::hex4(or_mask);
    lemma_hex4(and_mask);
    lemma_hex4(or_mask);
    let a = keyword;
    let b = a.push(' ');
    let c = b + first;
    let d = c.push(' ');
    let e = d + second;
    assert("MASK 0x"@ =~= keyword.push(' ') + seq!['0', 'x']);
    assert(" 0x"@ =~= seq![' ', '0', 'x']);
    assert(line =~= e.push('\n'));
    let empty = Seq::<char>::empty();
    assert(text::split_words(empty) == (Seq::<Seq<char>>::empty(), empty));
    assert(empty + keyword =~= keyword);
    lemma_split_words_word(empty, keyword);
    assert(text::split_words(a) == (Seq::<Seq<char>>::empty(), keyword)) by {
        assert(empty + keyword =~= keyword);
    }
    assert(b.drop_last() =~= a);
    assert(text::split_words(b) == (Seq::<Seq<char>>::empty().push(keyword), empty));
    assert forall|i: int| 0 <= i < first.len() implies !text::is_space(#[trigger] first[i]) by {
        if i >= 2 {
            assert(first[i] == numbers::hex4(and_mask)[i - 2]);
        }
    }
    assert forall|i: int| 0 <= i < second.len() implies !text::is_space(#[trigger] second[i]) by {
        if i >= 2 {
            assert(second[i] == numbers::hex4(or_mask)[i - 2]);
        }
    }
    lemma_split_words_word(b, first);
    assert(empty + first =~= first);
    assert(d.drop_last() =~= c);
    lemma_split_words_word(d, second);
    assert(empty + second =~= second);
    assert(line.drop_last() =~= e);
    let parts = text::words(line);
    assert(parts =~= seq![keyword, first, second]);
    assert(text::same_ignoring_case(keyword, keyword));
}

} // verus!
