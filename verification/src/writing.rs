//! Writing into the file system: staging values in `transactions/`, sending
//! them off, and writing values directly.

use crate::filesystem::{
    first_named, Errno, FileAttr, InfusedFilesystem, Node, Owner, TransactionFsState, WriteMode,
};
use crate::inode::INodeNo;
use crate::numbers;
use crate::parsing;
use crate::table::NameTable;
use crate::text;
use crate::values::{Float32, Float64, RegisterValue, Staged, StagedValue};
use vstd::prelude::*;

verus! {

broadcast use vstd::std_specs::hash::group_hash_axioms;

/// The content of a buffer after `data` was written at `offset`; a gap before
/// it is filled with zeros.
pub open spec fn overwritten(buffer: Seq<u8>, offset: int, data: Seq<u8>) -> Seq<u8> {
    let end = offset + data.len();
    Seq::new(
        if end > buffer.len() {
            end as nat
        } else {
            buffer.len()
        },
        |i: int|
            if offset <= i < end {
                data[i - offset]
            } else if i < buffer.len() {
                buffer[i]
            } else {
                0u8
            },
    )
}

/// Whether `after` is `before` with `bytes` as the buffer of `ino`.
pub open spec fn buffer_is_set(
    before: Map<u64, Vec<u8>>,
    after: Map<u64, Vec<u8>>,
    ino: u64,
    bytes: Seq<u8>,
) -> bool {
    &&& after.dom() == before.dom().insert(ino)
    &&& after[ino]@ == bytes
    &&& forall|other: u64|
        other != ino && before.dom().contains(other) ==> #[trigger] after[other] == before[other]
}

/// What has been written for `ino` so far.
pub open spec fn buffered(buffers: Map<u64, Vec<u8>>, ino: u64) -> Seq<u8> {
    if buffers.dom().contains(ino) {
        buffers[ino]@
    } else {
        Seq::empty()
    }
}

/// What may happen to the files in `transactions/`: one is made and gets an inode,
/// `TRANSACTION_END` is made, one is removed, all are, or they stay as they are.
pub ghost enum FileStep {
    Opened(Seq<char>, INodeNo),
    Ended(INodeNo),
    Unlinked(Seq<char>),
    Cleared,
    Kept,
}

impl TransactionFsState {
    /// Whether the files of `after` are those of `before`.
    pub open spec fn keeps_files(before: Self, after: Self) -> bool {
        &&& after.name_to_ino@ == before.name_to_ino@
        &&& after.ino_to_name@ == before.ino_to_name@
        &&& after.next_ino == before.next_ino
    }

    /// Whether `step` turns `before` into `after`.
    pub open spec fn takes(before: Self, after: Self, step: FileStep) -> bool {
        match step {
            FileStep::Opened(name, ino) => Self::opened(before, after, name, ino),
            FileStep::Ended(ino) => Self::ended(before, after, ino),
            FileStep::Unlinked(name) => before.name_to_ino@.dom().contains(name)
                && Self::unlinked(before, after, name),
            FileStep::Cleared => Self::cleared(before, after),
            FileStep::Kept => Self::keeps_files(before, after),
        }
    }

    /// Whether `steps` lead from each of `states` to the next.
    pub open spec fn is_history(states: Seq<Self>, steps: Seq<FileStep>) -> bool {
        &&& states.len() == steps.len() + 1
        &&& forall|k: int|
            0 <= k < steps.len() ==> Self::takes(states[k], states[k + 1], #[trigger] steps[k])
    }

    /// Whether `after` is `before` with nothing staged and no files.
    pub open spec fn cleared(before: Self, after: Self) -> bool {
        &&& after.pending@ == Map::<Seq<char>, StagedValue>::empty()
        &&& after.name_to_ino@ == Map::<Seq<char>, INodeNo>::empty()
        &&& after.name_to_ino.items() == Seq::<(String, INodeNo)>::empty()
        &&& after.ino_to_name@ == Map::<u64, String>::empty()
        &&& after.buffers@ == Map::<u64, Vec<u8>>::empty()
        &&& after.next_ino == before.next_ino
        &&& after.last_transaction_end_inos@ == before.last_transaction_end_inos@
    }

    /// Whether `after` is `before` once `TRANSACTION_END` was made as `ino`.
    pub open spec fn ended(before: Self, after: Self, ino: INodeNo) -> bool {
        &&& ino == INodeNo(before.next_ino)
        &&& after.pending@ == Map::<Seq<char>, StagedValue>::empty()
        &&& after.name_to_ino@ == Map::<Seq<char>, INodeNo>::empty()
        &&& after.ino_to_name@ == Map::<u64, String>::empty()
        &&& after.buffers@ == Map::<u64, Vec<u8>>::empty()
        &&& after.next_ino == before.next_ino + 1
        &&& after.last_transaction_end_inos@ == before.last_transaction_end_inos@.insert(ino.0)
    }

    /// Whether `after` is `before` once the file `name` was made as `ino`: a
    /// file that exists keeps its inode, and either way its buffer is empty.
    pub open spec fn opened(before: Self, after: Self, name: Seq<char>, ino: INodeNo) -> bool {
        &&& after.pending@ == before.pending@
        &&& after.last_transaction_end_inos@ == before.last_transaction_end_inos@
        &&& buffer_is_set(before.buffers@, after.buffers@, ino.0, Seq::empty())
        &&& if before.name_to_ino@.dom().contains(name) {
            &&& ino == before.name_to_ino@[name]
            &&& after.name_to_ino@ == before.name_to_ino@
            &&& after.ino_to_name@ == before.ino_to_name@
            &&& after.next_ino == before.next_ino
        } else {
            &&& ino == INodeNo(before.next_ino)
            &&& after.name_to_ino@ == before.name_to_ino@.insert(name, ino)
            &&& after.ino_to_name@.dom() == before.ino_to_name@.dom().insert(ino.0)
            &&& after.ino_to_name@[ino.0]@ == name
            &&& forall|other: u64|
                other != ino.0 && before.ino_to_name@.dom().contains(other)
                    ==> #[trigger] after.ino_to_name@[other] == before.ino_to_name@[other]
            &&& after.next_ino == before.next_ino + 1
        }
    }

    /// Whether `after` is `before` once the file `name` was removed.
    pub open spec fn unlinked(before: Self, after: Self, name: Seq<char>) -> bool {
        let ino = before.name_to_ino@[name];
        &&& after.name_to_ino@ == before.name_to_ino@.remove(name)
        &&& after.ino_to_name@ == before.ino_to_name@.remove(ino.0)
        &&& after.buffers@ == before.buffers@.remove(ino.0)
        &&& after.pending@ == before.pending@.remove(name)
        &&& after.next_ino == before.next_ino
        &&& after.last_transaction_end_inos@ == before.last_transaction_end_inos@
    }

    /// Whether the two have the same files.
    pub open spec fn same_files(self, other: Self) -> bool {
        &&& self.name_to_ino == other.name_to_ino
        &&& self.ino_to_name == other.ino_to_name
        &&& self.next_ino == other.next_ino
        &&& self.last_transaction_end_inos == other.last_transaction_end_inos
    }
}

impl InfusedFilesystem {
    /// Whether a file of this name may be made in `transactions/`: that of a
    /// register or a coil.
    pub open spec fn stageable(self, name: Seq<char>) -> bool {
        first_named(self.registers@, name) is Some || first_named(self.coils@, name) is Some
    }

    /// Whether what was written into `ino` is taken when the file is closed.
    pub open spec fn takes_buffer(self, ino: INodeNo) -> bool {
        &&& self.transactions.buffers@.dom().contains(ino.0)
        &&& self.transactions.ino_to_name@.dom().contains(ino.0) || self.takes_direct_writes(ino)
    }

    /// Whether `text` in the file `name` of `transactions/` stages `staged`:
    /// for a register a masked write or a value, for a coil a value. Text that
    /// is none of these stages nothing.
    pub open spec fn stages<S: Fn(&str) -> Option<Float32>, D: Fn(&str) -> Option<Float64>>(
        self,
        single: S,
        double: D,
        name: Seq<char>,
        text: Seq<char>,
        staged: Option<StagedValue>,
    ) -> bool {
        match first_named(self.registers@, name) {
            Some(i) => match parsing::masks_reading(text) {
                Some((and_mask, or_mask)) => staged == Some(
                    StagedValue::MaskedRegister { and_mask, or_mask },
                ),
                None => exists|value: Option<RegisterValue>|
                    {
                        &&& #[trigger] parsing::reads_as(
                            single,
                            double,
                            self.registers@[i].data_type,
                            text,
                            value,
                        )
                        &&& staged == match value {
                            Some(v) => Some(StagedValue::Register(v)),
                            None => None,
                        }
                    },
            },
            None => if first_named(self.coils@, name) is Some {
                staged == match parsing::coil_reading(text) {
                    Some(v) => Some(StagedValue::Coil(v)),
                    None => None,
                }
            } else {
                staged is None
            },
        }
    }

    /// Whether `text` in the file of the value `node` is the write `direct`, a
    /// name and a value. Text that writes no value is no write.
    pub open spec fn writes<S: Fn(&str) -> Option<Float32>, D: Fn(&str) -> Option<Float64>>(
        self,
        single: S,
        double: D,
        node: Node,
        text: Seq<char>,
        direct: Option<(Seq<char>, Staged)>,
    ) -> bool {
        match node {
            Node::Register(i) => exists|value: Option<RegisterValue>|
                {
                    &&& #[trigger] parsing::reads_as(
                        single,
                        double,
                        self.registers@[i].data_type,
                        text,
                        value,
                    )
                    &&& direct == match value {
                        Some(v) => Some((self.registers@[i].name@, Staged::Register(v))),
                        None => None,
                    }
                },
            Node::Coil(i) => direct == match parsing::coil_reading(text) {
                Some(v) => Some((self.coils@[i].name@, Staged::Coil(v))),
                None => None,
            },
            Node::DiscreteInput(i) => direct == match parsing::coil_reading(text) {
                Some(v) => Some((self.discrete_inputs@[i].name@, Staged::DiscreteInput(v))),
                None => None,
            },
            Node::InputRegister(i) => exists|value: Option<RegisterValue>|
                {
                    &&& #[trigger] parsing::reads_as(
                        single,
                        double,
                        self.input_registers@[i].data_type,
                        text,
                        value,
                    )
                    &&& direct == match value {
                        Some(v) => Some((self.input_registers@[i].name@, Staged::InputRegister(v))),
                        None => None,
                    }
                },
            Node::FileRecord(i) => direct == match parsing::record_reading(text) {
                Some(bytes) => {
                    let record = self.file_records@[i];
                    Some(
                        (
                            record_name(record.file_number, record.record_number),
                            Staged::FileRecord {
                                file_number: record.file_number,
                                record_number: record.record_number,
                                value: bytes,
                            },
                        ),
                    )
                },
                None => None,
            },
            _ => direct is None,
        }
    }

    /// Whether making the file `name` in `parent` turns `before` into `after` and is
    /// answered `reply`.
    pub open spec fn creates(
        before: Self,
        after: Self,
        caller: Owner,
        parent: INodeNo,
        name: Option<Seq<char>>,
        reply: Result<(FileAttr, Option<NameTable<StagedValue>>), Errno>,
    ) -> bool {
        let allowed = parent == before.transactions_ino && before.write_mode
            == WriteMode::Staged;
        if !allowed {
            reply == Err::<(FileAttr, Option<NameTable<StagedValue>>), Errno>(Errno::EPERM)
        } else {
            match name {
                None => reply == Err::<(FileAttr, Option<NameTable<StagedValue>>), Errno>(
                    Errno::ENOENT,
                ),
                Some(name) => if name == "TRANSACTION_END"@ {
                    &&& reply matches Ok((attr, sent))
                    &&& attr == after.file_attributes(attr.ino, 0, 0o644, caller)
                    &&& TransactionFsState::ended(
                        before.transactions,
                        after.transactions,
                        attr.ino,
                    )
                    &&& sent is None <==> before.transactions.pending@ == Map::<
                        Seq<char>,
                        StagedValue,
                    >::empty()
                    &&& sent matches Some(values) ==> values@
                        == before.transactions.pending@
                } else if before.stageable(name) {
                    &&& reply matches Ok((attr, sent))
                    &&& attr == after.file_attributes(attr.ino, 0, 0o644, caller)
                    &&& TransactionFsState::opened(
                        before.transactions,
                        after.transactions,
                        name,
                        attr.ino,
                    )
                    &&& sent is None
                } else {
                    reply == Err::<(FileAttr, Option<NameTable<StagedValue>>), Errno>(
                        Errno::ENOENT,
                    )
                },
            }
        }
    }

    /// Whether writing `data` at `offset` into `ino` turns `before` into `after` and is
    /// answered `reply`.
    pub open spec fn writes_bytes(
        before: Self,
        after: Self,
        ino: INodeNo,
        offset: u64,
        data: Seq<u8>,
        reply: Result<u32, Errno>,
    ) -> bool {
        let writable = before.transactions.ino_to_name@.dom().contains(ino.0)
            || before.takes_direct_writes(ino);
        if writable {
            &&& reply == Ok::<u32, Errno>(data.len() as u32)
            &&& buffer_is_set(
                before.transactions.buffers@,
                after.transactions.buffers@,
                ino.0,
                overwritten(
                    buffered(before.transactions.buffers@, ino.0),
                    offset as int,
                    data,
                ),
            )
        } else {
            &&& reply == Err::<u32, Errno>(Errno::ENOENT)
            &&& after.transactions.buffers@ == before.transactions.buffers@
        }
    }

    /// Whether closing `ino` turns `before` into `after` and hands out `sent`.
    pub open spec fn closes<S: Fn(&str) -> Option<Float32>, D: Fn(&str) -> Option<Float64>>(
        before: Self,
        after: Self,
        single: S,
        double: D,
        ino: INodeNo,
        sent: Option<NameTable<StagedValue>>,
    ) -> bool {
        let staged_before = before.transactions;
        let staged_after = after.transactions;
        let bytes = staged_before.buffers@[ino.0]@;
        let text = vstd::utf8::decode_utf8(bytes);
        if before.takes_buffer(ino) {
            &&& staged_after.buffers@ == staged_before.buffers@.remove(ino.0)
            &&& if !vstd::utf8::valid_utf8(bytes) {
                staged_after.pending@ == staged_before.pending@ && sent is None
            } else if staged_before.ino_to_name@.dom().contains(ino.0) {
                &&& sent is None
                &&& exists|staged: Option<StagedValue>|
                    {
                        &&& #[trigger] before.stages(
                            single,
                            double,
                            staged_before.ino_to_name@[ino.0]@,
                            text,
                            staged,
                        )
                        &&& staged_after.pending@ == match staged {
                            Some(value) => staged_before.pending@.insert(
                                staged_before.ino_to_name@[ino.0]@,
                                value,
                            ),
                            None => staged_before.pending@,
                        }
                    }
            } else {
                &&& staged_after.pending@ == staged_before.pending@
                &&& before.writes(
                    single,
                    double,
                    before.data_file_at(ino)->0,
                    text,
                    match sent {
                        Some(values) => Some(
                            (values.items()[0].0@, values.items()[0].1@),
                        ),
                        None => None,
                    },
                )
                &&& sent matches Some(values) ==> values.items().len() == 1
            }
        } else {
            &&& staged_after.buffers@ == staged_before.buffers@
            &&& staged_after.pending@ == staged_before.pending@
            &&& sent is None
        }
    }

    /// Whether changing the attributes of `ino` turns `before` into `after` and is
    /// answered `reply`.
    pub open spec fn changes_attributes(
        before: Self,
        after: Self,
        caller: Owner,
        ino: INodeNo,
        size: Option<u64>,
        reply: Result<FileAttr, Errno>,
    ) -> bool {
        let staged = before.transaction_at(ino);
        let directory = ino == before.transactions_ino && before.write_mode
            == WriteMode::Staged;
        let ends = before.transactions.last_transaction_end_inos@;
        if directory || staged is Some {
            let content = match staged {
                Some(node) => before.content(node),
                None => Seq::empty(),
            };
            &&& after.transactions.last_transaction_end_inos@ == ends
            &&& reply == Ok::<FileAttr, Errno>(
                before.file_attributes(
                    ino,
                    requested_size(size, content),
                    0o644,
                    caller,
                ),
            )
        } else if before.takes_direct_writes(ino) {
            let content = before.content(before.data_file_at(ino)->0);
            &&& after.transactions.last_transaction_end_inos@ == ends
            &&& reply == Ok::<FileAttr, Errno>(
                before.file_attributes(
                    ino,
                    requested_size(size, content),
                    0o644,
                    caller,
                ),
            )
        } else if ends.contains(ino.0) {
            &&& after.transactions.last_transaction_end_inos@ == ends.remove(ino.0)
            &&& reply == Ok::<FileAttr, Errno>(
                before.file_attributes(ino, 0, 0o644, caller),
            )
        } else {
            &&& after.transactions.last_transaction_end_inos@ == ends
            &&& reply == Err::<FileAttr, Errno>(Errno::ENOENT)
        }
    }

    /// Whether removing the file `name` from `parent` turns `before` into `after` and is
    /// answered `reply`.
    pub open spec fn removes(
        before: Self,
        after: Self,
        parent: INodeNo,
        name: Option<Seq<char>>,
        reply: Result<(), Errno>,
    ) -> bool {
        &&& reply is Ok <==> {
            &&& parent == before.transactions_ino
            &&& before.write_mode == WriteMode::Staged
            &&& name matches Some(n)
            &&& before.transactions.name_to_ino@.dom().contains(n)
        }
        &&& reply is Ok ==> TransactionFsState::unlinked(
            before.transactions,
            after.transactions,
            name->0,
        )
        &&& reply matches Err(error) ==> error == Errno::ENOENT
            && after.transactions.same_contents(before.transactions)
    }

    /// Takes every staged value and empties `transactions/`. What was staged
    /// is handed out; the values and the report stay as they are.
    pub fn commit_transaction(&mut self) -> (sent: Option<NameTable<StagedValue>>)
        ensures
            final(self).same_but_transactions(*old(self)),
            TransactionFsState::cleared(old(self).transactions, final(self).transactions),
            old(self).transactions.consistent(old(self).fixed_end())
                ==> final(self).transactions.consistent(old(self).fixed_end()),
            old(self).clients_in_order() ==> final(self).clients_in_order(),
            old(self).in_order() ==> final(self).in_order(),
            sent is None <==> old(self).transactions.pending@ == Map::<
                Seq<char>,
                StagedValue,
            >::empty(),
            sent matches Some(values) ==> values@ == old(self).transactions.pending@,
    {
        let drained = self.transactions.pending.drain();
        self.transactions.name_to_ino.clear();
        self.transactions.ino_to_name.clear();
        self.transactions.buffers.clear();
        if drained.is_empty() {
            None
        } else {
            Some(drained)
        }
    }

    /// Makes the file `name` in `transactions/`. Making `TRANSACTION_END`
    /// sends off what is staged; the file itself does not stay. Any other file
    /// must be named after a register or a coil.
    pub fn create(&mut self, caller: Owner, parent: INodeNo, name: Option<&str>) -> (reply: Result<
        (FileAttr, Option<NameTable<StagedValue>>),
        Errno,
    >)
        requires
            old(self).wf(),
            old(self).transactions.next_ino < u64::MAX,
        ensures
            final(self).wf(),
            final(self).same_but_transactions(*old(self)),
            old(self).transactions.consistent(old(self).fixed_end())
                ==> final(self).transactions.consistent(old(self).fixed_end()),
            old(self).clients_in_order() ==> final(self).clients_in_order(),
            old(self).in_order() && (old(self).write_mode == WriteMode::Staged
                ==> old(self).fingerprint_at(INodeNo(old(self).transactions.next_ino)) is None)
                ==> final(self).in_order(),
            reply matches Err(error) ==> *final(self) == *old(self),
            Self::creates(
                *old(self),
                *final(self),
                caller,
                parent,
                match name {
                    Some(name) => Some(name@),
                    None => None,
                },
                reply,
            ),
    {
        if parent != self.transactions_ino || !self.transactions_enabled() {
            return Err(Errno::EPERM);
        }
        let name = match name {
            Some(name) => name,
            None => {
                return Err(Errno::ENOENT);
            },
        };
        if text::same_text(name, "TRANSACTION_END") {
            let sent = self.commit_transaction();
            let ino = INodeNo(self.transactions.next_ino);
            self.transactions.next_ino = self.transactions.next_ino + 1;
            self.transactions.last_transaction_end_inos.insert(ino.0);
            let attr = self.file_attr(ino, 0, 0o644, caller);
            return Ok((attr, sent));
        }
        if self.register_by_name(name).is_none() && self.coil_by_name(name).is_none() {
            return Err(Errno::ENOENT);
        }
        let known = match self.transactions.name_to_ino.get(name) {
            Some(ino) => Some(*ino),
            None => None,
        };
        let ino = match known {
            Some(ino) => ino,
            None => {
                let ino = INodeNo(self.transactions.next_ino);
                self.transactions.next_ino = self.transactions.next_ino + 1;
                self.transactions.name_to_ino.set(text::copy(name), ino);
                self.transactions.ino_to_name.insert(ino.0, text::copy(name));
                ino
            },
        };
        let empty: Vec<u8> = Vec::new();
        self.transactions.buffers.insert(ino.0, empty);
        let attr = self.file_attr(ino, 0, 0o644, caller);
        Ok((attr, None))
    }

    /// Writes `data` at `offset` into the open file `ino`: a staged file, or
    /// the file of a value that takes writes directly.
    pub fn write(&mut self, ino: INodeNo, offset: u64, data: &[u8]) -> (reply: Result<u32, Errno>)
        requires
            old(self).wf(),
            offset + data@.len() <= usize::MAX,
        ensures
            final(self).wf(),
            final(self).same_but_transactions(*old(self)),
            old(self).transactions.consistent(old(self).fixed_end())
                ==> final(self).transactions.consistent(old(self).fixed_end()),
            old(self).clients_in_order() ==> final(self).clients_in_order(),
            old(self).in_order() ==> final(self).in_order(),
            final(self).transactions.same_files(old(self).transactions),
            final(self).transactions.pending == old(self).transactions.pending,
            Self::writes_bytes(*old(self), *final(self), ino, offset, data@, reply),
    {
        if !self.transactions.ino_to_name.contains_key(&ino.0) && !self.direct_writable_by_ino(
            ino,
        ) {
            return Err(Errno::ENOENT);
        }
        let mut buffer: Vec<u8> = match self.transactions.buffers.remove(&ino.0) {
            Some(buffer) => buffer,
            None => Vec::new(),
        };
        let ghost before = buffer@;
        let start: usize = offset as usize;
        let end: usize = start + data.len();
        while buffer.len() < end
            invariant
                before.len() <= buffer@.len(),
                buffer@.len() <= end || buffer@.len() == before.len(),
                forall|i: int| 0 <= i < before.len() ==> buffer@[i] == before[i],
                forall|i: int| before.len() <= i < buffer@.len() ==> buffer@[i] == 0,
            decreases end - buffer@.len(),
        {
            buffer.push(0);
        }
        let ghost padded = buffer@;
        let mut i: usize = 0;
        while i < data.len()
            invariant
                i <= data@.len(),
                end == start + data@.len(),
                end <= padded.len(),
                buffer@.len() == padded.len(),
                forall|k: int|
                    0 <= k < padded.len() ==> buffer@[k] == (if start <= k < start + i {
                        data@[k - start]
                    } else {
                        padded[k]
                    }),
            decreases data@.len() - i,
        {
            buffer.set(start + i, data[i]);
            i = i + 1;
        }
        assert(buffer@ =~= overwritten(before, offset as int, data@));
        self.transactions.buffers.insert(ino.0, buffer);
        proof {
            assert(
                self.transactions.buffers@.dom()
                    =~= old(self).transactions.buffers@.dom().insert(ino.0)
            );
        }
        Ok(data.len() as u32)
    }

    /// The value that `text` in the file `name` of `transactions/` stages.
    fn read_staged<S: Fn(&str) -> Option<Float32>, D: Fn(&str) -> Option<Float64>>(
        &self,
        name: &str,
        text: &str,
        single: &S,
        double: &D,
    ) -> (staged: Option<StagedValue>)
        requires
            forall|word: &str| #[trigger] call_requires(*single, (word,)),
            forall|word: &str| #[trigger] call_requires(*double, (word,)),
        ensures
            self.stages(*single, *double, name@, text@, staged),
    {
        if let Some(register) = self.register_by_name(name) {
            if let Some((and_mask, or_mask)) = Self::parse_masked_register_value(text) {
                Some(StagedValue::MaskedRegister { and_mask, or_mask })
            } else {
                let value = Self::parse_register_value(register.data_type, text, single, double);
                let ghost read = value;
                assert(parsing::reads_as(*single, *double, register.data_type, text@, read));
                match value {
                    Some(value) => Some(StagedValue::Register(value)),
                    None => None,
                }
            }
        } else if self.coil_by_name(name).is_some() {
            match Self::parse_coil_value(text) {
                Some(value) => Some(StagedValue::Coil(value)),
                None => None,
            }
        } else {
            None
        }
    }

    /// The write that `text` in the file `ino` of a value is.
    fn read_direct<S: Fn(&str) -> Option<Float32>, D: Fn(&str) -> Option<Float64>>(
        &self,
        ino: INodeNo,
        text: &str,
        single: &S,
        double: &D,
    ) -> (direct: Option<(String, StagedValue)>)
        requires
            self.wf(),
            self.data_file_at(ino) is Some,
            forall|word: &str| #[trigger] call_requires(*single, (word,)),
            forall|word: &str| #[trigger] call_requires(*double, (word,)),
        ensures
            self.writes(
                *single,
                *double,
                self.data_file_at(ino)->0,
                text@,
                match direct {
                    Some((name, value)) => Some((name@, value@)),
                    None => None,
                },
            ),
    {
        if let Some(register) = self.register_by_ino(ino) {
            let value = Self::parse_register_value(register.data_type, text, single, double);
            let ghost read = value;
            assert(parsing::reads_as(*single, *double, register.data_type, text@, read));
            match value {
                Some(value) => Some((register.name.clone(), StagedValue::Register(value))),
                None => None,
            }
        } else if let Some(coil) = self.coil_by_ino(ino) {
            match Self::parse_coil_value(text) {
                Some(value) => Some((coil.name.clone(), StagedValue::Coil(value))),
                None => None,
            }
        } else if let Some(input) = self.discrete_input_by_ino(ino) {
            match Self::parse_coil_value(text) {
                Some(value) => Some((input.name.clone(), StagedValue::DiscreteInput(value))),
                None => None,
            }
        } else if let Some(register) = self.input_register_by_ino(ino) {
            let value = Self::parse_register_value(register.data_type, text, single, double);
            let ghost read = value;
            assert(parsing::reads_as(*single, *double, register.data_type, text@, read));
            match value {
                Some(value) => Some((register.name.clone(), StagedValue::InputRegister(value))),
                None => None,
            }
        } else if let Some(record) = self.file_record_by_ino(ino) {
            match Self::parse_file_record_value(text) {
                Some(value) => {
                    let name = file_record_name(record.file_number, record.record_number);
                    Some(
                        (
                            name,
                            StagedValue::FileRecord {
                                file_number: record.file_number,
                                record_number: record.record_number,
                                value,
                            },
                        ),
                    )
                },
                None => None,
            }
        } else {
            None
        }
    }

    /// Closes the file `ino`. What was written into a staged file is staged;
    /// what was written into the file of a value is handed out as a write of
    /// its own. `single` and `double` read the floating-point numbers.
    pub fn release<S: Fn(&str) -> Option<Float32>, D: Fn(&str) -> Option<Float64>>(
        &mut self,
        ino: INodeNo,
        single: &S,
        double: &D,
    ) -> (sent: Option<NameTable<StagedValue>>)
        requires
            old(self).wf(),
            forall|word: &str| #[trigger] call_requires(*single, (word,)),
            forall|word: &str| #[trigger] call_requires(*double, (word,)),
        ensures
            final(self).wf(),
            final(self).same_but_transactions(*old(self)),
            old(self).transactions.consistent(old(self).fixed_end())
                ==> final(self).transactions.consistent(old(self).fixed_end()),
            old(self).clients_in_order() ==> final(self).clients_in_order(),
            old(self).in_order() ==> final(self).in_order(),
            final(self).transactions.same_files(old(self).transactions),
            Self::closes(*old(self), *final(self), *single, *double, ino, sent),
    {
        let name = self.transaction_name_by_ino(ino);
        let direct = self.direct_writable_by_ino(ino);
        if name.is_none() && !direct {
            return None;
        }
        let buffer = match self.transactions.buffers.remove(&ino.0) {
            Some(buffer) => buffer,
            None => {
                assert(self.transactions.buffers@ =~= old(self).transactions.buffers@);
                return None;
            },
        };
        let text = match text::text_from_utf8(buffer) {
            Some(text) => text,
            None => {
                return None;
            },
        };
        match name {
            Some(name) => {
                let staged = self.read_staged(name.as_str(), text.as_str(), single, double);
                let ghost read = staged;
                proof {
                    assert(old(self).stages(*single, *double, name@, text@, read));
                }
                if let Some(staged) = staged {
                    self.transactions.pending.stage(name.as_str(), staged);
                }
                None
            },
            None => match self.read_direct(ino, text.as_str(), single, double) {
                Some((name, value)) => {
                    let mut values: NameTable<StagedValue> = NameTable::new();
                    values.set(name, value);
                    Some(values)
                },
                None => None,
            },
        }
    }

    /// Changes the attributes of `ino`. The files that can be written have
    /// nothing to change, and report the size asked for, else their own; the
    /// inode of a `TRANSACTION_END` just made is known once.
    pub fn setattr(&mut self, caller: Owner, ino: INodeNo, size: Option<u64>) -> (reply: Result<
        FileAttr,
        Errno,
    >)
        requires
            old(self).wf(),
        ensures
            final(self).wf(),
            final(self).same_but_transactions(*old(self)),
            old(self).transactions.consistent(old(self).fixed_end())
                ==> final(self).transactions.consistent(old(self).fixed_end()),
            old(self).clients_in_order() ==> final(self).clients_in_order(),
            old(self).in_order() ==> final(self).in_order(),
            final(self).transactions.pending == old(self).transactions.pending,
            final(self).transactions.buffers == old(self).transactions.buffers,
            final(self).transactions.name_to_ino == old(self).transactions.name_to_ino,
            final(self).transactions.ino_to_name == old(self).transactions.ino_to_name,
            final(self).transactions.next_ino == old(self).transactions.next_ino,
            Self::changes_attributes(*old(self), *final(self), caller, ino, size, reply),
    {
        let staged = self.transaction_file(ino);
        if (ino == self.transactions_ino && self.transactions_enabled()) || staged.is_some() {
            let content = match staged {
                Some(content) => content,
                None => String::new(),
            };
            let reported = reported_size(size, content.as_str());
            return Ok(self.file_attr(ino, reported, 0o644, caller));
        }
        if self.direct_writable_by_ino(ino) {
            if let Some((content, _)) = self.data_file(ino) {
                let reported = reported_size(size, content.as_str());
                let mode: u16 = self.writable_data_file_mode();
                return Ok(self.file_attr(ino, reported, mode, caller));
            }
        }
        if self.transactions.last_transaction_end_inos.remove(&ino.0) {
            return Ok(self.file_attr(ino, 0, 0o644, caller));
        }
        proof {
            assert(
                self.transactions.last_transaction_end_inos@
                    =~= old(self).transactions.last_transaction_end_inos@
            );
        }
        Err(Errno::ENOENT)
    }

    /// Removes the file `name` from `transactions/`, with what is staged for
    /// it.
    pub fn unlink(&mut self, parent: INodeNo, name: Option<&str>) -> (reply: Result<(), Errno>)
        requires
            old(self).wf(),
        ensures
            final(self).wf(),
            final(self).same_but_transactions(*old(self)),
            old(self).transactions.consistent(old(self).fixed_end())
                ==> final(self).transactions.consistent(old(self).fixed_end()),
            old(self).clients_in_order() ==> final(self).clients_in_order(),
            old(self).in_order() ==> final(self).in_order(),
            Self::removes(
                *old(self),
                *final(self),
                parent,
                match name {
                    Some(name) => Some(name@),
                    None => None,
                },
                reply,
            ),
    {
        if parent != self.transactions_ino || !self.transactions_enabled() {
            return Err(Errno::ENOENT);
        }
        let name = match name {
            Some(name) => name,
            None => {
                return Err(Errno::ENOENT);
            },
        };
        match self.transactions.name_to_ino.remove(name) {
            Some(ino) => {
                self.transactions.ino_to_name.remove(&ino.0);
                self.transactions.buffers.remove(&ino.0);
                let _ = self.transactions.pending.unstage(name);
                proof {
                    let before = old(self).transactions;
                    let after = self.transactions;
                    assert(after.ino_to_name@ =~= before.ino_to_name@.remove(ino.0));
                    assert(after.buffers@ =~= before.buffers@.remove(ino.0));
                }
                Ok(())
            },
            None => {
                assert(self.transactions.name_to_ino@ =~= old(self).transactions.name_to_ino@);
                Err(Errno::ENOENT)
            },
        }
    }
}

impl TransactionFsState {
    /// Whether the two hold the same files, buffers and staged values.
    pub open spec fn same_contents(self, other: Self) -> bool {
        &&& self.pending@ == other.pending@
        &&& self.name_to_ino@ == other.name_to_ino@
        &&& self.name_to_ino.items() == other.name_to_ino.items()
        &&& self.ino_to_name@ == other.ino_to_name@
        &&& self.buffers@ == other.buffers@
        &&& self.next_ino == other.next_ino
        &&& self.last_transaction_end_inos@ == other.last_transaction_end_inos@
    }
}

/// The size that is reported for a file with this content: the one asked for,
/// else its own.
pub open spec fn requested_size(size: Option<u64>, content: Seq<char>) -> u64 {
    match size {
        Some(size) => size,
        None => vstd::utf8::encode_utf8(content).len() as u64,
    }
}

/// The size that is reported for a file with this content.
fn reported_size(size: Option<u64>, content: &str) -> (reported: u64)
    ensures
        reported == requested_size(size, content@),
{
    match size {
        Some(size) => size,
        None => text::byte_length(content),
    }
}

/// The name under which a file record is written: its two numbers.
pub open spec fn record_name(file_number: u16, record_number: u16) -> Seq<char> {
    numbers::decimal(file_number as nat) + seq![':'] + numbers::decimal(record_number as nat)
}

/// The name under which a file record is written.
pub fn file_record_name(file_number: u16, record_number: u16) -> (name: String)
    ensures
        name@ == record_name(file_number, record_number),
{
    let mut name = String::new();
    numbers::push_decimal(&mut name, file_number as u64);
    name.push(':');
    numbers::push_decimal(&mut name, record_number as u64);
    assert(name@ =~= record_name(file_number, record_number));
    name
}

} // verus!
