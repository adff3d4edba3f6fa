//! The last known value of everything a device has, the writes that are staged
//! for it, and the outcome of the last write to each name.

use crate::table::NameTable;
use crate::values::{CoilValue, RegisterValue, StagedValue, WriteStatus};
use std::collections::HashMap;
use vstd::prelude::*;
use vstd::string::StringExecFns;

verus! {

broadcast use vstd::std_specs::hash::group_hash_axioms;

/// The value of each holding register, by name.
#[derive(Debug)]
pub struct RegisterStore {
    values: NameTable<RegisterValue>,
}

impl View for RegisterStore {
    type V = Map<Seq<char>, RegisterValue>;

    closed spec fn view(&self) -> Map<Seq<char>, RegisterValue> {
        self.values@
    }
}

impl Default for RegisterStore {
    fn default() -> (store: Self)
        ensures
            store@ == Map::<Seq<char>, RegisterValue>::empty(),
    {
        RegisterStore { values: NameTable::new() }
    }
}

impl RegisterStore {
    /// A store without values.
    pub fn new() -> (store: Self)
        ensures
            store@ == Map::<Seq<char>, RegisterValue>::empty(),
    {
        Self::default()
    }

    /// The value of `name`.
    pub fn get(&self, name: &str) -> (value: Option<RegisterValue>)
        ensures
            value == value_of(self@, name@),
    {
        match self.values.get(name) {
            Some(value) => Some(value.clone()),
            None => None,
        }
    }

    /// Gives `name` the value `value`.
    pub fn set(&mut self, name: &str, value: RegisterValue)
        ensures
            final(self)@ == old(self)@.insert(name@, value),
    {
        self.values.set(String::from_str(name), value);
    }
}

/// The value of each input register, by name.
#[derive(Debug)]
pub struct InputRegisterStore {
    values: NameTable<RegisterValue>,
}

impl View for InputRegisterStore {
    type V = Map<Seq<char>, RegisterValue>;

    closed spec fn view(&self) -> Map<Seq<char>, RegisterValue> {
        self.values@
    }
}

impl Default for InputRegisterStore {
    fn default() -> (store: Self)
        ensures
            store@ == Map::<Seq<char>, RegisterValue>::empty(),
    {
        InputRegisterStore { values: NameTable::new() }
    }
}

impl InputRegisterStore {
    /// A store without values.
    pub fn new() -> (store: Self)
        ensures
            store@ == Map::<Seq<char>, RegisterValue>::empty(),
    {
        Self::default()
    }

    /// The value of `name`.
    pub fn get(&self, name: &str) -> (value: Option<RegisterValue>)
        ensures
            value == value_of(self@, name@),
    {
        match self.values.get(name) {
            Some(value) => Some(value.clone()),
            None => None,
        }
    }

    /// Gives `name` the value `value`.
    pub fn set(&mut self, name: &str, value: RegisterValue)
        ensures
            final(self)@ == old(self)@.insert(name@, value),
    {
        self.values.set(String::from_str(name), value);
    }
}

/// The value of each coil, by name.
#[derive(Debug)]
pub struct CoilStore {
    values: NameTable<CoilValue>,
}

impl View for CoilStore {
    type V = Map<Seq<char>, CoilValue>;

    closed spec fn view(&self) -> Map<Seq<char>, CoilValue> {
        self.values@
    }
}

impl Default for CoilStore {
    fn default() -> (store: Self)
        ensures
            store@ == Map::<Seq<char>, CoilValue>::empty(),
    {
        CoilStore { values: NameTable::new() }
    }
}

impl CoilStore {
    /// A store without values.
    pub fn new() -> (store: Self)
        ensures
            store@ == Map::<Seq<char>, CoilValue>::empty(),
    {
        Self::default()
    }

    /// The value of `name`.
    pub fn get(&self, name: &str) -> (value: Option<CoilValue>)
        ensures
            value == value_of(self@, name@),
    {
        match self.values.get(name) {
            Some(value) => Some(*value),
            None => None,
        }
    }

    /// Gives `name` the value `value`.
    pub fn set(&mut self, name: &str, value: CoilValue)
        ensures
            final(self)@ == old(self)@.insert(name@, value),
    {
        self.values.set(String::from_str(name), value);
    }
}

/// The value of each discrete input, by name.
#[derive(Debug)]
pub struct DiscreteInputStore {
    values: NameTable<CoilValue>,
}

impl View for DiscreteInputStore {
    type V = Map<Seq<char>, CoilValue>;

    closed spec fn view(&self) -> Map<Seq<char>, CoilValue> {
        self.values@
    }
}

impl Default for DiscreteInputStore {
    fn default() -> (store: Self)
        ensures
            store@ == Map::<Seq<char>, CoilValue>::empty(),
    {
        DiscreteInputStore { values: NameTable::new() }
    }
}

impl DiscreteInputStore {
    /// A store without values.
    pub fn new() -> (store: Self)
        ensures
            store@ == Map::<Seq<char>, CoilValue>::empty(),
    {
        Self::default()
    }

    /// The value of `name`.
    pub fn get(&self, name: &str) -> (value: Option<CoilValue>)
        ensures
            value == value_of(self@, name@),
    {
        match self.values.get(name) {
            Some(value) => Some(*value),
            None => None,
        }
    }

    /// Gives `name` the value `value`.
    pub fn set(&mut self, name: &str, value: CoilValue)
        ensures
            final(self)@ == old(self)@.insert(name@, value),
    {
        self.values.set(String::from_str(name), value);
    }
}

/// The bytes of each file record, by its file number and record number.
#[derive(Debug)]
pub struct FileRecordStore {
    values: HashMap<u32, Vec<u8>>,
}

/// The number under which the record of a file is kept.
spec fn record_key(file_number: u16, record_number: u16) -> u32 {
    (file_number * 65536 + record_number) as u32
}

impl View for FileRecordStore {
    type V = Map<(u16, u16), Seq<u8>>;

    closed spec fn view(&self) -> Map<(u16, u16), Seq<u8>> {
        Map::new(
            |record: (u16, u16)| self.values@.dom().contains(record_key(record.0, record.1)),
            |record: (u16, u16)| self.values@[record_key(record.0, record.1)]@,
        )
    }
}

impl Default for FileRecordStore {
    fn default() -> (store: Self)
        ensures
            store@ == Map::<(u16, u16), Seq<u8>>::empty(),
    {
        let store = FileRecordStore { values: HashMap::new() };
        assert(store@ =~= Map::<(u16, u16), Seq<u8>>::empty());
        store
    }
}

impl FileRecordStore {
    /// A store without records.
    pub fn new() -> (store: Self)
        ensures
            store@ == Map::<(u16, u16), Seq<u8>>::empty(),
    {
        Self::default()
    }

    /// The bytes of a record.
    pub fn get(&self, file_number: u16, record_number: u16) -> (value: Option<&Vec<u8>>)
        ensures
            value is Some <==> self@.dom().contains((file_number, record_number)),
            value matches Some(bytes) ==> bytes@ == self@[(file_number, record_number)],
    {
        let key: u32 = file_number as u32 * 65536 + record_number as u32;
        self.values.get(&key)
    }

    /// Gives a record its bytes.
    pub fn set(&mut self, file_number: u16, record_number: u16, value: Vec<u8>)
        ensures
            final(self)@ == old(self)@.insert((file_number, record_number), value@),
    {
        let key: u32 = file_number as u32 * 65536 + record_number as u32;
        let ghost before = self@;
        self.values.insert(key, value);
        assert forall|record: (u16, u16)|
            record_key(record.0, record.1) == key <==> record == (file_number, record_number) by {
        }
        assert(self@ =~= before.insert((file_number, record_number), value@));
    }
}

/// The writes staged so far, by name.
#[derive(Debug)]
pub struct PendingTransaction {
    staged: NameTable<StagedValue>,
}

impl View for PendingTransaction {
    type V = Map<Seq<char>, StagedValue>;

    closed spec fn view(&self) -> Map<Seq<char>, StagedValue> {
        self.staged@
    }
}

impl Default for PendingTransaction {
    fn default() -> (pending: Self)
        ensures
            pending@ == Map::<Seq<char>, StagedValue>::empty(),
    {
        PendingTransaction { staged: NameTable::new() }
    }
}

impl PendingTransaction {
    /// A transaction without writes.
    pub fn new() -> (pending: Self)
        ensures
            pending@ == Map::<Seq<char>, StagedValue>::empty(),
    {
        Self::default()
    }

    /// Stages `value` for `name`, in place of what was staged for it.
    pub fn stage(&mut self, name: &str, value: StagedValue)
        ensures
            final(self)@ == old(self)@.insert(name@, value),
    {
        self.staged.set(String::from_str(name), value);
    }

    /// What is staged for `name`.
    pub fn get(&self, name: &str) -> (value: Option<StagedValue>)
        ensures
            value is Some <==> self@.dom().contains(name@),
            value matches Some(v) ==> v@ == self@[name@]@,
    {
        match self.staged.get(name) {
            Some(value) => Some(value.clone()),
            None => None,
        }
    }

    /// Takes back what is staged for `name`.
    pub fn unstage(&mut self, name: &str) -> (value: Option<StagedValue>)
        ensures
            final(self)@ == old(self)@.remove(name@),
            value == value_of(old(self)@, name@),
    {
        self.staged.remove(name)
    }

    /// Whether nothing is staged.
    pub fn is_empty(&self) -> (empty: bool)
        ensures
            empty <==> self@ == Map::<Seq<char>, StagedValue>::empty(),
    {
        self.staged.is_empty()
    }

    /// Takes everything that is staged and leaves nothing.
    pub fn drain(&mut self) -> (drained: NameTable<StagedValue>)
        ensures
            drained@ == old(self)@,
            final(self)@ == Map::<Seq<char>, StagedValue>::empty(),
    {
        let mut drained: NameTable<StagedValue> = NameTable::new();
        std::mem::swap(&mut drained, &mut self.staged);
        drained
    }
}

/// The outcome of the last write to each name.
#[derive(Debug)]
pub struct WriteReport {
    statuses: NameTable<WriteStatus>,
}

impl View for WriteReport {
    type V = Map<Seq<char>, WriteStatus>;

    closed spec fn view(&self) -> Map<Seq<char>, WriteStatus> {
        self.statuses@
    }
}

impl Default for WriteReport {
    fn default() -> (report: Self)
        ensures
            report@ == Map::<Seq<char>, WriteStatus>::empty(),
    {
        WriteReport { statuses: NameTable::new() }
    }
}

impl WriteReport {
    /// A report on no writes.
    pub fn new() -> (report: Self)
        ensures
            report@ == Map::<Seq<char>, WriteStatus>::empty(),
    {
        Self::default()
    }

    /// The outcome of the last write to `name`.
    pub fn get(&self, name: &str) -> (status: Option<&WriteStatus>)
        ensures
            status == (if self@.dom().contains(name@) {
                Some(&self@[name@])
            } else {
                None
            }),
    {
        self.statuses.get(name)
    }

    /// Records the outcome of a write to `name`, in place of the last one.
    pub fn set(&mut self, name: &str, status: WriteStatus)
        ensures
            final(self)@ == old(self)@.insert(name@, status),
    {
        self.statuses.set(String::from_str(name), status);
    }
}

/// The value of `key` among `values`.
pub open spec fn value_of<K, V>(values: Map<K, V>, key: K) -> Option<V> {
    if values.dom().contains(key) {
        Some(values[key])
    } else {
        None
    }
}

/// What was set last is what is read; nothing else changes.
pub proof fn law_set_is_read_back<K, V>(before: Map<K, V>, key: K, value: V, other: K)
    ensures
        value_of(before.insert(key, value), key) == Some(value),
        other != key ==> value_of(before.insert(key, value), other) == value_of(before, other),
{
}

/// Taking a staged value back leaves the transaction as if nothing had been staged
/// for its name.
pub proof fn law_unstaging_undoes_staging(
    before: Map<Seq<char>, StagedValue>,
    name: Seq<char>,
    value: StagedValue,
)
    ensures
        before.insert(name, value).remove(name) == before.remove(name),
        !before.dom().contains(name) ==> before.insert(name, value).remove(name) == before,
{
    assert(before.insert(name, value).remove(name) =~= before.remove(name));
    if !before.dom().contains(name) {
        assert(before.insert(name, value).remove(name) =~= before);
    }
}

} // verus!
