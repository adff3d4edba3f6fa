//! Carrying out a transaction: which requests write what was staged, and what is
//! reported of each name.
//!
//! Registers, and coils, at consecutive addresses are written by one request. A
//! device answers a request as a whole, so all names of a request get the same
//! outcome. The stores are left alone: they hold what was read from the device.

use crate::batching::{
    batches_cover, build_batches, insert_slot, joined, law_every_batch_fits, law_runs_cover_all,
    lemma_runs_hold, run_items, runs, slots_of, sorted_slots, total, Batch, Slot,
};
use crate::device_description::{
    CoilDescription, DataType, FileRecordDescription, MemLayout, RegisterDescription,
};
use crate::filesystem::{first_named, position_named, Named};
use crate::numbers;
use crate::pdu::{
    MaskWriteRegisterRequest, WriteFileRecordRequest, WriteMultipleCoilsRequest,
    WriteMultipleRegistersRequest, WriteSingleCoilRequest, WriteSingleRegisterRequest,
};
use crate::polling::{lemma_width_steps, total_width, words_values};
use crate::register_encoding::{
    law_word_count, law_words_read_back, register_value_to_words, value_words, words_value,
};
use crate::stores::WriteReport;
use crate::table::NameTable;
use crate::values::{CoilValue, Outcome, RegisterValue, Staged, StagedValue, WriteStatus};
use crate::write_confirmation::{
    confirm_reply, encode_coil_write_request, encode_write_request, mismatch, mismatch_text,
    reply_outcome, reply_view,
};
use crate::writing::{file_record_name, record_name};
use vstd::prelude::*;
use vstd::string::StringExecFns;

verus! {

/// How many registers one request may write.
pub const MAX_REGISTER_WRITE_BATCH_SIZE: u16 = 123;

/// How many coils one request may write.
pub const MAX_COIL_WRITE_BATCH_SIZE: u16 = 1968;

pub type RegisterWriteBatch = Batch<(RegisterDescription, RegisterValue)>;

pub type CoilWriteBatch = Batch<(CoilDescription, bool)>;

/// What is to be done with a staged value: write it to something of the device,
/// or refuse it and say why.
#[derive(Debug)]
pub enum Resolution {
    Register(RegisterDescription, RegisterValue),
    Coil(CoilDescription, bool),
    Mask(RegisterDescription, u16, u16),
    Record(u16, u16, Vec<u8>),
    Refused(String),
}

/// What a [`Resolution`] says.
pub ghost enum Resolved {
    Register(RegisterDescription, RegisterValue),
    Coil(CoilDescription, bool),
    Mask(RegisterDescription, u16, u16),
    Record(u16, u16, Seq<u8>),
    Refused(Seq<char>),
}

impl View for Resolution {
    type V = Resolved;

    open spec fn view(&self) -> Resolved {
        match self {
            Resolution::Register(register, value) => Resolved::Register(*register, *value),
            Resolution::Coil(coil, value) => Resolved::Coil(*coil, *value),
            Resolution::Mask(register, and_mask, or_mask) => Resolved::Mask(
                *register,
                *and_mask,
                *or_mask,
            ),
            Resolution::Record(file_number, record_number, value) => Resolved::Record(
                *file_number,
                *record_number,
                value@,
            ),
            Resolution::Refused(reason) => Resolved::Refused(reason@),
        }
    }
}

/// The first of `records` with these numbers.
pub open spec fn first_record(
    records: Seq<FileRecordDescription>,
    file_number: u16,
    record_number: u16,
) -> Option<FileRecordDescription>
    decreases records.len(),
{
    if records.len() == 0 {
        None
    } else if records[0].file_number == file_number && records[0].record_number == record_number {
        Some(records[0])
    } else {
        first_record(records.drop_first(), file_number, record_number)
    }
}

/// What is to be done with what was staged under `name`.
pub open spec fn resolved(
    name: Seq<char>,
    staged: Staged,
    registers: Seq<RegisterDescription>,
    coils: Seq<CoilDescription>,
    file_records: Seq<FileRecordDescription>,
) -> Resolved {
    match staged {
        Staged::Register(value) => match first_named(registers, name) {
            Some(i) => if registers[i].data_type == value.kind() {
                Resolved::Register(registers[i], value)
            } else {
                Resolved::Refused(mismatch(name, registers[i], value))
            },
            None => Resolved::Refused("unknown register: "@ + name),
        },
        Staged::Coil(value) => match first_named(coils, name) {
            Some(i) => Resolved::Coil(coils[i], value.0),
            None => Resolved::Refused("unknown coil: "@ + name),
        },
        Staged::DiscreteInput(_) => Resolved::Refused(
            "discrete input "@ + name + ": never writable via Modbus"@,
        ),
        Staged::InputRegister(_) => Resolved::Refused(
            "input register "@ + name + ": never writable via Modbus"@,
        ),
        Staged::FileRecord { file_number, record_number, value } => match first_record(
            file_records,
            file_number,
            record_number,
        ) {
            Some(description) => if value.len() == description.record_length * 2 {
                Resolved::Record(file_number, record_number, value)
            } else {
                Resolved::Refused(
                    "file record "@ + record_name(file_number, record_number) + ": expected "@
                        + numbers::decimal((description.record_length * 2) as nat)
                        + " bytes but got "@ + numbers::decimal(value.len()),
                )
            },
            None => Resolved::Refused(
                "unknown file record: "@ + record_name(file_number, record_number),
            ),
        },
        Staged::MaskedRegister { and_mask, or_mask } => match first_named(registers, name) {
            Some(i) => if registers[i].data_type.width() == 1 {
                Resolved::Mask(registers[i], and_mask, or_mask)
            } else {
                Resolved::Refused(
                    "register "@ + name + ": "@ + registers[i].data_type.label() + " needs "@
                        + numbers::decimal(registers[i].data_type.width())
                        + " registers, Mask Write Register can only target a single register"@,
                )
            },
            None => Resolved::Refused("unknown register: "@ + name),
        },
    }
}

/// The first record with these numbers is found.
pub proof fn lemma_first_record(
    records: Seq<FileRecordDescription>,
    file_number: u16,
    record_number: u16,
    i: int,
)
    requires
        0 <= i <= records.len(),
        forall|j: int|
            0 <= j < i ==> !((#[trigger] records[j]).file_number == file_number
                && records[j].record_number == record_number),
        i < records.len() ==> records[i].file_number == file_number && records[i].record_number
            == record_number,
    ensures
        first_record(records, file_number, record_number) == (if i < records.len() {
            Some(records[i])
        } else {
            None
        }),
    decreases i,
{
    if i > 0 {
        assert(!(records[0].file_number == file_number && records[0].record_number
            == record_number));
        let rest = records.drop_first();
        assert forall|j: int| 0 <= j < i - 1 implies !((#[trigger] rest[j]).file_number
            == file_number && rest[j].record_number == record_number) by {
            assert(rest[j] == records[j + 1]);
        }
        lemma_first_record(rest, file_number, record_number, i - 1);
    }
}

/// The first of `records` with these numbers.
fn find_record(
    records: &[FileRecordDescription],
    file_number: u16,
    record_number: u16,
) -> (found: Option<FileRecordDescription>)
    ensures
        found == first_record(records@, file_number, record_number),
{
    let mut i: usize = 0;
    while i < records.len()
        invariant
            i <= records@.len(),
            forall|j: int|
                0 <= j < i ==> !((#[trigger] records@[j]).file_number == file_number
                    && records@[j].record_number == record_number),
        decreases records@.len() - i,
    {
        if records[i].file_number == file_number && records[i].record_number == record_number {
            proof {
                lemma_first_record(records@, file_number, record_number, i as int);
            }
            return Some(records[i]);
        }
        i = i + 1;
    }
    proof {
        lemma_first_record(records@, file_number, record_number, i as int);
    }
    None
}

/// A refusal whose reason is `name` between two texts.
fn refused(front: &str, name: &str, back: &str) -> (resolution: Resolution)
    ensures
        resolution@ == Resolved::Refused(front@ + name@ + back@),
{
    let mut reason = String::from_str(front);
    reason.append(name);
    reason.append(back);
    Resolution::Refused(reason)
}

/// A refusal whose reason ends in `name`.
fn unknown(front: &str, name: &str) -> (resolution: Resolution)
    ensures
        resolution@ == Resolved::Refused(front@ + name@),
{
    let mut reason = String::from_str(front);
    reason.append(name);
    Resolution::Refused(reason)
}

/// Finds out what is to be done with what was staged under `name`.
pub fn resolve_staged(
    name: &str,
    staged: StagedValue,
    registers: &[RegisterDescription],
    coils: &[CoilDescription],
    file_records: &[FileRecordDescription],
) -> (resolution: Resolution)
    ensures
        resolution@ == resolved(name@, staged@, registers@, coils@, file_records@),
{
    match staged {
        StagedValue::Register(value) => match position_named(registers, name) {
            Some(i) => {
                let register = &registers[i];
                if register.data_type == value.data_type() {
                    Resolution::Register(register.clone(), value)
                } else {
                    Resolution::Refused(mismatch_text(name, register, &value))
                }
            },
            None => unknown("unknown register: ", name),
        },
        StagedValue::Coil(value) => match position_named(coils, name) {
            Some(i) => Resolution::Coil(coils[i].clone(), value.0),
            None => unknown("unknown coil: ", name),
        },
        StagedValue::DiscreteInput(_) => refused(
            "discrete input ",
            name,
            ": never writable via Modbus",
        ),
        StagedValue::InputRegister(_) => refused(
            "input register ",
            name,
            ": never writable via Modbus",
        ),
        StagedValue::FileRecord { file_number, record_number, value } => {
            match find_record(file_records, file_number, record_number) {
                Some(description) => {
                    let expected: usize = description.record_length as usize * 2;
                    if value.len() == expected {
                        return Resolution::Record(file_number, record_number, value);
                    }
                    let mut reason = String::from_str("file record ");
                    reason.append(file_record_name(file_number, record_number).as_str());
                    reason.append(": expected ");
                    numbers::push_decimal(&mut reason, expected as u64);
                    reason.append(" bytes but got ");
                    numbers::push_decimal(&mut reason, value.len() as u64);
                    Resolution::Refused(reason)
                },
                None => {
                    let mut reason = String::from_str("unknown file record: ");
                    reason.append(file_record_name(file_number, record_number).as_str());
                    Resolution::Refused(reason)
                },
            }
        },
        StagedValue::MaskedRegister { and_mask, or_mask } => match position_named(registers, name) {
            Some(i) => {
                let register = &registers[i];
                if register.data_type.register_count() == 1 {
                    return Resolution::Mask(register.clone(), and_mask, or_mask);
                }
                let mut reason = String::from_str("register ");
                reason.append(name);
                reason.append(": ");
                reason.append(register.data_type.name());
                reason.append(" needs ");
                numbers::push_decimal(&mut reason, register.data_type.register_count() as u64);
                reason.append(
                    " registers, Mask Write Register can only target a single register",
                );
                Resolution::Refused(reason)
            },
            None => unknown("unknown register: ", name),
        },
    }
}

/// Where registers to be written lie and how many addresses each takes.
pub open spec fn register_entry_slots(entries: Seq<(RegisterDescription, RegisterValue)>) -> Seq<
    Slot<(RegisterDescription, RegisterValue)>,
> {
    entries.map_values(
        |entry: (RegisterDescription, RegisterValue)|
            Slot { address: entry.0.address, size: entry.0.data_type.width() as u16, item: entry },
    )
}

/// Where coils to be written lie; each takes one address.
pub open spec fn coil_entry_slots(entries: Seq<(CoilDescription, bool)>) -> Seq<
    Slot<(CoilDescription, bool)>,
> {
    entries.map_values(
        |entry: (CoilDescription, bool)|
            Slot { address: entry.0.address, size: 1u16, item: entry },
    )
}

/// The types of the registers to be written.
pub open spec fn entry_types(entries: Seq<(RegisterDescription, RegisterValue)>) -> Seq<DataType> {
    entries.map_values(|entry: (RegisterDescription, RegisterValue)| entry.0.data_type)
}

/// Whether each value has the type of its register.
pub open spec fn types_agree(entries: Seq<(RegisterDescription, RegisterValue)>) -> bool {
    forall|i: int|
        0 <= i < entries.len() ==> (#[trigger] entries[i]).0.data_type == entries[i].1.kind()
}

/// The registers of a run take as many words as their types say.
pub proof fn lemma_entries_width(run: Seq<Slot<(RegisterDescription, RegisterValue)>>)
    requires
        forall|i: int|
            0 <= i < run.len() ==> (#[trigger] run[i]).size == run[i].item.0.data_type.width(),
    ensures
        total(run) == total_width(entry_types(run_items(run))),
    decreases run.len(),
{
    if run.len() > 0 {
        let front = run.drop_last();
        assert forall|i: int| 0 <= i < front.len() implies (#[trigger] front[i]).size
            == front[i].item.0.data_type.width() by {
            assert(front[i] == run[i]);
        }
        lemma_entries_width(front);
        assert(entry_types(run_items(run)).drop_last() =~= entry_types(run_items(front)));
        assert(run[run.len() - 1].size == run.last().item.0.data_type.width());
    }
}

/// The coils of a run take an address each.
pub proof fn lemma_coil_entries_count(run: Seq<Slot<(CoilDescription, bool)>>)
    requires
        forall|i: int| 0 <= i < run.len() ==> (#[trigger] run[i]).size == 1,
    ensures
        total(run) == run_items(run).len(),
    decreases run.len(),
{
    if run.len() > 0 {
        let front = run.drop_last();
        assert forall|i: int| 0 <= i < front.len() implies (#[trigger] front[i]).size == 1 by {
            assert(front[i] == run[i]);
        }
        lemma_coil_entries_count(front);
        assert(run[run.len() - 1].size == 1);
    }
}

/// Groups registers and the values to be written to them into the fewest
/// requests that write them all.
pub fn build_register_write_batches(
    entries: Vec<(RegisterDescription, RegisterValue)>,
) -> (batches: Vec<RegisterWriteBatch>)
    ensures
        batches_cover(
            batches@,
            runs(sorted_slots(register_entry_slots(entries@)), MAX_REGISTER_WRITE_BATCH_SIZE),
        ),
        forall|i: int|
            0 <= i < batches@.len() ==> 1 <= (#[trigger] batches@[i]).quantity
                <= MAX_REGISTER_WRITE_BATCH_SIZE && total_width(entry_types(batches@[i].items@))
                == batches@[i].quantity,
        types_agree(entries@) ==> forall|i: int|
            0 <= i < batches@.len() ==> types_agree((#[trigger] batches@[i]).items@),
{
    let ghost all = entries@;
    let address_of = |entry: &(RegisterDescription, RegisterValue)| -> (address: u16)
        ensures
            address == entry.0.address,
        { entry.0.address };
    let size_of = |entry: &(RegisterDescription, RegisterValue)| -> (size: u16)
        ensures
            size == entry.0.data_type.width(),
        { entry.0.data_type.register_count() };
    let batches = build_batches(entries, address_of, size_of, MAX_REGISTER_WRITE_BATCH_SIZE);
    proof {
        let slots = choose|slots: Seq<Slot<(RegisterDescription, RegisterValue)>>|
            {
                &&& #[trigger] slots_of(slots, all, address_of, size_of)
                &&& batches_cover(
                    batches@,
                    runs(sorted_slots(slots), MAX_REGISTER_WRITE_BATCH_SIZE),
                )
            };
        assert(slots =~= register_entry_slots(all));
        law_every_batch_fits(slots, MAX_REGISTER_WRITE_BATCH_SIZE);
        lemma_runs_hold(
            slots,
            MAX_REGISTER_WRITE_BATCH_SIZE,
            |slot: Slot<(RegisterDescription, RegisterValue)>|
                slot.size == slot.item.0.data_type.width(),
        );
        let groups = runs(sorted_slots(slots), MAX_REGISTER_WRITE_BATCH_SIZE);
        assert forall|i: int| 0 <= i < batches@.len() implies 1 <= (#[trigger] batches@[i]).quantity
            <= MAX_REGISTER_WRITE_BATCH_SIZE && total_width(entry_types(batches@[i].items@))
            == batches@[i].quantity by {
            assert(batches@[i].covers(groups[i]));
            lemma_entries_width(groups[i]);
        }
        if types_agree(all) {
            lemma_runs_hold(
                slots,
                MAX_REGISTER_WRITE_BATCH_SIZE,
                |slot: Slot<(RegisterDescription, RegisterValue)>|
                    slot.item.0.data_type == slot.item.1.kind(),
            );
            assert forall|i: int| 0 <= i < batches@.len() implies types_agree(
                (#[trigger] batches@[i]).items@,
            ) by {
                assert(batches@[i].covers(groups[i]));
                assert forall|j: int| 0 <= j < batches@[i].items@.len() implies (
                #[trigger] batches@[i].items@[j]).0.data_type == batches@[i].items@[j].1.kind() by {
                    assert(batches@[i].items@[j] == groups[i][j].item);
                }
            }
        }
    }
    batches
}

/// Groups coils and the values to be written to them into the fewest requests
/// that write them all.
pub fn build_coil_write_batches(entries: Vec<(CoilDescription, bool)>) -> (batches: Vec<
    CoilWriteBatch,
>)
    ensures
        batches_cover(
            batches@,
            runs(sorted_slots(coil_entry_slots(entries@)), MAX_COIL_WRITE_BATCH_SIZE),
        ),
        forall|i: int|
            0 <= i < batches@.len() ==> 1 <= (#[trigger] batches@[i]).quantity
                <= MAX_COIL_WRITE_BATCH_SIZE && batches@[i].items@.len() == batches@[i].quantity,
{
    let ghost all = entries@;
    let address_of = |entry: &(CoilDescription, bool)| -> (address: u16)
        ensures
            address == entry.0.address,
        { entry.0.address };
    let size_of = |entry: &(CoilDescription, bool)| -> (size: u16)
        ensures
            size == 1,
        { 1 };
    let batches = build_batches(entries, address_of, size_of, MAX_COIL_WRITE_BATCH_SIZE);
    proof {
        let slots = choose|slots: Seq<Slot<(CoilDescription, bool)>>|
            {
                &&& #[trigger] slots_of(slots, all, address_of, size_of)
                &&& batches_cover(batches@, runs(sorted_slots(slots), MAX_COIL_WRITE_BATCH_SIZE))
            };
        assert(slots =~= coil_entry_slots(all));
        law_every_batch_fits(slots, MAX_COIL_WRITE_BATCH_SIZE);
        lemma_runs_hold(
            slots,
            MAX_COIL_WRITE_BATCH_SIZE,
            |slot: Slot<(CoilDescription, bool)>| slot.size == 1,
        );
        let groups = runs(sorted_slots(slots), MAX_COIL_WRITE_BATCH_SIZE);
        assert forall|i: int| 0 <= i < batches@.len() implies 1 <= (#[trigger] batches@[i]).quantity
            <= MAX_COIL_WRITE_BATCH_SIZE && batches@[i].items@.len() == batches@[i].quantity by {
            assert(batches@[i].covers(groups[i]));
            lemma_coil_entries_count(groups[i]);
        }
    }
    batches
}

/// A request that writes, and the names that it writes.
#[derive(Debug, Clone, PartialEq)]
pub struct PlannedWrite {
    pub names: Vec<String>,
    pub request: Vec<u8>,
}

/// What a [`PlannedWrite`] says.
pub ghost struct Write {
    pub names: Seq<Seq<char>>,
    pub request: Seq<u8>,
}

/// The texts of `names`.
pub open spec fn texts(names: Seq<String>) -> Seq<Seq<char>> {
    names.map_values(|name: String| name@)
}

impl View for PlannedWrite {
    type V = Write;

    open spec fn view(&self) -> Write {
        Write { names: texts(self.names@), request: self.request@ }
    }
}

/// What each of `writes` says.
pub open spec fn write_views(writes: Seq<PlannedWrite>) -> Seq<Write> {
    writes.map_values(|write: PlannedWrite| write@)
}

/// The names of the registers to be written.
pub open spec fn entry_names(entries: Seq<(RegisterDescription, RegisterValue)>) -> Seq<Seq<char>> {
    entries.map_values(|entry: (RegisterDescription, RegisterValue)| entry.0.name@)
}

/// The names of the coils to be written.
pub open spec fn coil_entry_names(entries: Seq<(CoilDescription, bool)>) -> Seq<Seq<char>> {
    entries.map_values(|entry: (CoilDescription, bool)| entry.0.name@)
}

/// The values of the coils to be written.
pub open spec fn coil_entry_values(entries: Seq<(CoilDescription, bool)>) -> Seq<bool> {
    entries.map_values(|entry: (CoilDescription, bool)| entry.1)
}

/// The words of the values to be written, one value behind the other.
pub open spec fn entry_words(
    entries: Seq<(RegisterDescription, RegisterValue)>,
    mem_layout: MemLayout,
) -> Seq<u16>
    decreases entries.len(),
{
    if entries.len() == 0 {
        Seq::empty()
    } else {
        entry_words(entries.drop_last(), mem_layout) + value_words(entries.last().1, mem_layout)
    }
}

/// How registers at consecutive addresses are written: a single word by Write
/// Single Register, more by Write Multiple Registers.
pub open spec fn register_write(
    starting_address: u16,
    entries: Seq<(RegisterDescription, RegisterValue)>,
    quantity: int,
    mem_layout: MemLayout,
) -> Write {
    Write {
        names: entry_names(entries),
        request: if quantity == 1 {
            (WriteSingleRegisterRequest {
                register_address: entries[0].0.address,
                register_value: value_words(entries[0].1, mem_layout)[0],
            }).message()
        } else {
            WriteMultipleRegistersRequest::message(
                starting_address,
                entry_words(entries, mem_layout),
            )
        },
    }
}

/// How coils at consecutive addresses are written: a single one by Write Single
/// Coil, more by Write Multiple Coils.
pub open spec fn coil_write(starting_address: u16, entries: Seq<(CoilDescription, bool)>) -> Write {
    Write {
        names: coil_entry_names(entries),
        request: if entries.len() == 1 {
            (WriteSingleCoilRequest {
                coil_address: entries[0].0.address,
                coil_value: entries[0].1,
            }).message()
        } else {
            WriteMultipleCoilsRequest::message(starting_address, coil_entry_values(entries))
        },
    }
}

/// How some bits of a register are written: by a request of its own.
pub open spec fn mask_write(register: RegisterDescription, and_mask: u16, or_mask: u16) -> Write {
    Write {
        names: seq![register.name@],
        request: (MaskWriteRegisterRequest {
            reference_address: register.address,
            and_mask,
            or_mask,
        }).message(),
    }
}

/// How a file record is written: by a request of its own.
pub open spec fn record_write(
    name: Seq<char>,
    file_number: u16,
    record_number: u16,
    value: Seq<u8>,
) -> Write {
    Write {
        names: seq![name],
        request: WriteFileRecordRequest::message(file_number, record_number, value),
    }
}

/// Writes the request that writes the registers of `batch`.
pub fn register_batch_write(batch: &RegisterWriteBatch, mem_layout: MemLayout) -> (write:
    PlannedWrite)
    requires
        total_width(entry_types(batch.items@)) == batch.quantity,
        types_agree(batch.items@),
    ensures
        write@ == register_write(
            batch.starting_address,
            batch.items@,
            batch.quantity as int,
            mem_layout,
        ),
{
    let mut names: Vec<String> = Vec::new();
    let mut values: Vec<u16> = Vec::new();
    let mut i: usize = 0;
    while i < batch.items.len()
        invariant
            i <= batch.items@.len(),
            texts(names@) == entry_names(batch.items@.take(i as int)),
            values@ == entry_words(batch.items@.take(i as int), mem_layout),
        decreases batch.items@.len() - i,
    {
        proof {
            assert(batch.items@.take(i + 1).drop_last() =~= batch.items@.take(i as int));
        }
        let (register, value) = &batch.items[i];
        let ghost before = names@;
        names.push(register.name.clone());
        proof {
            assert(texts(names@) =~= texts(before).push(register.name@));
            assert(entry_names(batch.items@.take(i + 1)) =~= entry_names(
                batch.items@.take(i as int),
            ).push(
                register.name@,
            ));
        }
        let mut words = register_value_to_words(value.clone(), mem_layout);
        values.append(&mut words);
        i = i + 1;
    }
    assert(batch.items@.take(i as int) =~= batch.items@);
    let request = if batch.quantity() == 1 {
        proof {
            let types = entry_types(batch.items@);
            assert(types.len() > 0);
            lemma_width_steps(types, 0);
            assert(types.take(0) =~= Seq::<DataType>::empty());
            assert(types[0] == batch.items@[0].0.data_type);
            assert(batch.items@[0].0.data_type == batch.items@[0].1.kind());
        }
        let (register, value) = &batch.items[0];
        match encode_write_request(register, value.clone(), mem_layout) {
            Ok(request) => request,
            Err(_) => {
                assert(false);
                Vec::new()
            },
        }
    } else {
        WriteMultipleRegistersRequest {
            starting_address: batch.starting_address,
            register_values: values,
        }.encode()
    };
    PlannedWrite { names, request }
}

/// Writes the request that writes the coils of `batch`.
pub fn coil_batch_write(batch: &CoilWriteBatch) -> (write: PlannedWrite)
    ensures
        write@ == coil_write(batch.starting_address, batch.items@),
{
    let mut names: Vec<String> = Vec::new();
    let mut values: Vec<bool> = Vec::new();
    let mut i: usize = 0;
    while i < batch.items.len()
        invariant
            i <= batch.items@.len(),
            texts(names@) == coil_entry_names(batch.items@.take(i as int)),
            values@ == coil_entry_values(batch.items@.take(i as int)),
        decreases batch.items@.len() - i,
    {
        let (coil, value) = &batch.items[i];
        let ghost before = names@;
        names.push(coil.name.clone());
        proof {
            assert(texts(names@) =~= texts(before).push(coil.name@));
            assert(coil_entry_names(batch.items@.take(i + 1)) =~= coil_entry_names(
                batch.items@.take(i as int),
            ).push(
                coil.name@,
            ));
        }
        values.push(*value);
        i = i + 1;
        assert(values@ =~= coil_entry_values(batch.items@.take(i as int)));
    }
    assert(batch.items@.take(i as int) =~= batch.items@);
    let request = if batch.items.len() == 1 {
        let (coil, value) = &batch.items[0];
        encode_coil_write_request(coil, CoilValue(*value))
    } else {
        WriteMultipleCoilsRequest {
            starting_address: batch.starting_address,
            coil_values: values,
        }.encode()
    };
    PlannedWrite { names, request }
}

/// What is to be done with each staged value, by its name.
pub open spec fn resolutions(
    items: Seq<(String, StagedValue)>,
    registers: Seq<RegisterDescription>,
    coils: Seq<CoilDescription>,
    file_records: Seq<FileRecordDescription>,
) -> Seq<(Seq<char>, Resolved)> {
    items.map_values(
        |item: (String, StagedValue)|
            (item.0@, resolved(item.0@, item.1@, registers, coils, file_records)),
    )
}

/// The registers to be written.
pub open spec fn register_entries(all: Seq<(Seq<char>, Resolved)>) -> Seq<
    (RegisterDescription, RegisterValue),
>
    decreases all.len(),
{
    if all.len() == 0 {
        Seq::empty()
    } else {
        let front = register_entries(all.drop_last());
        match all.last().1 {
            Resolved::Register(register, value) => front.push((register, value)),
            _ => front,
        }
    }
}

/// The coils to be written.
pub open spec fn coil_entries(all: Seq<(Seq<char>, Resolved)>) -> Seq<(CoilDescription, bool)>
    decreases all.len(),
{
    if all.len() == 0 {
        Seq::empty()
    } else {
        let front = coil_entries(all.drop_last());
        match all.last().1 {
            Resolved::Coil(coil, value) => front.push((coil, value)),
            _ => front,
        }
    }
}

/// The writes of some bits of a register.
pub open spec fn mask_writes(all: Seq<(Seq<char>, Resolved)>) -> Seq<Write>
    decreases all.len(),
{
    if all.len() == 0 {
        Seq::empty()
    } else {
        let front = mask_writes(all.drop_last());
        match all.last().1 {
            Resolved::Mask(register, and_mask, or_mask) => front.push(
                mask_write(register, and_mask, or_mask),
            ),
            _ => front,
        }
    }
}

/// The writes of file records.
pub open spec fn record_writes(all: Seq<(Seq<char>, Resolved)>) -> Seq<Write>
    decreases all.len(),
{
    if all.len() == 0 {
        Seq::empty()
    } else {
        let front = record_writes(all.drop_last());
        match all.last().1 {
            Resolved::Record(file_number, record_number, value) => front.push(
                record_write(all.last().0, file_number, record_number, value),
            ),
            _ => front,
        }
    }
}

/// What is reported once the values that cannot be written are refused.
pub open spec fn refusals(
    before: Map<Seq<char>, Outcome>,
    all: Seq<(Seq<char>, Resolved)>,
) -> Map<Seq<char>, Outcome>
    decreases all.len(),
{
    if all.len() == 0 {
        before
    } else {
        let front = refusals(before, all.drop_last());
        match all.last().1 {
            Resolved::Refused(reason) => front.insert(all.last().0, Outcome::Failed(reason)),
            _ => front,
        }
    }
}

/// The writes of registers, one for each run of addresses.
pub open spec fn register_writes(
    groups: Seq<Seq<Slot<(RegisterDescription, RegisterValue)>>>,
    mem_layout: MemLayout,
) -> Seq<Write> {
    groups.map_values(
        |run: Seq<Slot<(RegisterDescription, RegisterValue)>>|
            register_write(run[0].address, run_items(run), total(run), mem_layout),
    )
}

/// The writes of coils, one for each run of addresses.
pub open spec fn coil_writes(groups: Seq<Seq<Slot<(CoilDescription, bool)>>>) -> Seq<Write> {
    groups.map_values(
        |run: Seq<Slot<(CoilDescription, bool)>>| coil_write(run[0].address, run_items(run)),
    )
}

/// The registers to be written, in runs of addresses.
pub open spec fn register_groups(all: Seq<(Seq<char>, Resolved)>) -> Seq<
    Seq<Slot<(RegisterDescription, RegisterValue)>>,
> {
    runs(
        sorted_slots(register_entry_slots(register_entries(all))),
        MAX_REGISTER_WRITE_BATCH_SIZE,
    )
}

/// The coils to be written, in runs of addresses.
pub open spec fn coil_groups(all: Seq<(Seq<char>, Resolved)>) -> Seq<
    Seq<Slot<(CoilDescription, bool)>>,
> {
    runs(sorted_slots(coil_entry_slots(coil_entries(all))), MAX_COIL_WRITE_BATCH_SIZE)
}

/// The writes that carry out a transaction.
pub open spec fn planned(all: Seq<(Seq<char>, Resolved)>, mem_layout: MemLayout) -> Seq<Write> {
    register_writes(register_groups(all), mem_layout) + coil_writes(coil_groups(all)) + mask_writes(
        all,
    ) + record_writes(all)
}

/// The writes that carry out a transaction of `items`.
pub open spec fn plan(
    items: Seq<(String, StagedValue)>,
    registers: Seq<RegisterDescription>,
    coils: Seq<CoilDescription>,
    file_records: Seq<FileRecordDescription>,
    mem_layout: MemLayout,
) -> Seq<Write> {
    planned(resolutions(items, registers, coils, file_records), mem_layout)
}

/// What is reported once the values of a transaction of `items` that cannot be written
/// are refused.
pub open spec fn refused_at_once(
    before: Map<Seq<char>, Outcome>,
    items: Seq<(String, StagedValue)>,
    registers: Seq<RegisterDescription>,
    coils: Seq<CoilDescription>,
    file_records: Seq<FileRecordDescription>,
) -> Map<Seq<char>, Outcome> {
    refusals(before, resolutions(items, registers, coils, file_records))
}

/// What a report says of each name.
pub open spec fn outcomes(report: Map<Seq<char>, WriteStatus>) -> Map<Seq<char>, Outcome> {
    report.map_values(|status: WriteStatus| status@)
}

/// What is reported once all of `names` got the outcome `outcome`.
pub open spec fn recorded(
    before: Map<Seq<char>, Outcome>,
    names: Seq<Seq<char>>,
    outcome: Outcome,
) -> Map<Seq<char>, Outcome>
    decreases names.len(),
{
    if names.len() == 0 {
        before
    } else {
        recorded(before, names.drop_last(), outcome).insert(names.last(), outcome)
    }
}

/// The values that are written have the types of their registers.
pub proof fn lemma_types_agree(
    items: Seq<(String, StagedValue)>,
    registers: Seq<RegisterDescription>,
    coils: Seq<CoilDescription>,
    file_records: Seq<FileRecordDescription>,
)
    ensures
        types_agree(register_entries(resolutions(items, registers, coils, file_records))),
    decreases items.len(),
{
    let all = resolutions(items, registers, coils, file_records);
    if items.len() > 0 {
        assert(all.drop_last() =~= resolutions(items.drop_last(), registers, coils, file_records));
        lemma_types_agree(items.drop_last(), registers, coils, file_records);
    }
}

fn set_outcome(report: &mut WriteReport, name: &str, status: WriteStatus)
    ensures
        outcomes(final(report)@) == outcomes(old(report)@).insert(name@, status@),
{
    report.set(name, status);
    assert(outcomes(report@) =~= outcomes(old(report)@).insert(name@, status@));
}

fn one_name(name: String) -> (names: Vec<String>)
    ensures
        texts(names@) == seq![name@],
{
    let mut names: Vec<String> = Vec::new();
    names.push(name);
    assert(texts(names@) =~= seq![name@]);
    names
}

fn push_write(writes: &mut Vec<PlannedWrite>, write: PlannedWrite)
    ensures
        write_views(final(writes)@) == write_views(old(writes)@).push(write@),
{
    writes.push(write);
    assert(write_views(writes@) =~= write_views(old(writes)@).push(write@));
}

/// Works out how a transaction is carried out. Values that cannot be written are
/// refused in `report` at once; the others are left to the writes.
pub fn plan_transaction(
    transaction: NameTable<StagedValue>,
    registers: &[RegisterDescription],
    coils: &[CoilDescription],
    file_records: &[FileRecordDescription],
    mem_layout: MemLayout,
    report: &mut WriteReport,
) -> (writes: Vec<PlannedWrite>)
    ensures
        write_views(writes@) == plan(
            transaction.items(),
            registers@,
            coils@,
            file_records@,
            mem_layout,
        ),
        outcomes(final(report)@) == refused_at_once(
            outcomes(old(report)@),
            transaction.items(),
            registers@,
            coils@,
            file_records@,
        ),
{
    let ghost items = transaction.items();
    let ghost all = resolutions(items, registers@, coils@, file_records@);
    let mut register_items: Vec<(RegisterDescription, RegisterValue)> = Vec::new();
    let mut coil_items: Vec<(CoilDescription, bool)> = Vec::new();
    let mut masks: Vec<PlannedWrite> = Vec::new();
    let mut records: Vec<PlannedWrite> = Vec::new();
    assert(write_views(masks@) =~= Seq::<Write>::empty());
    assert(write_views(records@) =~= Seq::<Write>::empty());
    let entries = transaction.into_entries();
    for entry in it: entries
        invariant
            it.seq() == items,
            all == resolutions(items, registers@, coils@, file_records@),
            register_items@ == register_entries(all.take(it.index() as int)),
            coil_items@ == coil_entries(all.take(it.index() as int)),
            write_views(masks@) == mask_writes(all.take(it.index() as int)),
            write_views(records@) == record_writes(all.take(it.index() as int)),
            outcomes(report@) == refusals(outcomes(old(report)@), all.take(it.index() as int)),
    {
        proof {
            let here = it.index() as int;
            assert(all.take(here + 1).drop_last() =~= all.take(here));
            assert(all.take(here + 1).last() == all[here]);
        }
        let (name, staged) = entry;
        match resolve_staged(name.as_str(), staged, registers, coils, file_records) {
            Resolution::Register(register, value) => {
                register_items.push((register, value));
            },
            Resolution::Coil(coil, value) => {
                coil_items.push((coil, value));
            },
            Resolution::Mask(register, and_mask, or_mask) => {
                let request = MaskWriteRegisterRequest {
                    reference_address: register.address,
                    and_mask,
                    or_mask,
                }.encode();
                let names = one_name(register.name);
                push_write(&mut masks, PlannedWrite { names, request });
            },
            Resolution::Record(file_number, record_number, value) => {
                let request = WriteFileRecordRequest {
                    file_number,
                    record_number,
                    record_data: value,
                }.encode();
                let names = one_name(name);
                push_write(&mut records, PlannedWrite { names, request });
            },
            Resolution::Refused(reason) => {
                set_outcome(report, name.as_str(), WriteStatus::Failed(reason));
            },
        }
    }
    proof {
        assert(all.take(all.len() as int) =~= all);
        lemma_types_agree(items, registers@, coils@, file_records@);
    }
    let mut writes: Vec<PlannedWrite> = Vec::new();
    assert(write_views(writes@) =~= Seq::<Write>::empty());
    let register_batches = build_register_write_batches(register_items);
    let ghost register_plan = register_writes(register_groups(all), mem_layout);
    let mut i: usize = 0;
    while i < register_batches.len()
        invariant
            i <= register_batches@.len(),
            batches_cover(register_batches@, register_groups(all)),
            forall|k: int|
                0 <= k < register_batches@.len() ==> total_width(
                    entry_types((#[trigger] register_batches@[k]).items@),
                ) == register_batches@[k].quantity,
            forall|k: int|
                0 <= k < register_batches@.len() ==> types_agree(
                    (#[trigger] register_batches@[k]).items@,
                ),
            register_plan == register_writes(register_groups(all), mem_layout),
            write_views(writes@) == register_plan.take(i as int),
        decreases register_batches@.len() - i,
    {
        assert(register_batches@[i as int].covers(register_groups(all)[i as int]));
        let write = register_batch_write(&register_batches[i], mem_layout);
        assert(write@ == register_plan[i as int]);
        push_write(&mut writes, write);
        i = i + 1;
        assert(write_views(writes@) =~= register_plan.take(i as int));
    }
    assert(register_plan.take(i as int) =~= register_plan);
    let coil_batches = build_coil_write_batches(coil_items);
    let ghost coil_plan = coil_writes(coil_groups(all));
    let mut i: usize = 0;
    assert(write_views(writes@) =~= register_plan + coil_plan.take(0));
    while i < coil_batches.len()
        invariant
            i <= coil_batches@.len(),
            batches_cover(coil_batches@, coil_groups(all)),
            coil_plan == coil_writes(coil_groups(all)),
            write_views(writes@) == register_plan + coil_plan.take(i as int),
        decreases coil_batches@.len() - i,
    {
        assert(coil_batches@[i as int].covers(coil_groups(all)[i as int]));
        let write = coil_batch_write(&coil_batches[i]);
        assert(write@ == coil_plan[i as int]);
        push_write(&mut writes, write);
        i = i + 1;
        assert(write_views(writes@) =~= register_plan + coil_plan.take(i as int));
    }
    assert(coil_plan.take(i as int) =~= coil_plan);
    let ghost before = writes@;
    let ghost mask_plan = masks@;
    let ghost record_plan = records@;
    writes.append(&mut masks);
    writes.append(&mut records);
    proof {
        assert(writes@ =~= before + mask_plan + record_plan);
        assert(write_views(writes@) =~= write_views(before) + write_views(mask_plan) + write_views(
            record_plan,
        ));
    }
    writes
}

/// What is reported once `reply` came to the request that bears `names`.
pub open spec fn recorded_reply(
    before: Map<Seq<char>, Outcome>,
    names: Seq<Seq<char>>,
    reply: Result<Seq<u8>, Seq<char>>,
) -> Map<Seq<char>, Outcome> {
    recorded(before, names, reply_outcome(reply))
}

/// Records what the reply to the request of `write` says, of all its names alike.
pub fn record_reply(
    write: &PlannedWrite,
    reply: &Result<Vec<u8>, String>,
    report: &mut WriteReport,
)
    ensures
        outcomes(final(report)@) == recorded_reply(
            outcomes(old(report)@),
            write@.names,
            reply_view(*reply),
        ),
{
    let status = confirm_reply(reply);
    let ghost names = write@.names;
    let mut i: usize = 0;
    while i < write.names.len()
        invariant
            i <= write.names@.len(),
            names == texts(write.names@),
            outcomes(report@) == recorded(
                outcomes(old(report)@),
                names.take(i as int),
                status@,
            ),
        decreases write.names@.len() - i,
    {
        assert(names.take(i + 1).drop_last() =~= names.take(i as int));
        set_outcome(report, write.names[i].as_str(), status.clone());
        i = i + 1;
    }
    assert(names.take(i as int) =~= names);
}

/// All the names that `writes` write, one write behind the other.
pub open spec fn written_names(writes: Seq<Write>) -> Seq<Seq<char>>
    decreases writes.len(),
{
    if writes.len() == 0 {
        Seq::empty()
    } else {
        written_names(writes.drop_last()) + writes.last().names
    }
}

/// The names whose values are refused.
pub open spec fn refused_names(all: Seq<(Seq<char>, Resolved)>) -> Seq<Seq<char>>
    decreases all.len(),
{
    if all.len() == 0 {
        Seq::empty()
    } else {
        let front = refused_names(all.drop_last());
        match all.last().1 {
            Resolved::Refused(_) => front.push(all.last().0),
            _ => front,
        }
    }
}

/// The names that were staged.
pub open spec fn staged_names(all: Seq<(Seq<char>, Resolved)>) -> Seq<Seq<char>> {
    all.map_values(|one: (Seq<char>, Resolved)| one.0)
}

proof fn lemma_first_named_label<T: Named>(items: Seq<T>, name: Seq<char>)
    ensures
        first_named(items, name) matches Some(i) ==> 0 <= i < items.len() && items[i].label()
            == name,
    decreases items.len(),
{
    if items.len() > 0 {
        lemma_first_named_label(items.drop_last(), name);
    }
}

/// Whether what is to be done under a name is done to what has that name.
spec fn keeps_name(one: (Seq<char>, Resolved)) -> bool {
    match one.1 {
        Resolved::Register(register, _) => register.name@ == one.0,
        Resolved::Coil(coil, _) => coil.name@ == one.0,
        Resolved::Mask(register, _, _) => register.name@ == one.0,
        _ => true,
    }
}

proof fn lemma_insert_mapped<T, U>(sorted: Seq<Slot<T>>, slot: Slot<T>, f: spec_fn(Slot<T>) -> U)
    ensures
        insert_slot(sorted, slot).map_values(f).to_multiset() == sorted.map_values(
            f,
        ).to_multiset().insert(f(slot)),
    decreases sorted.len(),
{
    broadcast use vstd::seq_lib::group_to_multiset_ensures;

    if sorted.len() == 0 || sorted.last().address <= slot.address {
        assert(sorted.push(slot).map_values(f) =~= sorted.map_values(f).push(f(slot)));
    } else {
        let rest = sorted.drop_last();
        let inner = insert_slot(rest, slot);
        lemma_insert_mapped(rest, slot, f);
        assert(inner.push(sorted.last()).map_values(f) =~= inner.map_values(f).push(
            f(sorted.last()),
        ));
        assert(sorted.map_values(f) =~= rest.map_values(f).push(f(sorted.last())));
        assert(insert_slot(sorted, slot).map_values(f).to_multiset() =~= sorted.map_values(
            f,
        ).to_multiset().insert(f(slot)));
    }
}

proof fn lemma_sorted_mapped<T, U>(slots: Seq<Slot<T>>, f: spec_fn(Slot<T>) -> U)
    ensures
        sorted_slots(slots).map_values(f).to_multiset() == slots.map_values(f).to_multiset(),
    decreases slots.len(),
{
    broadcast use vstd::seq_lib::group_to_multiset_ensures;

    if slots.len() > 0 {
        let rest = slots.drop_last();
        lemma_sorted_mapped(rest, f);
        lemma_insert_mapped(sorted_slots(rest), slots.last(), f);
        assert(slots.map_values(f) =~= rest.map_values(f).push(f(slots.last())));
    }
}

proof fn lemma_register_names(
    groups: Seq<Seq<Slot<(RegisterDescription, RegisterValue)>>>,
    mem_layout: MemLayout,
)
    ensures
        written_names(register_writes(groups, mem_layout)) == joined(groups).map_values(
            |slot: Slot<(RegisterDescription, RegisterValue)>| slot.item.0.name@,
        ),
    decreases groups.len(),
{
    let f = |slot: Slot<(RegisterDescription, RegisterValue)>| slot.item.0.name@;
    let writes = register_writes(groups, mem_layout);
    if groups.len() > 0 {
        let front = groups.drop_last();
        lemma_register_names(front, mem_layout);
        assert(writes.drop_last() =~= register_writes(front, mem_layout));
        assert(writes.last().names =~= groups.last().map_values(f));
    }
    assert(written_names(writes) =~= joined(groups).map_values(f));
}

proof fn lemma_coil_names(groups: Seq<Seq<Slot<(CoilDescription, bool)>>>)
    ensures
        written_names(coil_writes(groups)) == joined(groups).map_values(
            |slot: Slot<(CoilDescription, bool)>| slot.item.0.name@,
        ),
    decreases groups.len(),
{
    let f = |slot: Slot<(CoilDescription, bool)>| slot.item.0.name@;
    let writes = coil_writes(groups);
    if groups.len() > 0 {
        let front = groups.drop_last();
        lemma_coil_names(front);
        assert(writes.drop_last() =~= coil_writes(front));
        assert(writes.last().names =~= groups.last().map_values(f));
    }
    assert(written_names(writes) =~= joined(groups).map_values(f));
}

proof fn lemma_written_concat(a: Seq<Write>, b: Seq<Write>)
    ensures
        written_names(a + b) == written_names(a) + written_names(b),
    decreases b.len(),
{
    if b.len() == 0 {
        assert(a + b =~= a);
        assert(written_names(a) + written_names(b) =~= written_names(a));
    } else {
        assert((a + b).drop_last() =~= a + b.drop_last());
        lemma_written_concat(a, b.drop_last());
        assert(written_names(a) + written_names(b.drop_last()) + b.last().names
            =~= written_names(a) + written_names(b));
    }
}

proof fn lemma_written_push(writes: Seq<Write>, write: Write, name: Seq<char>)
    requires
        write.names == seq![name],
    ensures
        written_names(writes.push(write)) == written_names(writes).push(name),
{
    assert(writes.push(write).drop_last() =~= writes);
    assert(written_names(writes) + seq![name] =~= written_names(writes).push(name));
}

/// Each name goes one way: to the registers, the coils, the masks, the records,
/// or the refusals.
proof fn lemma_names_part(all: Seq<(Seq<char>, Resolved)>)
    requires
        forall|i: int| 0 <= i < all.len() ==> keeps_name(#[trigger] all[i]),
    ensures
        staged_names(all).to_multiset() == entry_names(register_entries(all)).to_multiset().add(
            coil_entry_names(coil_entries(all)).to_multiset(),
        ).add(written_names(mask_writes(all)).to_multiset()).add(
            written_names(record_writes(all)).to_multiset(),
        ).add(refused_names(all).to_multiset()),
    decreases all.len(),
{
    broadcast use vstd::seq_lib::group_to_multiset_ensures;

    if all.len() > 0 {
        let rest = all.drop_last();
        let name = all.last().0;
        assert forall|i: int| 0 <= i < rest.len() implies keeps_name(#[trigger] rest[i]) by {
            assert(rest[i] == all[i]);
        }
        lemma_names_part(rest);
        assert(keeps_name(all[all.len() - 1]));
        assert(staged_names(all) =~= staged_names(rest).push(name));
        match all.last().1 {
            Resolved::Register(register, value) => {
                assert(entry_names(register_entries(all)) =~= entry_names(
                    register_entries(rest),
                ).push(name));
            },
            Resolved::Coil(coil, value) => {
                assert(coil_entry_names(coil_entries(all)) =~= coil_entry_names(
                    coil_entries(rest),
                ).push(name));
            },
            Resolved::Mask(register, and_mask, or_mask) => {
                lemma_written_push(
                    mask_writes(rest),
                    mask_write(register, and_mask, or_mask),
                    name,
                );
            },
            Resolved::Record(file_number, record_number, value) => {
                lemma_written_push(
                    record_writes(rest),
                    record_write(name, file_number, record_number, value),
                    name,
                );
            },
            Resolved::Refused(_) => {},
        }
        assert(staged_names(all).to_multiset() =~= entry_names(
            register_entries(all),
        ).to_multiset().add(coil_entry_names(coil_entries(all)).to_multiset()).add(
            written_names(mask_writes(all)).to_multiset(),
        ).add(written_names(record_writes(all)).to_multiset()).add(
            refused_names(all).to_multiset(),
        ));
    } else {
        assert(staged_names(all) =~= Seq::empty());
        assert(entry_names(register_entries(all)) =~= Seq::empty());
        assert(coil_entry_names(coil_entries(all)) =~= Seq::empty());
        assert(staged_names(all).to_multiset() =~= entry_names(
            register_entries(all),
        ).to_multiset().add(coil_entry_names(coil_entries(all)).to_multiset()).add(
            written_names(mask_writes(all)).to_multiset(),
        ).add(written_names(record_writes(all)).to_multiset()).add(
            refused_names(all).to_multiset(),
        ));
    }
}

/// Each staged name gets one outcome: it is written by one request, or refused;
/// none is forgotten, none is written twice.
pub proof fn law_every_name_is_written_or_refused(
    items: Seq<(String, StagedValue)>,
    registers: Seq<RegisterDescription>,
    coils: Seq<CoilDescription>,
    file_records: Seq<FileRecordDescription>,
    mem_layout: MemLayout,
)
    ensures
        ({
            let all = resolutions(items, registers, coils, file_records);
            written_names(planned(all, mem_layout)).to_multiset().add(
                refused_names(all).to_multiset(),
            ) == items.map_values(|item: (String, StagedValue)| item.0@).to_multiset()
        }),
{
    broadcast use vstd::seq_lib::group_to_multiset_ensures;

    let all = resolutions(items, registers, coils, file_records);
    assert forall|i: int| 0 <= i < all.len() implies keeps_name(#[trigger] all[i]) by {
        lemma_first_named_label(registers, items[i].0@);
        lemma_first_named_label(coils, items[i].0@);
    }
    lemma_names_part(all);
    assert(staged_names(all) =~= items.map_values(|item: (String, StagedValue)| item.0@));
    let register_slots = register_entry_slots(register_entries(all));
    let register_name = |slot: Slot<(RegisterDescription, RegisterValue)>| slot.item.0.name@;
    lemma_register_names(register_groups(all), mem_layout);
    law_runs_cover_all(sorted_slots(register_slots), MAX_REGISTER_WRITE_BATCH_SIZE);
    lemma_sorted_mapped(register_slots, register_name);
    assert(register_slots.map_values(register_name) =~= entry_names(register_entries(all)));
    let coil_slots = coil_entry_slots(coil_entries(all));
    let coil_name = |slot: Slot<(CoilDescription, bool)>| slot.item.0.name@;
    lemma_coil_names(coil_groups(all));
    law_runs_cover_all(sorted_slots(coil_slots), MAX_COIL_WRITE_BATCH_SIZE);
    lemma_sorted_mapped(coil_slots, coil_name);
    assert(coil_slots.map_values(coil_name) =~= coil_entry_names(coil_entries(all)));
    let a = register_writes(register_groups(all), mem_layout);
    let b = coil_writes(coil_groups(all));
    let c = mask_writes(all);
    let d = record_writes(all);
    lemma_written_concat(a, b);
    lemma_written_concat(a + b, c);
    lemma_written_concat(a + b + c, d);
    vstd::seq_lib::lemma_multiset_commutative(written_names(a), written_names(b));
    vstd::seq_lib::lemma_multiset_commutative(written_names(a + b), written_names(c));
    vstd::seq_lib::lemma_multiset_commutative(written_names(a + b + c), written_names(d));
    assert(written_names(planned(all, mem_layout)).to_multiset().add(
        refused_names(all).to_multiset(),
    ) =~= staged_names(all).to_multiset());
}

/// All names of a request get the same outcome, and no other name does.
pub proof fn law_names_of_a_request_share_its_outcome(
    before: Map<Seq<char>, Outcome>,
    names: Seq<Seq<char>>,
    outcome: Outcome,
    name: Seq<char>,
)
    ensures
        names.contains(name) ==> recorded(before, names, outcome).dom().contains(name) && recorded(
            before,
            names,
            outcome,
        )[name] == outcome,
        !names.contains(name) ==> recorded(before, names, outcome).dom().contains(name)
            == before.dom().contains(name) && recorded(before, names, outcome)[name]
            == before[name],
    decreases names.len(),
{
    if names.len() > 0 {
        let front = names.drop_last();
        law_names_of_a_request_share_its_outcome(before, front, outcome, name);
        if names.contains(name) {
            let i = names.index_of(name);
            assert(name == names.last() || front[i] == name);
        } else {
            assert(names[names.len() - 1] != name);
            if front.contains(name) {
                let i = front.index_of(name);
                assert(names[i] == name);
            }
        }
    }
}

/// Planning a transaction reports of the refused names alone.
pub proof fn law_planning_reports_refusals_only(
    before: Map<Seq<char>, Outcome>,
    all: Seq<(Seq<char>, Resolved)>,
    name: Seq<char>,
)
    ensures
        refused_names(all).contains(name) ==> refusals(before, all).dom().contains(name)
            && refusals(before, all)[name] is Failed,
        !refused_names(all).contains(name) ==> refusals(before, all).dom().contains(name)
            == before.dom().contains(name) && refusals(before, all)[name] == before[name],
    decreases all.len(),
{
    if all.len() > 0 {
        let rest = all.drop_last();
        law_planning_reports_refusals_only(before, rest, name);
        let front = refused_names(rest);
        if all.last().1 is Refused {
            let names = front.push(all.last().0);
            if names.contains(name) {
                let i = names.index_of(name);
                assert(name == all.last().0 || front[i] == name);
            } else {
                assert(names[names.len() - 1] != name);
                if front.contains(name) {
                    let i = front.index_of(name);
                    assert(names[i] == name);
                }
            }
        }
    }
}

/// The words of a request that writes registers are as many as the registers take.
pub proof fn law_words_fill_the_registers(
    entries: Seq<(RegisterDescription, RegisterValue)>,
    mem_layout: MemLayout,
)
    requires
        types_agree(entries),
    ensures
        entry_words(entries, mem_layout).len() == total_width(entry_types(entries)),
    decreases entries.len(),
{
    if entries.len() > 0 {
        let front = entries.drop_last();
        assert(types_agree(front)) by {
            assert forall|i: int| 0 <= i < front.len() implies (#[trigger] front[i]).0.data_type
                == front[i].1.kind() by {
                assert(front[i] == entries[i]);
            }
        }
        law_words_fill_the_registers(front, mem_layout);
        law_word_count(entries.last().1, mem_layout);
        assert(entries[entries.len() - 1].0.data_type == entries.last().1.kind());
        assert(entry_types(entries).drop_last() =~= entry_types(front));
    }
}

/// Where the words of one register stand among those of a run.
pub proof fn lemma_words_of_entry(
    entries: Seq<(RegisterDescription, RegisterValue)>,
    mem_layout: MemLayout,
    i: int,
)
    requires
        types_agree(entries),
        0 <= i < entries.len(),
    ensures
        ({
            let types = entry_types(entries);
            let start = total_width(types.take(i)) as int;
            let end = total_width(types.take(i + 1)) as int;
            &&& 0 <= start <= end <= entry_words(entries, mem_layout).len()
            &&& entry_words(entries, mem_layout).subrange(start, end) == value_words(
                entries[i].1,
                mem_layout,
            )
        }),
    decreases entries.len(),
{
    let types = entry_types(entries);
    let front = entries.drop_last();
    let words = entry_words(entries, mem_layout);
    let front_words = entry_words(front, mem_layout);
    assert(types_agree(front)) by {
        assert forall|k: int| 0 <= k < front.len() implies (#[trigger] front[k]).0.data_type
            == front[k].1.kind() by {
            assert(front[k] == entries[k]);
        }
    }
    law_words_fill_the_registers(entries, mem_layout);
    law_words_fill_the_registers(front, mem_layout);
    lemma_width_steps(types, i);
    assert(entry_types(front) =~= types.drop_last());
    if i == entries.len() - 1 {
        assert(types.take(i) =~= entry_types(front));
        assert(types.take(i + 1) =~= types);
        assert(words.subrange(front_words.len() as int, words.len() as int) =~= value_words(
            entries.last().1,
            mem_layout,
        ));
    } else {
        lemma_words_of_entry(front, mem_layout, i);
        assert(types.take(i) =~= entry_types(front).take(i));
        assert(types.take(i + 1) =~= entry_types(front).take(i + 1));
        let start = total_width(types.take(i)) as int;
        let end = total_width(types.take(i + 1)) as int;
        assert(words.subrange(start, end) =~= front_words.subrange(start, end));
    }
}

/// What was written is read back: where a device answers a read with the words
/// that a request wrote to the same registers, every register has the value that
/// was written, or a floating-point number with the same bits.
pub proof fn law_written_values_are_read_back<S: Fn(u32) -> String, D: Fn(u64) -> String>(
    single: S,
    double: D,
    entries: Seq<(RegisterDescription, RegisterValue)>,
    mem_layout: MemLayout,
    values: Seq<RegisterValue>,
    i: int,
)
    requires
        types_agree(entries),
        words_values(
            single,
            double,
            entry_types(entries),
            entry_words(entries, mem_layout),
            mem_layout,
            values,
        ),
        0 <= i < entries.len(),
    ensures
        !(entries[i].1 is F32) && !(entries[i].1 is F64) ==> values[i] == entries[i].1,
        entries[i].1 matches RegisterValue::F32(v) ==> values[i] matches RegisterValue::F32(r)
            && r.bits == v.bits,
        entries[i].1 matches RegisterValue::F64(v) ==> values[i] matches RegisterValue::F64(r)
            && r.bits == v.bits,
{
    lemma_words_of_entry(entries, mem_layout, i);
    assert(entries[i].0.data_type == entries[i].1.kind());
    assert(words_value(
        single,
        double,
        entries[i].1.kind(),
        value_words(entries[i].1, mem_layout),
        mem_layout,
        values[i],
    ));
    law_words_read_back(single, double, entries[i].1, mem_layout, values[i]);
}

/// What the report says of a name once a reply came to its request: that the write went
/// well where the first bit of the reply is free, that it failed where it is set, where
/// the reply is too short to be one, and where none came. Of other names it says what it
/// said before.
pub proof fn law_reply_decides_what_is_reported(
    before: Map<Seq<char>, Outcome>,
    names: Seq<Seq<char>>,
    reply: Result<Seq<u8>, Seq<char>>,
    name: Seq<char>,
)
    ensures
        ({
            let after = recorded_reply(before, names, reply);
            &&& names.contains(name) ==> after.dom().contains(name)
            &&& names.contains(name) ==> (after[name] is Succeeded <==> (reply matches Ok(
                response,
            ) && response.len() >= 2 && response[0] < 128))
            &&& !names.contains(name) ==> after.dom().contains(name) == before.dom().contains(name)
                && after[name] == before[name]
        }),
{
    law_names_of_a_request_share_its_outcome(before, names, reply_outcome(reply), name);
}

} // verus!
