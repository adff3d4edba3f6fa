//! What a device does with the requests of a transaction, byte by byte, and what is
//! in its memory once it did.
//!
//! The device is the one that the Modbus protocol describes: it knows nothing of
//! names, types or layouts, only addresses, words and bits.

use crate::batching::{
    is_run, joined, law_every_batch_fits, law_runs_are_fewest, law_runs_are_runs,
    law_runs_cover_all, law_sorting_keeps_all, lemma_runs_hold, run_items, runs, sorted_slots,
    total, Slot,
};
use crate::device_description::{
    CoilDescription, DataType, FileRecordDescription, MemLayout, RegisterDescription,
};
use crate::filesystem::{first_named, is_first_record, Named};
use crate::numbers;
use crate::paths::lemma_found;
use crate::pdu::{
    coil_word, WriteMultipleCoilsRequest, WriteMultipleRegistersRequest, WriteSingleCoilRequest,
    WriteSingleRegisterRequest,
};
use crate::polling::{lemma_width_steps, total_width};
use crate::register_encoding::{law_word_count, law_words_read_back, value_words, words_value};
use crate::transaction_consumer::{
    coil_entries, coil_entry_slots, coil_entry_values, coil_groups, coil_write, coil_writes,
    entry_types, entry_words, first_record, law_planning_reports_refusals_only,
    law_words_fill_the_registers, lemma_coil_entries_count, lemma_entries_width,
    lemma_first_record, lemma_types_agree, lemma_words_of_entry, mask_write, mask_writes, plan,
    planned, record_write, record_writes, refused_at_once, refused_names, register_entries,
    register_entry_slots, register_groups, register_write, register_writes, resolutions, resolved,
    types_agree, Resolved, MAX_COIL_WRITE_BATCH_SIZE, MAX_REGISTER_WRITE_BATCH_SIZE,
};
use crate::text::{holds, lemma_holds};
use crate::values::{CoilValue, Outcome, RegisterValue, Staged, StagedValue};
use crate::write_confirmation::{bits_request, coil_request, words_request, write_request};
use crate::wire::{be_bytes, bit_of, law_bits_round_trip, octets, packed, unpacked, words_bytes};
use crate::writing::record_name;
use vstd::arithmetic::power2::{lemma2_to64, pow2};
use vstd::prelude::*;

verus! {

/// The number that two bytes of a message hold.
pub open spec fn number(message: Seq<u8>, at: int) -> int {
    message[at] * 256 + message[at + 1]
}

/// The address `k` places behind `address`; behind the last one comes the first.
pub open spec fn behind(address: int, k: int) -> u16 {
    ((address + k) % 65536) as u16
}

/// How far `address` lies behind `start`.
pub open spec fn distance(start: int, address: u16) -> int {
    (address - start) % 65536
}

/// Whether bit `k` of `byte` is set, counted from the lowest.
pub open spec fn is_set(byte: u8, k: int) -> bool {
    (byte as int / pow2(k as nat) as int) % 2 == 1
}

/// Whether a device takes `request` as a write of registers or of coils: the message
/// is as long as it says, and no longer than the protocol allows.
pub open spec fn is_write(request: Seq<u8>) -> bool {
    request.len() > 0 && if request[0] == 0x05 {
        &&& request.len() == 5
        &&& number(request, 3) == 0xFF00 || number(request, 3) == 0
    } else if request[0] == 0x06 {
        request.len() == 5
    } else if request[0] == 0x0F {
        &&& request.len() >= 6
        &&& 1 <= number(request, 3) <= 1968
        &&& request[5] == (number(request, 3) + 7) / 8
        &&& request.len() == 6 + request[5]
    } else if request[0] == 0x10 {
        &&& request.len() >= 6
        &&& 1 <= number(request, 3) <= 123
        &&& request[5] == 2 * number(request, 3)
        &&& request.len() == 6 + request[5]
    } else {
        request[0] == 0x16 && request.len() == 7
    }
}

/// The registers of a device once it carried `request` out.
pub open spec fn registers_after(
    memory: spec_fn(u16) -> u16,
    request: Seq<u8>,
) -> spec_fn(u16) -> u16 {
    |address: u16|
        if request[0] == 0x06 && address == number(request, 1) {
            number(request, 3) as u16
        } else if request[0] == 0x10 && distance(number(request, 1), address) < number(request, 3) {
            number(request, 6 + 2 * distance(number(request, 1), address)) as u16
        } else if request[0] == 0x16 && address == number(request, 1) {
            (memory(address) & (number(request, 3) as u16)) | ((number(request, 5) as u16) & !(
            number(request, 3) as u16))
        } else {
            memory(address)
        }
}

/// The coils of a device once it carried `request` out.
pub open spec fn coils_after(
    memory: spec_fn(u16) -> bool,
    request: Seq<u8>,
) -> spec_fn(u16) -> bool {
    |address: u16|
        if request[0] == 0x05 && address == number(request, 1) {
            number(request, 3) == 0xFF00
        } else if request[0] == 0x0F && distance(number(request, 1), address) < number(request, 3) {
            is_set(
                request[6 + distance(number(request, 1), address) / 8],
                distance(number(request, 1), address) % 8,
            )
        } else {
            memory(address)
        }
}

/// The words that `count` registers hold from `address` on.
pub open spec fn words_from(memory: spec_fn(u16) -> u16, address: u16, count: nat) -> Seq<u16> {
    Seq::new(count, |k: int| memory(behind(address as int, k)))
}

/// Whether two values are the same: floating-point numbers go by their bits.
pub open spec fn same_value(a: RegisterValue, b: RegisterValue) -> bool {
    match (a, b) {
        (RegisterValue::F32(x), RegisterValue::F32(y)) => x.bits == y.bits,
        (RegisterValue::F64(x), RegisterValue::F64(y)) => x.bits == y.bits,
        _ => a == b,
    }
}

/// Whether `i` is the place of the first register called `name`.
pub open spec fn is_first_register(
    registers: Seq<RegisterDescription>,
    i: int,
    name: Seq<char>,
) -> bool {
    &&& 0 <= i < registers.len()
    &&& registers[i].name@ == name
    &&& forall|j: int| 0 <= j < i ==> (#[trigger] registers[j]).name@ != name
}

/// Whether `i` is the place of the first coil called `name`.
pub open spec fn is_first_coil(coils: Seq<CoilDescription>, i: int, name: Seq<char>) -> bool {
    &&& 0 <= i < coils.len()
    &&& coils[i].name@ == name
    &&& forall|j: int| 0 <= j < i ==> (#[trigger] coils[j]).name@ != name
}

pub proof fn lemma_first_register(registers: Seq<RegisterDescription>, i: int, name: Seq<char>)
    requires
        is_first_register(registers, i, name),
    ensures
        first_named(registers, name) == Some(i),
    decreases registers.len(),
{
    let front = registers.drop_last();
    if i < front.len() {
        assert(is_first_register(front, i, name)) by {
            assert forall|j: int| 0 <= j < i implies (#[trigger] front[j]).name@ != name by {
                assert(registers[j].name@ != name);
            }
        }
        lemma_first_register(front, i, name);
    } else {
        lemma_no_register(front, name);
    }
}

pub proof fn lemma_no_register(registers: Seq<RegisterDescription>, name: Seq<char>)
    requires
        forall|j: int| 0 <= j < registers.len() ==> (#[trigger] registers[j]).name@ != name,
    ensures
        first_named(registers, name) is None,
    decreases registers.len(),
{
    if registers.len() > 0 {
        let front = registers.drop_last();
        assert forall|j: int| 0 <= j < front.len() implies (#[trigger] front[j]).name@ != name by {
            assert(registers[j].name@ != name);
        }
        lemma_no_register(front, name);
        assert(registers[registers.len() - 1].name@ != name);
    }
}

pub proof fn lemma_first_coil(coils: Seq<CoilDescription>, i: int, name: Seq<char>)
    requires
        is_first_coil(coils, i, name),
    ensures
        first_named(coils, name) == Some(i),
    decreases coils.len(),
{
    let front = coils.drop_last();
    if i < front.len() {
        assert(is_first_coil(front, i, name)) by {
            assert forall|j: int| 0 <= j < i implies (#[trigger] front[j]).name@ != name by {
                assert(coils[j].name@ != name);
            }
        }
        lemma_first_coil(front, i, name);
    } else {
        lemma_no_coil(front, name);
    }
}

pub proof fn lemma_no_coil(coils: Seq<CoilDescription>, name: Seq<char>)
    requires
        forall|j: int| 0 <= j < coils.len() ==> (#[trigger] coils[j]).name@ != name,
    ensures
        first_named(coils, name) is None,
    decreases coils.len(),
{
    if coils.len() > 0 {
        let front = coils.drop_last();
        assert forall|j: int| 0 <= j < front.len() implies (#[trigger] front[j]).name@ != name by {
            assert(coils[j].name@ != name);
        }
        lemma_no_coil(front, name);
        assert(coils[coils.len() - 1].name@ != name);
    }
}

/// What is in the runs of a list of slots is in one of them.
pub proof fn lemma_slot_has_run<T>(slots: Seq<Slot<T>>, max: u16, i: int) -> (found: (int, int))
    requires
        0 <= i < slots.len(),
    ensures
        0 <= found.0 < runs(sorted_slots(slots), max).len(),
        0 <= found.1 < runs(sorted_slots(slots), max)[found.0].len(),
        runs(sorted_slots(slots), max)[found.0][found.1] == slots[i],
{
    broadcast use vstd::seq_lib::group_to_multiset_ensures;

    law_sorting_keeps_all(slots);
    let sorted = sorted_slots(slots);
    assert(slots.contains(slots[i]));
    assert(sorted.to_multiset().count(slots[i]) > 0);
    assert(sorted.contains(slots[i]));
    let k = choose|k: int| 0 <= k < sorted.len() && sorted[k] == slots[i];
    law_runs_cover_all(sorted, max);
    lemma_joined_has_group(runs(sorted, max), k)
}

proof fn lemma_joined_has_group<T>(groups: Seq<Seq<Slot<T>>>, k: int) -> (found: (int, int))
    requires
        0 <= k < joined(groups).len(),
    ensures
        0 <= found.0 < groups.len(),
        0 <= found.1 < groups[found.0].len(),
        groups[found.0][found.1] == joined(groups)[k],
    decreases groups.len(),
{
    let front = groups.drop_last();
    if k < joined(front).len() {
        let (g, j) = lemma_joined_has_group(front, k);
        assert(front[g] == groups[g]);
        (g, j)
    } else {
        (groups.len() - 1, k - joined(front).len())
    }
}

proof fn lemma_register_entry(all: Seq<(Seq<char>, Resolved)>, i: int) -> (e: int)
    requires
        0 <= i < all.len(),
        all[i].1 is Register,
    ensures
        0 <= e < register_entries(all).len(),
        register_entries(all)[e] == (all[i].1->Register_0, all[i].1->Register_1),
    decreases all.len(),
{
    if i == all.len() - 1 {
        register_entries(all).len() - 1
    } else {
        lemma_register_entry(all.drop_last(), i)
    }
}

proof fn lemma_coil_entry(all: Seq<(Seq<char>, Resolved)>, i: int) -> (e: int)
    requires
        0 <= i < all.len(),
        all[i].1 is Coil,
    ensures
        0 <= e < coil_entries(all).len(),
        coil_entries(all)[e] == (all[i].1->Coil_0, all[i].1->Coil_1),
    decreases all.len(),
{
    if i == all.len() - 1 {
        coil_entries(all).len() - 1
    } else {
        lemma_coil_entry(all.drop_last(), i)
    }
}

/// What is known of a run of registers to be written.
spec fn is_register_run(run: Seq<Slot<(RegisterDescription, RegisterValue)>>) -> bool {
    &&& is_run(run, MAX_REGISTER_WRITE_BATCH_SIZE)
    &&& 1 <= total(run) <= MAX_REGISTER_WRITE_BATCH_SIZE
    &&& types_agree(run_items(run))
    &&& forall|i: int|
        0 <= i < run.len() ==> (#[trigger] run[i]).size == run[i].item.0.data_type.width()
            && run[i].address == run[i].item.0.address
}

proof fn lemma_register_runs(
    entries: Seq<(RegisterDescription, RegisterValue)>,
    g: int,
)
    requires
        types_agree(entries),
        0 <= g < runs(
            sorted_slots(register_entry_slots(entries)),
            MAX_REGISTER_WRITE_BATCH_SIZE,
        ).len(),
    ensures
        is_register_run(
            runs(sorted_slots(register_entry_slots(entries)), MAX_REGISTER_WRITE_BATCH_SIZE)[g],
        ),
{
    let slots = register_entry_slots(entries);
    let max = MAX_REGISTER_WRITE_BATCH_SIZE;
    law_runs_are_runs(sorted_slots(slots), max);
    law_every_batch_fits(slots, max);
    let holds = |slot: Slot<(RegisterDescription, RegisterValue)>|
        slot.size == slot.item.0.data_type.width() && slot.address == slot.item.0.address
            && slot.item.0.data_type == slot.item.1.kind();
    assert forall|i: int| 0 <= i < slots.len() implies holds(#[trigger] slots[i]) by {
        assert(entries[i].0.data_type == entries[i].1.kind());
    }
    lemma_runs_hold(slots, max, holds);
    let run = runs(sorted_slots(slots), max)[g];
    assert forall|i: int| 0 <= i < run.len() implies holds(#[trigger] run[i]) by {
        assert(holds(runs(sorted_slots(slots), max)[g][i]));
    }
    assert forall|i: int| 0 <= i < run_items(run).len() implies (#[trigger] run_items(
        run,
    )[i]).0.data_type == run_items(run)[i].1.kind() by {
        assert(holds(run[i]));
    }
}

/// After a Write Single Register request the register holds the word.
proof fn lemma_single_written(memory: spec_fn(u16) -> u16, address: u16, word: u16)
    ensures
        ({
            let request = (WriteSingleRegisterRequest {
                register_address: address,
                register_value: word,
            }).message();
            &&& is_write(request)
            &&& request[0] == 0x06
            &&& number(request, 1) == address
            &&& words_from(registers_after(memory, request), address, 1) == seq![word]
        }),
{
    let request = (WriteSingleRegisterRequest {
        register_address: address,
        register_value: word,
    }).message();
    lemma_number(address);
    lemma_number(word);
    assert(request =~= seq![0x06u8] + be_bytes(address) + be_bytes(word));
    assert(number(request, 1) == address);
    assert(number(request, 3) == word);
    assert(behind(address as int, 0) == address);
    assert(words_from(registers_after(memory, request), address, 1) =~= seq![word]);
}

/// After a Write Multiple Registers request the registers hold the words.
proof fn lemma_multiple_written(
    memory: spec_fn(u16) -> u16,
    start: u16,
    words: Seq<u16>,
    off: int,
    width: nat,
)
    requires
        1 <= words.len() <= 123,
        0 <= off,
        off + width <= words.len(),
    ensures
        ({
            let request = WriteMultipleRegistersRequest::message(start, words);
            &&& is_write(request)
            &&& words_from(
                registers_after(memory, request),
                behind(start as int, off),
                width,
            ) == words.subrange(off, off + width)
        }),
{
    let request = WriteMultipleRegistersRequest::message(start, words);
    let address = behind(start as int, off);
    let after = words_from(registers_after(memory, request), address, width);
    let expected = words.subrange(off, off + width);
    lemma_multiple(start, words, 0);
    assert forall|k: int| 0 <= k < width implies #[trigger] after[k] == expected[k] by {
        lemma_distance(start as int, off, k);
        lemma_multiple(start, words, off + k);
        let place = behind(address as int, k);
        assert(distance(number(request, 1), place) == off + k);
        assert(registers_after(memory, request)(place) == words[off + k]);
    }
    assert(after =~= expected);
}

/// The request for a run of registers is one that a device takes, and leaves each
/// register with its value.
proof fn lemma_register_run_written(
    run: Seq<Slot<(RegisterDescription, RegisterValue)>>,
    mem_layout: MemLayout,
    memory: spec_fn(u16) -> u16,
    j: int,
)
    requires
        is_register_run(run),
        0 <= j < run.len(),
    ensures
        ({
            let request = register_write(
                run[0].address,
                run_items(run),
                total(run),
                mem_layout,
            ).request;
            let (register, value) = run[j].item;
            &&& is_write(request)
            &&& words_from(
                registers_after(memory, request),
                register.address,
                register.data_type.width(),
            ) == value_words(value, mem_layout)
        }),
{
    let entries = run_items(run);
    let (register, value) = run[j].item;
    let types = entry_types(entries);
    let words = entry_words(entries, mem_layout);
    let start = run[0].address;
    let off = total(run.take(j));
    let width = register.data_type.width();
    assert(entries[j] == run[j].item);
    assert(entries[j].0.data_type == entries[j].1.kind());
    lemma_entries_width(run);
    assert(run_items(run.take(j)) =~= entries.take(j));
    assert(entry_types(entries.take(j)) =~= types.take(j));
    assert forall|i: int| 0 <= i < run.take(j).len() implies (#[trigger] run.take(j)[i]).size
        == run.take(j)[i].item.0.data_type.width() by {
        assert(run.take(j)[i] == run[i]);
    }
    lemma_entries_width(run.take(j));
    lemma_words_of_entry(entries, mem_layout, j);
    law_words_fill_the_registers(entries, mem_layout);
    law_word_count(value, mem_layout);
    lemma_width_steps(types, j);
    assert(run[j].address == behind(start as int, off));
    if total(run) == 1 {
        if j > 0 {
            lemma_front_width(types, j);
        }
        assert(j == 0 && width == 1);
        let word = value_words(value, mem_layout)[0];
        lemma_single_written(memory, register.address, word);
        assert(value_words(value, mem_layout) =~= seq![word]);
    } else {
        lemma_multiple_written(memory, start, words, off, width);
    }
}

proof fn lemma_front_width(types: Seq<DataType>, j: int)
    requires
        0 < j <= types.len(),
    ensures
        total_width(types.take(j)) >= 1,
{
    lemma_width_steps(types, j - 1);
}

proof fn lemma_distance(start: int, off: int, k: int)
    requires
        0 <= start < 65536,
        0 <= off,
        0 <= k,
        off + k < 65536,
    ensures
        distance(start, behind((start + off) % 65536, k)) == off + k,
{
    let a = (start + off) % 65536;
    let address = (a + k) % 65536;
    assert(address == (start + off + k) % 65536);
    assert((address - start) % 65536 == (off + k) % 65536);
}

pub proof fn lemma_number(value: u16)
    ensures
        be_bytes(value).len() == 2,
        be_bytes(value)[0] * 256 + be_bytes(value)[1] == value,
{
}

/// Where the words of a Write Multiple Registers request stand in it.
proof fn lemma_multiple(start: u16, words: Seq<u16>, k: int)
    requires
        1 <= words.len() <= 123,
        0 <= k < words.len(),
    ensures
        ({
            let request = WriteMultipleRegistersRequest::message(start, words);
            &&& request.len() == 6 + 2 * words.len()
            &&& request[0] == 0x10
            &&& number(request, 1) == start
            &&& number(request, 3) == words.len()
            &&& request[5] == 2 * words.len()
            &&& number(request, 6 + 2 * k) == words[k]
        }),
{
    let request = WriteMultipleRegistersRequest::message(start, words);
    lemma_number(start);
    lemma_number(words.len() as u16);
    assert(request[1] == be_bytes(start)[0]);
    assert(request[2] == be_bytes(start)[1]);
    assert(request[3] == be_bytes(words.len() as u16)[0]);
    assert(request[4] == be_bytes(words.len() as u16)[1]);
    assert((2 * k) % 2 == 0 && (2 * k) / 2 == k);
    assert((2 * k + 1) % 2 == 1 && (2 * k + 1) / 2 == k);
    assert(request[6 + 2 * k] == words_bytes(words)[2 * k]);
    assert(request[7 + 2 * k] == words_bytes(words)[2 * k + 1]);
}

/// A staged value of a register reaches the device: some request of the transaction
/// bears its name, is one that a device takes, and leaves in the registers from its
/// address on the words that read, in the layout of the device, as that very value.
pub proof fn law_staged_register_reaches_the_device<
    S: Fn(u32) -> String,
    D: Fn(u64) -> String,
>(
    single: S,
    double: D,
    items: Seq<(String, StagedValue)>,
    registers: Seq<RegisterDescription>,
    coils: Seq<CoilDescription>,
    file_records: Seq<FileRecordDescription>,
    mem_layout: MemLayout,
    memory: spec_fn(u16) -> u16,
    i: int,
    r: int,
    value: RegisterValue,
) -> (w: int)
    requires
        0 <= i < items.len(),
        items[i].1@ == Staged::Register(value),
        is_first_register(registers, r, items[i].0@),
        registers[r].data_type == value.kind(),
    ensures
        ({
            let writes = plan(items, registers, coils, file_records, mem_layout);
            &&& 0 <= w < writes.len()
            &&& writes[w].names.contains(items[i].0@)
            &&& is_write(writes[w].request)
            &&& forall|read: RegisterValue| #[trigger]
                words_value(
                    single,
                    double,
                    registers[r].data_type,
                    words_from(
                        registers_after(memory, writes[w].request),
                        registers[r].address,
                        registers[r].data_type.width(),
                    ),
                    mem_layout,
                    read,
                ) ==> same_value(read, value)
        }),
{
    let all = resolutions(items, registers, coils, file_records);
    let writes = planned(all, mem_layout);
    let groups = register_groups(all);
    lemma_first_register(registers, r, items[i].0@);
    lemma_types_agree(items, registers, coils, file_records);
    assert(all[i].1 == Resolved::Register(registers[r], value));
    let e = lemma_register_entry(all, i);
    let slots = register_entry_slots(register_entries(all));
    let (g, j) = lemma_slot_has_run(slots, MAX_REGISTER_WRITE_BATCH_SIZE, e);
    let run = groups[g];
    assert(run[j].item == (registers[r], value));
    lemma_register_runs(register_entries(all), g);
    lemma_register_run_written(run, mem_layout, memory, j);
    assert(writes[g] == register_writes(groups, mem_layout)[g]);
    assert(writes[g].names[j] == items[i].0@);
    assert forall|read: RegisterValue| #[trigger]
        words_value(
            single,
            double,
            registers[r].data_type,
            words_from(
                registers_after(memory, writes[g].request),
                registers[r].address,
                registers[r].data_type.width(),
            ),
            mem_layout,
            read,
        ) implies same_value(read, value) by {
        law_words_read_back(single, double, value, mem_layout, read);
    }
    g
}

/// What is known of a run of coils to be written.
spec fn is_coil_run(run: Seq<Slot<(CoilDescription, bool)>>) -> bool {
    &&& is_run(run, MAX_COIL_WRITE_BATCH_SIZE)
    &&& 1 <= run.len() <= MAX_COIL_WRITE_BATCH_SIZE
    &&& forall|i: int|
        0 <= i < run.len() ==> (#[trigger] run[i]).address == run[i].item.0.address
            && run[i].address == behind(run[0].address as int, i)
}

proof fn lemma_coil_runs(entries: Seq<(CoilDescription, bool)>, g: int)
    requires
        0 <= g < runs(sorted_slots(coil_entry_slots(entries)), MAX_COIL_WRITE_BATCH_SIZE).len(),
    ensures
        is_coil_run(runs(sorted_slots(coil_entry_slots(entries)), MAX_COIL_WRITE_BATCH_SIZE)[g]),
{
    let slots = coil_entry_slots(entries);
    let max = MAX_COIL_WRITE_BATCH_SIZE;
    law_runs_are_runs(sorted_slots(slots), max);
    law_every_batch_fits(slots, max);
    let holds = |slot: Slot<(CoilDescription, bool)>|
        slot.size == 1 && slot.address == slot.item.0.address;
    lemma_runs_hold(slots, max, holds);
    let run = runs(sorted_slots(slots), max)[g];
    assert(is_run(run, max));
    assert forall|i: int| 0 <= i < run.len() implies holds(#[trigger] run[i]) by {
        assert(holds(runs(sorted_slots(slots), max)[g][i]));
    }
    lemma_coil_entries_count(run);
    assert forall|i: int| 0 <= i < run.len() implies (#[trigger] run[i]).address
        == run[i].item.0.address && run[i].address == behind(run[0].address as int, i) by {
        assert(holds(run[i]));
        let front = run.take(i);
        assert forall|k: int| 0 <= k < front.len() implies (#[trigger] front[k]).size == 1 by {
            assert(front[k] == run[k]);
        }
        lemma_coil_entries_count(front);
    }
}

/// Where each bit stands among the bytes that hold it.
pub proof fn lemma_bit_in_bytes(bytes: Seq<u8>, bits: Seq<bool>, k: int)
    requires
        0 <= k < bits.len() <= 8 * bytes.len(),
        unpacked(bytes).take(bits.len() as int) == bits,
    ensures
        0 <= k / 8 < bytes.len(),
        is_set(bytes[k / 8], k % 8) == bits[k],
{
    assert(unpacked(bytes)[k] == bit_of(bytes[k / 8], k % 8));
    assert(unpacked(bytes).take(bits.len() as int)[k] == bits[k]);
    lemma_is_set(bytes[k / 8], k % 8);
}

/// Where the parts of a message with two numbers, a count and bytes behind it stand.
proof fn lemma_counted(code: u8, first: u16, second: u16, count: u8, bytes: Seq<u8>)
    ensures
        ({
            let request = seq![code] + be_bytes(first) + be_bytes(second) + seq![count] + bytes;
            &&& request.len() == 6 + bytes.len()
            &&& request[0] == code
            &&& number(request, 1) == first
            &&& number(request, 3) == second
            &&& request[5] == count
            &&& forall|k: int| 0 <= k < bytes.len() ==> request[6 + k] == #[trigger] bytes[k]
        }),
{
    lemma_number(first);
    lemma_number(second);
}

/// Whether `request` writes as many coils as there are `bits`, from `start` on, and
/// leaves coil `k` of them as bit `k` says.
#[verifier::opaque]
spec fn sets_coil(
    memory: spec_fn(u16) -> bool,
    request: Seq<u8>,
    start: u16,
    bits: Seq<bool>,
    k: int,
) -> bool {
    &&& is_write(request)
    &&& request[0] == 0x0F
    &&& number(request, 1) == start
    &&& number(request, 3) == bits.len()
    &&& coils_after(memory, request)(behind(start as int, k)) == bits[k]
}

/// After a Write Multiple Coils request the coils are as its bits say.
proof fn lemma_multiple_coils_written(
    memory: spec_fn(u16) -> bool,
    start: u16,
    bits: Seq<bool>,
    k: int,
)
    requires
        1 <= bits.len() <= 1968,
        0 <= k < bits.len(),
    ensures
        ({
            let request = WriteMultipleCoilsRequest::message(start, bits);
            sets_coil(memory, request, start, bits, k)
        }),
{
    lemma_packed(bits);
    lemma_bits_written(memory, start, packed(bits), bits, k);
}

pub proof fn lemma_packed(bits: Seq<bool>)
    ensures
        packed(bits).len() == (bits.len() + 7) / 8,
        unpacked(packed(bits)).take(bits.len() as int) == bits,
{
    law_bits_round_trip(bits);
}

proof fn lemma_bits_written(
    memory: spec_fn(u16) -> bool,
    start: u16,
    bytes: Seq<u8>,
    bits: Seq<bool>,
    k: int,
)
    requires
        1 <= bits.len() <= 1968,
        0 <= k < bits.len(),
        bytes.len() == (bits.len() + 7) / 8,
        unpacked(bytes).take(bits.len() as int) == bits,
    ensures
        ({
            let request = seq![0x0Fu8] + be_bytes(start) + be_bytes(bits.len() as u16) + seq![
                octets(bits.len()) as u8,
            ] + bytes;
            sets_coil(memory, request, start, bits, k)
        }),
{
    let request = seq![0x0Fu8] + be_bytes(start) + be_bytes(bits.len() as u16) + seq![
        octets(bits.len()) as u8,
    ] + bytes;
    reveal(sets_coil);
    lemma_counted(0x0F, start, bits.len() as u16, octets(bits.len()) as u8, bytes);
    lemma_bit_in_bytes(bytes, bits, k);
    assert(request[6 + k / 8] == bytes[k / 8]);
    lemma_distance(start as int, 0, k);
}

/// After a Write Single Coil request the coil is as it says.
proof fn lemma_single_coil_written(memory: spec_fn(u16) -> bool, address: u16, on: bool)
    ensures
        ({
            let request = (WriteSingleCoilRequest {
                coil_address: address,
                coil_value: on,
            }).message();
            &&& is_write(request)
            &&& request[0] == 0x05
            &&& number(request, 1) == address
            &&& coils_after(memory, request)(address) == on
        }),
{
    let request = (WriteSingleCoilRequest { coil_address: address, coil_value: on }).message();
    let word = coil_word(on);
    lemma_number(address);
    lemma_number(word);
    assert(request =~= seq![0x05u8] + be_bytes(address) + be_bytes(word));
    assert(number(request, 1) == address);
    assert(number(request, 3) == word);
}

/// The two ways to count the bits of a byte agree.
pub proof fn lemma_is_set(byte: u8, k: int)
    requires
        0 <= k < 8,
    ensures
        is_set(byte, k) == bit_of(byte, k),
{
    lemma2_to64();
}

/// A staged value of a coil reaches the device: some request of the transaction bears
/// its name, is one that a device takes, and leaves the coil at its address on or off
/// as staged.
pub proof fn law_staged_coil_reaches_the_device(
    items: Seq<(String, StagedValue)>,
    registers: Seq<RegisterDescription>,
    coils: Seq<CoilDescription>,
    file_records: Seq<FileRecordDescription>,
    mem_layout: MemLayout,
    memory: spec_fn(u16) -> bool,
    i: int,
    c: int,
    on: bool,
) -> (w: int)
    requires
        0 <= i < items.len(),
        items[i].1@ == Staged::Coil(CoilValue(on)),
        is_first_coil(coils, c, items[i].0@),
    ensures
        ({
            let writes = plan(items, registers, coils, file_records, mem_layout);
            &&& 0 <= w < writes.len()
            &&& writes[w].names.contains(items[i].0@)
            &&& is_write(writes[w].request)
            &&& coils_after(memory, writes[w].request)(coils[c].address) == on
        }),
{
    let all = resolutions(items, registers, coils, file_records);
    let writes = planned(all, mem_layout);
    let groups = coil_groups(all);
    lemma_first_coil(coils, c, items[i].0@);
    assert(all[i].1 == Resolved::Coil(coils[c], on));
    let e = lemma_coil_entry(all, i);
    let slots = coil_entry_slots(coil_entries(all));
    let (g, j) = lemma_slot_has_run(slots, MAX_COIL_WRITE_BATCH_SIZE, e);
    let run = groups[g];
    assert(run[j].item == (coils[c], on));
    lemma_coil_runs(coil_entries(all), g);
    let w = register_writes(register_groups(all), mem_layout).len() + g;
    assert(writes[w] == coil_writes(groups)[g]);
    assert(writes[w].names[j] == items[i].0@);
    lemma_coil_run_written(run, memory, j);
    w as int
}

/// The request for a run of coils is one that a device takes, and leaves each coil
/// with its value.
proof fn lemma_coil_run_written(
    run: Seq<Slot<(CoilDescription, bool)>>,
    memory: spec_fn(u16) -> bool,
    j: int,
)
    requires
        is_coil_run(run),
        0 <= j < run.len(),
    ensures
        ({
            let request = coil_write(run[0].address, run_items(run)).request;
            &&& is_write(request)
            &&& coils_after(memory, request)(run[j].item.0.address) == run[j].item.1
        }),
{
    let entries = run_items(run);
    let request = coil_write(run[0].address, entries).request;
    let (coil, on) = run[j].item;
    assert(entries[j] == run[j].item);
    assert(run[j].address == coil.address);
    if run.len() == 1 {
        lemma_single_coil_written(memory, coil.address, on);
    } else {
        reveal(sets_coil);
        lemma_multiple_coils_written(memory, run[0].address, coil_entry_values(entries), j);
    }
}

proof fn lemma_mask_entry(all: Seq<(Seq<char>, Resolved)>, i: int) -> (e: int)
    requires
        0 <= i < all.len(),
        all[i].1 is Mask,
    ensures
        0 <= e < mask_writes(all).len(),
        mask_writes(all)[e] == mask_write(
            all[i].1->Mask_0,
            all[i].1->Mask_1,
            all[i].1->Mask_2,
        ),
    decreases all.len(),
{
    if i == all.len() - 1 {
        mask_writes(all).len() - 1
    } else {
        lemma_mask_entry(all.drop_last(), i)
    }
}

/// Staged masks reach the device: some request of the transaction bears their name,
/// and leaves in the register the bits that the first mask keeps of what was there
/// and, for the others, those of the second.
pub proof fn law_staged_masks_reach_the_device(
    items: Seq<(String, StagedValue)>,
    registers: Seq<RegisterDescription>,
    coils: Seq<CoilDescription>,
    file_records: Seq<FileRecordDescription>,
    mem_layout: MemLayout,
    memory: spec_fn(u16) -> u16,
    i: int,
    r: int,
    and_mask: u16,
    or_mask: u16,
) -> (w: int)
    requires
        0 <= i < items.len(),
        items[i].1@ == (Staged::MaskedRegister { and_mask, or_mask }),
        is_first_register(registers, r, items[i].0@),
        registers[r].data_type.width() == 1,
    ensures
        ({
            let writes = plan(items, registers, coils, file_records, mem_layout);
            let address = registers[r].address;
            &&& 0 <= w < writes.len()
            &&& writes[w].names.contains(items[i].0@)
            &&& is_write(writes[w].request)
            &&& registers_after(memory, writes[w].request)(address) == (memory(address) & and_mask)
                | (or_mask & !and_mask)
        }),
{
    let all = resolutions(items, registers, coils, file_records);
    let writes = planned(all, mem_layout);
    lemma_first_register(registers, r, items[i].0@);
    assert(all[i].1 == Resolved::Mask(registers[r], and_mask, or_mask));
    let e = lemma_mask_entry(all, i);
    let w = register_writes(register_groups(all), mem_layout).len() + coil_writes(
        coil_groups(all),
    ).len() + e;
    let write = mask_write(registers[r], and_mask, or_mask);
    assert(writes[w] == write);
    assert(write.names[0] == items[i].0@);
    let request = write.request;
    lemma_number(registers[r].address);
    lemma_number(and_mask);
    lemma_number(or_mask);
    assert(request =~= seq![0x16u8] + be_bytes(registers[r].address) + be_bytes(and_mask)
        + be_bytes(or_mask));
    assert(number(request, 1) == registers[r].address);
    assert(number(request, 3) == and_mask);
    assert(number(request, 5) == or_mask);
    w as int
}

proof fn lemma_record_entry(all: Seq<(Seq<char>, Resolved)>, i: int) -> (e: int)
    requires
        0 <= i < all.len(),
        all[i].1 is Record,
    ensures
        0 <= e < record_writes(all).len(),
        record_writes(all)[e] == record_write(
            all[i].0,
            all[i].1->Record_0,
            all[i].1->Record_1,
            all[i].1->Record_2,
        ),
    decreases all.len(),
{
    if i == all.len() - 1 {
        record_writes(all).len() - 1
    } else {
        lemma_record_entry(all.drop_last(), i)
    }
}

/// A staged file record reaches the device: some request of the transaction bears its
/// name, says which record it is and how many registers it has, and ends with its
/// bytes. The message counts its bytes in a byte.
pub proof fn law_staged_record_reaches_the_device(
    items: Seq<(String, StagedValue)>,
    registers: Seq<RegisterDescription>,
    coils: Seq<CoilDescription>,
    file_records: Seq<FileRecordDescription>,
    mem_layout: MemLayout,
    i: int,
    r: int,
    value: Seq<u8>,
) -> (w: int)
    requires
        0 <= i < items.len(),
        0 <= r < file_records.len(),
        items[i].1@ == (Staged::FileRecord {
            file_number: file_records[r].file_number,
            record_number: file_records[r].record_number,
            value,
        }),
        forall|j: int|
            0 <= j < r ==> (#[trigger] file_records[j]).file_number != file_records[r].file_number
                || file_records[j].record_number != file_records[r].record_number,
        value.len() == 2 * file_records[r].record_length,
        value.len() <= 248,
    ensures
        ({
            let writes = plan(items, registers, coils, file_records, mem_layout);
            &&& 0 <= w < writes.len()
            &&& writes[w].names.contains(items[i].0@)
            &&& writes[w].request.len() == 9 + value.len()
            &&& writes[w].request[0] == 0x15
            &&& writes[w].request[1] == writes[w].request.len() - 2
            &&& writes[w].request[2] == 6
            &&& number(writes[w].request, 3) == file_records[r].file_number
            &&& number(writes[w].request, 5) == file_records[r].record_number
            &&& number(writes[w].request, 7) == file_records[r].record_length
            &&& forall|k: int|
                0 <= k < value.len() ==> writes[w].request[9 + k] == #[trigger] value[k]
        }),
{
    let all = resolutions(items, registers, coils, file_records);
    let writes = planned(all, mem_layout);
    let record = file_records[r];
    lemma_first_record(file_records, record.file_number, record.record_number, r);
    assert(all[i].1 == Resolved::Record(record.file_number, record.record_number, value));
    let e = lemma_record_entry(all, i);
    let w = register_writes(register_groups(all), mem_layout).len() + coil_writes(
        coil_groups(all),
    ).len() + mask_writes(all).len() + e;
    let write = record_write(items[i].0@, record.file_number, record.record_number, value);
    assert(writes[w] == write);
    assert(write.names[0] == items[i].0@);
    lemma_number(record.file_number);
    lemma_number(record.record_number);
    lemma_number(record.record_length);
    let request = write.request;
    assert(request[3] == be_bytes(record.file_number)[0]);
    assert(request[4] == be_bytes(record.file_number)[1]);
    assert(request[5] == be_bytes(record.record_number)[0]);
    assert(request[6] == be_bytes(record.record_number)[1]);
    assert((value.len() / 2) % 65536 == record.record_length);
    assert(request[7] == be_bytes(record.record_length)[0]);
    assert(request[8] == be_bytes(record.record_length)[1]);
    w as int
}

/// Where an address lies among those that a run takes.
proof fn lemma_place_in_run<T>(run: Seq<Slot<T>>, d: int) -> (j: int)
    requires
        0 <= d < total(run),
    ensures
        0 <= j < run.len(),
        total(run.take(j)) <= d < total(run.take(j)) + run[j].size,
    decreases run.len(),
{
    let front = run.drop_last();
    if run.len() == 0 {
        0
    } else if d < total(front) {
        let j = lemma_place_in_run(front, d);
        assert(front.take(j) =~= run.take(j));
        assert(front[j] == run[j]);
        j
    } else {
        assert(run.take(run.len() - 1) =~= front);
        run.len() - 1
    }
}

/// A register that is written was staged.
proof fn lemma_register_origin(all: Seq<(Seq<char>, Resolved)>, e: int) -> (i: int)
    requires
        0 <= e < register_entries(all).len(),
    ensures
        0 <= i < all.len(),
        all[i].1 == Resolved::Register(register_entries(all)[e].0, register_entries(all)[e].1),
    decreases all.len(),
{
    if e < register_entries(all.drop_last()).len() {
        lemma_register_origin(all.drop_last(), e)
    } else {
        all.len() - 1
    }
}

/// A coil that is written was staged.
proof fn lemma_coil_origin(all: Seq<(Seq<char>, Resolved)>, e: int) -> (i: int)
    requires
        0 <= e < coil_entries(all).len(),
    ensures
        0 <= i < all.len(),
        all[i].1 == Resolved::Coil(coil_entries(all)[e].0, coil_entries(all)[e].1),
    decreases all.len(),
{
    if e < coil_entries(all.drop_last()).len() {
        lemma_coil_origin(all.drop_last(), e)
    } else {
        all.len() - 1
    }
}

/// Masks that are written were staged.
proof fn lemma_mask_origin(all: Seq<(Seq<char>, Resolved)>, e: int) -> (i: int)
    requires
        0 <= e < mask_writes(all).len(),
    ensures
        0 <= i < all.len(),
        all[i].1 is Mask,
        mask_writes(all)[e] == mask_write(
            all[i].1->Mask_0,
            all[i].1->Mask_1,
            all[i].1->Mask_2,
        ),
    decreases all.len(),
{
    if e < mask_writes(all.drop_last()).len() {
        lemma_mask_origin(all.drop_last(), e)
    } else {
        all.len() - 1
    }
}

/// A request for file records starts with their code.
proof fn lemma_record_code(all: Seq<(Seq<char>, Resolved)>, e: int)
    requires
        0 <= e < record_writes(all).len(),
    ensures
        record_writes(all)[e].request.len() > 0,
        record_writes(all)[e].request[0] == 0x15,
    decreases all.len(),
{
    if e < record_writes(all.drop_last()).len() {
        lemma_record_code(all.drop_last(), e);
    }
}

/// What is in a run of slots is one of the slots.
proof fn lemma_run_origin<T>(slots: Seq<Slot<T>>, max: u16, g: int, j: int) -> (e: int)
    requires
        0 <= g < runs(sorted_slots(slots), max).len(),
        0 <= j < runs(sorted_slots(slots), max)[g].len(),
    ensures
        0 <= e < slots.len(),
        slots[e] == runs(sorted_slots(slots), max)[g][j],
{
    let holds = |slot: Slot<T>| slots.contains(slot);
    assert forall|i: int| 0 <= i < slots.len() implies holds(#[trigger] slots[i]) by {}
    lemma_runs_hold(slots, max, holds);
    let slot = runs(sorted_slots(slots), max)[g][j];
    assert(holds(slot));
    slots.index_of(slot)
}

proof fn lemma_distance_in_run(start: u16, front: int, place: u16, address: u16, d: int)
    requires
        0 <= front <= d < 65536,
        place == (start + front) % 65536,
        d == distance(start as int, address),
    ensures
        distance(place as int, address) == d - front,
{
    assert((address - start) % 65536 == d);
    assert((address - place) % 65536 == d - front);
}

/// An address that no register of a run takes lies behind the run.
proof fn lemma_outside_registers(
    run: Seq<Slot<(RegisterDescription, RegisterValue)>>,
    address: u16,
)
    requires
        is_register_run(run),
        forall|j: int|
            0 <= j < run.len() ==> distance((#[trigger] run[j]).item.0.address as int, address)
                >= run[j].item.0.data_type.width(),
    ensures
        distance(run[0].address as int, address) >= total(run),
{
    let d = distance(run[0].address as int, address);
    if d < total(run) {
        let j = lemma_place_in_run(run, d);
        let front = total(run.take(j));
        lemma_total_is_positive(run.take(j));
        assert(run[j].address == (run[0].address + front) % 65536);
        lemma_distance_in_run(run[0].address, front, run[j].address, address, d);
        assert(run[j].item.0.address == run[j].address);
    }
}

proof fn lemma_total_is_positive<T>(run: Seq<Slot<T>>)
    ensures
        total(run) >= 0,
    decreases run.len(),
{
    if run.len() > 0 {
        lemma_total_is_positive(run.drop_last());
    }
}

proof fn lemma_single_leaves(
    memory: spec_fn(u16) -> u16,
    place: u16,
    word: u16,
    address: u16,
)
    requires
        address != place,
    ensures
        registers_after(
            memory,
            (WriteSingleRegisterRequest {
                register_address: place,
                register_value: word,
            }).message(),
        )(address) == memory(address),
{
    lemma_single_written(memory, place, word);
}

proof fn lemma_multiple_leaves(
    memory: spec_fn(u16) -> u16,
    start: u16,
    words: Seq<u16>,
    address: u16,
)
    requires
        1 <= words.len() <= 123,
        distance(start as int, address) >= words.len(),
    ensures
        registers_after(memory, WriteMultipleRegistersRequest::message(start, words))(address)
            == memory(address),
{
    lemma_multiple(start, words, 0);
}

/// A request for a run of registers leaves the others as they are.
proof fn lemma_register_run_leaves(
    run: Seq<Slot<(RegisterDescription, RegisterValue)>>,
    mem_layout: MemLayout,
    memory: spec_fn(u16) -> u16,
    address: u16,
)
    requires
        is_register_run(run),
        forall|j: int|
            0 <= j < run.len() ==> distance((#[trigger] run[j]).item.0.address as int, address)
                >= run[j].item.0.data_type.width(),
    ensures
        registers_after(
            memory,
            register_write(run[0].address, run_items(run), total(run), mem_layout).request,
        )(address) == memory(address),
{
    let entries = run_items(run);
    assert(entries[0] == run[0].item);
    lemma_outside_registers(run, address);
    if total(run) == 1 {
        assert(distance(run[0].item.0.address as int, address) >= 1);
        lemma_single_leaves(
            memory,
            entries[0].0.address,
            value_words(entries[0].1, mem_layout)[0],
            address,
        );
    } else {
        lemma_entries_width(run);
        law_words_fill_the_registers(entries, mem_layout);
        lemma_multiple_leaves(memory, run[0].address, entry_words(entries, mem_layout), address);
    }
}

/// A register under whose address nothing was staged, neither a value nor masks, keeps
/// its word, whatever request of the transaction is carried out.
pub proof fn law_other_registers_stay(
    items: Seq<(String, StagedValue)>,
    registers: Seq<RegisterDescription>,
    coils: Seq<CoilDescription>,
    file_records: Seq<FileRecordDescription>,
    mem_layout: MemLayout,
    memory: spec_fn(u16) -> u16,
    w: int,
    address: u16,
)
    requires
        0 <= w < plan(items, registers, coils, file_records, mem_layout).len(),
        forall|i: int, r: int|
            0 <= i < items.len() && ((#[trigger] items[i]).1@ is Register || items[i].1@
                is MaskedRegister) && is_first_register(registers, r, items[i].0@) ==> distance(
                (#[trigger] registers[r]).address as int,
                address,
            ) >= registers[r].data_type.width(),
    ensures
        registers_after(
            memory,
            plan(items, registers, coils, file_records, mem_layout)[w].request,
        )(address) == memory(address),
{
    let all = resolutions(items, registers, coils, file_records);
    let writes = planned(all, mem_layout);
    let a = register_writes(register_groups(all), mem_layout).len() as int;
    let b = coil_writes(coil_groups(all)).len() as int;
    let c = mask_writes(all).len() as int;
    lemma_types_agree(items, registers, coils, file_records);
    if w < a {
        let slots = register_entry_slots(register_entries(all));
        let run = register_groups(all)[w];
        lemma_register_runs(register_entries(all), w);
        assert forall|j: int| 0 <= j < run.len() implies distance(
            (#[trigger] run[j]).item.0.address as int,
            address,
        ) >= run[j].item.0.data_type.width() by {
            let e = lemma_run_origin(slots, MAX_REGISTER_WRITE_BATCH_SIZE, w, j);
            let i = lemma_register_origin(all, e);
            assert(items[i].1@ is Register);
            let r = first_named(registers, items[i].0@)->0;
            lemma_found(registers, items[i].0@);
            lemma_is_first_register(registers, r, items[i].0@);
            assert(registers[r] == run[j].item.0);
        }
        lemma_register_run_leaves(run, mem_layout, memory, address);
        assert(writes[w] == register_writes(register_groups(all), mem_layout)[w]);
    } else if w < a + b {
        let run = coil_groups(all)[w - a];
        lemma_coil_runs(coil_entries(all), w - a);
        assert(writes[w] == coil_writes(coil_groups(all))[w - a]);
        lemma_coil_run_code(run);
    } else if w < a + b + c {
        let e = w - a - b;
        assert(writes[w] == mask_writes(all)[e]);
        let i = lemma_mask_origin(all, e);
        assert(items[i].1@ is MaskedRegister);
        let r = first_named(registers, items[i].0@)->0;
        lemma_found(registers, items[i].0@);
        lemma_is_first_register(registers, r, items[i].0@);
        let register = all[i].1->Mask_0;
        assert(register == registers[r]);
        assert(distance(registers[r].address as int, address) >= 1);
        lemma_number(register.address);
        let request = writes[w].request;
        assert(request[0] == 0x16);
        assert(request[1] == be_bytes(register.address)[0]);
        assert(request[2] == be_bytes(register.address)[1]);
        assert(number(request, 1) == register.address);
    } else {
        assert(writes[w] == record_writes(all)[w - a - b - c]);
        lemma_record_code(all, w - a - b - c);
    }
}

proof fn lemma_is_first_register(registers: Seq<RegisterDescription>, r: int, name: Seq<char>)
    requires
        0 <= r < registers.len(),
        registers[r].label() == name,
        forall|j: int| 0 <= j < r ==> (#[trigger] registers[j]).label() != name,
    ensures
        is_first_register(registers, r, name),
{
    assert forall|j: int| 0 <= j < r implies (#[trigger] registers[j]).name@ != name by {
        assert(registers[j].label() != name);
    }
}

proof fn lemma_is_first_coil(coils: Seq<CoilDescription>, c: int, name: Seq<char>)
    requires
        0 <= c < coils.len(),
        coils[c].label() == name,
        forall|j: int| 0 <= j < c ==> (#[trigger] coils[j]).label() != name,
    ensures
        is_first_coil(coils, c, name),
{
    assert forall|j: int| 0 <= j < c implies (#[trigger] coils[j]).name@ != name by {
        assert(coils[j].label() != name);
    }
}

/// A request for coils starts with one of their codes.
proof fn lemma_coil_run_code(run: Seq<Slot<(CoilDescription, bool)>>)
    requires
        is_coil_run(run),
    ensures
        ({
            let request = coil_write(run[0].address, run_items(run)).request;
            request.len() > 0 && (request[0] == 0x05 || request[0] == 0x0F)
        }),
{
    let entries = run_items(run);
    let request = coil_write(run[0].address, entries).request;
    if run.len() == 1 {
        assert(request[0] == 0x05);
    } else {
        reveal(sets_coil);
        lemma_multiple_coils_written(
            |address: u16| false,
            run[0].address,
            coil_entry_values(entries),
            0,
        );
    }
}

/// A request for a run of coils leaves the others as they are.
proof fn lemma_coil_run_leaves(
    run: Seq<Slot<(CoilDescription, bool)>>,
    memory: spec_fn(u16) -> bool,
    address: u16,
)
    requires
        is_coil_run(run),
        forall|j: int| 0 <= j < run.len() ==> (#[trigger] run[j]).item.0.address != address,
    ensures
        coils_after(memory, coil_write(run[0].address, run_items(run)).request)(address) == memory(
            address,
        ),
{
    let entries = run_items(run);
    assert(entries[0] == run[0].item);
    assert(run[0].item.0.address != address);
    if run.len() == 1 {
        lemma_single_coil_leaves(memory, run[0].item.0.address, run[0].item.1, address);
    } else {
        let d = distance(run[0].address as int, address);
        if d < run.len() {
            lemma_place_of(run[0].address, address);
            assert(run[d].address == behind(run[0].address as int, d));
            assert(run[d].item.0.address == address);
        }
        lemma_multiple_coils_leave(memory, run[0].address, coil_entry_values(entries), address);
    }
}

proof fn lemma_place_of(start: u16, address: u16)
    ensures
        0 <= distance(start as int, address) < 65536,
        behind(start as int, distance(start as int, address)) == address,
{
}

proof fn lemma_single_coil_leaves(
    memory: spec_fn(u16) -> bool,
    place: u16,
    on: bool,
    address: u16,
)
    requires
        address != place,
    ensures
        coils_after(
            memory,
            (WriteSingleCoilRequest { coil_address: place, coil_value: on }).message(),
        )(address) == memory(address),
{
    lemma_single_coil_written(memory, place, on);
}

proof fn lemma_multiple_coils_leave(
    memory: spec_fn(u16) -> bool,
    start: u16,
    bits: Seq<bool>,
    address: u16,
)
    requires
        1 <= bits.len() <= 1968,
        distance(start as int, address) >= bits.len(),
    ensures
        coils_after(memory, WriteMultipleCoilsRequest::message(start, bits))(address) == memory(
            address,
        ),
{
    reveal(sets_coil);
    lemma_multiple_coils_written(memory, start, bits, 0);
}

/// A coil under whose address nothing was staged stays as it is, whatever request of the
/// transaction is carried out.
pub proof fn law_other_coils_stay(
    items: Seq<(String, StagedValue)>,
    registers: Seq<RegisterDescription>,
    coils: Seq<CoilDescription>,
    file_records: Seq<FileRecordDescription>,
    mem_layout: MemLayout,
    memory: spec_fn(u16) -> bool,
    w: int,
    address: u16,
)
    requires
        0 <= w < plan(items, registers, coils, file_records, mem_layout).len(),
        forall|i: int, c: int|
            0 <= i < items.len() && (#[trigger] items[i]).1@ is Coil && is_first_coil(
                coils,
                c,
                items[i].0@,
            ) ==> (#[trigger] coils[c]).address != address,
    ensures
        coils_after(
            memory,
            plan(items, registers, coils, file_records, mem_layout)[w].request,
        )(address) == memory(address),
{
    let all = resolutions(items, registers, coils, file_records);
    let writes = planned(all, mem_layout);
    let a = register_writes(register_groups(all), mem_layout).len() as int;
    let b = coil_writes(coil_groups(all)).len() as int;
    let c = mask_writes(all).len() as int;
    lemma_types_agree(items, registers, coils, file_records);
    if w < a {
        let run = register_groups(all)[w];
        lemma_register_runs(register_entries(all), w);
        assert(writes[w] == register_writes(register_groups(all), mem_layout)[w]);
        lemma_register_run_code(run, mem_layout);
    } else if w < a + b {
        let slots = coil_entry_slots(coil_entries(all));
        let run = coil_groups(all)[w - a];
        lemma_coil_runs(coil_entries(all), w - a);
        assert forall|j: int| 0 <= j < run.len() implies (#[trigger] run[j]).item.0.address
            != address by {
            let e = lemma_run_origin(slots, MAX_COIL_WRITE_BATCH_SIZE, w - a, j);
            let i = lemma_coil_origin(all, e);
            assert(items[i].1@ is Coil);
            let k = first_named(coils, items[i].0@)->0;
            lemma_found(coils, items[i].0@);
            lemma_is_first_coil(coils, k, items[i].0@);
            assert(coils[k] == run[j].item.0);
        }
        lemma_coil_run_leaves(run, memory, address);
        assert(writes[w] == coil_writes(coil_groups(all))[w - a]);
    } else if w < a + b + c {
        assert(writes[w] == mask_writes(all)[w - a - b]);
        let i = lemma_mask_origin(all, w - a - b);
        assert(writes[w].request[0] == 0x16);
    } else {
        assert(writes[w] == record_writes(all)[w - a - b - c]);
        lemma_record_code(all, w - a - b - c);
    }
}

/// A request for registers starts with one of their codes.
proof fn lemma_register_run_code(
    run: Seq<Slot<(RegisterDescription, RegisterValue)>>,
    mem_layout: MemLayout,
)
    requires
        is_register_run(run),
    ensures
        ({
            let request = register_write(
                run[0].address,
                run_items(run),
                total(run),
                mem_layout,
            ).request;
            request.len() > 0 && (request[0] == 0x06 || request[0] == 0x10)
        }),
{
    let entries = run_items(run);
    lemma_entries_width(run);
    law_words_fill_the_registers(entries, mem_layout);
    let words = entry_words(entries, mem_layout);
    if total(run) == 1 {
        lemma_single_written(|address: u16| 0u16, entries[0].0.address, words[0]);
    } else {
        lemma_multiple(run[0].address, words, 0);
    }
}

/// Whether what was staged under `name` can be written: to the first register of that
/// name, where it has the type of the value, or takes a single word where masks are
/// staged; to a coil of that name; or to a file record of the length of the bytes.
pub open spec fn is_writable(
    name: Seq<char>,
    staged: Staged,
    registers: Seq<RegisterDescription>,
    coils: Seq<CoilDescription>,
    file_records: Seq<FileRecordDescription>,
) -> bool {
    match staged {
        Staged::Register(value) => exists|r: int|
            is_first_register(registers, r, name) && (#[trigger] registers[r]).data_type
                == value.kind(),
        Staged::Coil(_) => exists|c: int|
            0 <= c < coils.len() && (#[trigger] coils[c]).name@ == name,
        Staged::DiscreteInput(_) => false,
        Staged::InputRegister(_) => false,
        Staged::FileRecord { file_number, record_number, value } => exists|r: int|
            is_first_record(file_records, r, file_number, record_number) && value.len() == 2 * (
            #[trigger] file_records[r]).record_length,
        Staged::MaskedRegister { .. } => exists|r: int|
            is_first_register(registers, r, name) && (#[trigger] registers[r]).data_type.width()
                == 1,
    }
}

proof fn lemma_refused_or_writable(
    name: Seq<char>,
    staged: Staged,
    registers: Seq<RegisterDescription>,
    coils: Seq<CoilDescription>,
    file_records: Seq<FileRecordDescription>,
)
    ensures
        is_writable(name, staged, registers, coils, file_records) <==> !(resolved(
            name,
            staged,
            registers,
            coils,
            file_records,
        ) is Refused),
{
    lemma_found(registers, name);
    lemma_found(coils, name);
    match first_named(registers, name) {
        Some(r) => {
            lemma_is_first_register(registers, r, name);
        },
        None => {},
    }
    match first_named(coils, name) {
        Some(c) => {
            assert(coils[c].name@ == name);
        },
        None => {},
    }
    assert(forall|r: int| #[trigger]
        is_first_register(registers, r, name) ==> registers[r].label() == name);
    assert(forall|c: int|
        0 <= c < coils.len() && (#[trigger] coils[c]).name@ == name ==> coils[c].label() == name);
    if let Staged::Register(value) = staged {
        if is_writable(name, staged, registers, coils, file_records) {
            let r = choose|r: int|
                is_first_register(registers, r, name) && (#[trigger] registers[r]).data_type
                    == value.kind();
            lemma_first_register(registers, r, name);
        }
    }
    if staged is MaskedRegister && is_writable(name, staged, registers, coils, file_records) {
        let r = choose|r: int|
            is_first_register(registers, r, name) && (#[trigger] registers[r]).data_type.width()
                == 1;
        lemma_first_register(registers, r, name);
    }
    if let Staged::FileRecord { file_number, record_number, value } = staged {
        if is_writable(name, staged, registers, coils, file_records) {
            let r = choose|r: int|
                is_first_record(file_records, r, file_number, record_number) && value.len() == 2 * (
                #[trigger] file_records[r]).record_length;
            lemma_first_record(file_records, file_number, record_number, r);
        } else if first_record(file_records, file_number, record_number) is Some {
            let r = lemma_record_found(file_records, file_number, record_number);
            assert(file_records[r] == first_record(file_records, file_number, record_number)->0);
        }
    }
}

proof fn lemma_record_found(
    records: Seq<FileRecordDescription>,
    file_number: u16,
    record_number: u16,
) -> (r: int)
    requires
        first_record(records, file_number, record_number) is Some,
    ensures
        is_first_record(records, r, file_number, record_number),
        first_record(records, file_number, record_number) == Some(records[r]),
    decreases records.len(),
{
    if records[0].file_number == file_number && records[0].record_number == record_number {
        0
    } else {
        let rest = records.drop_first();
        let r = lemma_record_found(rest, file_number, record_number);
        assert forall|j: int| 0 <= j < r + 1 implies (#[trigger] records[j]).file_number
            != file_number || records[j].record_number != record_number by {
            if j > 0 {
                assert(rest[j - 1] == records[j]);
            }
        }
        r + 1
    }
}

/// What cannot be written is reported as failed when the transaction is planned, and
/// nothing is reported of anything else. No name stands twice in a transaction.
pub proof fn law_refused_is_what_cannot_be_written(
    before: Map<Seq<char>, Outcome>,
    items: Seq<(String, StagedValue)>,
    registers: Seq<RegisterDescription>,
    coils: Seq<CoilDescription>,
    file_records: Seq<FileRecordDescription>,
    i: int,
)
    requires
        0 <= i < items.len(),
    ensures
        ({
            let name = items[i].0@;
            let after = refused_at_once(before, items, registers, coils, file_records);
            let writable = is_writable(name, items[i].1@, registers, coils, file_records);
            &&& !writable ==> after.dom().contains(name) && after[name] is Failed
            &&& writable && (forall|j: int|
                0 <= j < items.len() && j != i ==> (#[trigger] items[j]).0@ != name)
                ==> after.dom().contains(name) == before.dom().contains(name) && after[name]
                == before[name]
        }),
{
    let all = resolutions(items, registers, coils, file_records);
    let name = items[i].0@;
    lemma_refused_or_writable(name, items[i].1@, registers, coils, file_records);
    lemma_refused_names(all, name);
    law_planning_reports_refusals_only(before, all, name);
    assert(all[i].0 == name);
    if is_writable(name, items[i].1@, registers, coils, file_records) && forall|j: int|
        0 <= j < items.len() && j != i ==> (#[trigger] items[j]).0@ != name {
        if refused_names(all).contains(name) {
            let k = choose|k: int|
                0 <= k < all.len() && (#[trigger] all[k]).1 is Refused && all[k].0 == name;
            assert(items[k].0@ == name);
        }
    }
}

/// The refused names are those of what is refused.
proof fn lemma_refused_names(all: Seq<(Seq<char>, Resolved)>, name: Seq<char>)
    ensures
        refused_names(all).contains(name) <==> exists|k: int|
            0 <= k < all.len() && (#[trigger] all[k]).1 is Refused && all[k].0 == name,
    decreases all.len(),
{
    if all.len() > 0 {
        let rest = all.drop_last();
        lemma_refused_names(rest, name);
        let front = refused_names(rest);
        let names = refused_names(all);
        if names.contains(name) {
            let at = names.index_of(name);
            if at < front.len() {
                assert(front[at] == name);
                let k = choose|k: int|
                    0 <= k < rest.len() && (#[trigger] rest[k]).1 is Refused && rest[k].0 == name;
                assert(all[k].1 is Refused && all[k].0 == name);
            } else {
                assert(all[all.len() - 1].1 is Refused && all[all.len() - 1].0 == name);
            }
        }
        if exists|k: int|
            0 <= k < all.len() && (#[trigger] all[k]).1 is Refused && all[k].0 == name {
            let k = choose|k: int|
                0 <= k < all.len() && (#[trigger] all[k]).1 is Refused && all[k].0 == name;
            if k < rest.len() {
                assert(rest[k].1 is Refused && rest[k].0 == name);
                let at = front.index_of(name);
                assert(names[at] == name);
            } else {
                assert(names[front.len() as int] == name);
            }
        }
    }
}

/// The request for a single register is there where the register takes one word and has
/// the type of the value. A device that carries it out has in the register the word that
/// reads as the value, and nothing else is changed.
pub proof fn law_register_request_writes_the_value<
    S: Fn(u32) -> String,
    D: Fn(u64) -> String,
>(
    single: S,
    double: D,
    register: RegisterDescription,
    value: RegisterValue,
    mem_layout: MemLayout,
    memory: spec_fn(u16) -> u16,
    other: u16,
)
    ensures
        write_request(register, value, mem_layout) is Ok <==> register.data_type == value.kind()
            && register.data_type.width() == 1,
        write_request(register, value, mem_layout) matches Ok(request) ==> {
            &&& is_write(request)
            &&& forall|read: RegisterValue| #[trigger]
                words_value(
                    single,
                    double,
                    register.data_type,
                    words_from(registers_after(memory, request), register.address, 1),
                    mem_layout,
                    read,
                ) ==> same_value(read, value)
            &&& other != register.address ==> registers_after(memory, request)(other) == memory(
                other,
            )
        },
{
    if let Ok(request) = write_request(register, value, mem_layout) {
        let words = value_words(value, mem_layout);
        law_word_count(value, mem_layout);
        lemma_single_written(memory, register.address, words[0]);
        assert(words =~= seq![words[0]]);
        if other != register.address {
            lemma_single_leaves(memory, register.address, words[0], other);
        }
        assert forall|read: RegisterValue| #[trigger]
            words_value(
                single,
                double,
                register.data_type,
                words_from(registers_after(memory, request), register.address, 1),
                mem_layout,
                read,
            ) implies same_value(read, value) by {
            law_words_read_back(single, double, value, mem_layout, read);
        }
    }
}

/// A device that carries out the request for a single coil has it on or off as the value
/// says, and changes no other coil.
pub proof fn law_coil_request_switches_the_coil(
    coil: CoilDescription,
    on: bool,
    memory: spec_fn(u16) -> bool,
    other: u16,
)
    ensures
        is_write(coil_request(coil, CoilValue(on))),
        coils_after(memory, coil_request(coil, CoilValue(on)))(coil.address) == on,
        other != coil.address ==> coils_after(memory, coil_request(coil, CoilValue(on)))(other)
            == memory(other),
{
    lemma_single_coil_written(memory, coil.address, on);
    if other != coil.address {
        lemma_single_coil_leaves(memory, coil.address, on, other);
    }
}

/// A device that carries out a request for several registers has the words in the
/// registers from the first one on, and changes no other.
pub proof fn law_words_request_writes_the_words(
    start: u16,
    words: Seq<u16>,
    memory: spec_fn(u16) -> u16,
    k: int,
    other: u16,
)
    requires
        1 <= words.len() <= 123,
        0 <= k < words.len(),
        forall|j: int| 0 <= j < words.len() ==> #[trigger] behind(start as int, j) != other,
    ensures
        is_write(words_request(start, words)),
        registers_after(memory, words_request(start, words))(behind(start as int, k)) == words[k],
        registers_after(memory, words_request(start, words))(other) == memory(other),
{
    lemma_multiple(start, words, k);
    lemma_distance(start as int, 0, k);
    lemma_place_of(start, other);
    assert(distance(start as int, other) >= words.len());
    lemma_multiple_leaves(memory, start, words, other);
}

/// A device that carries out a request for several coils has them on or off as the bits
/// say, from the first one on, and changes no other.
pub proof fn law_bits_request_switches_the_coils(
    start: u16,
    bits: Seq<bool>,
    memory: spec_fn(u16) -> bool,
    k: int,
    other: u16,
)
    requires
        1 <= bits.len() <= 1968,
        0 <= k < bits.len(),
        forall|j: int| 0 <= j < bits.len() ==> #[trigger] behind(start as int, j) != other,
    ensures
        is_write(bits_request(start, bits)),
        coils_after(memory, bits_request(start, bits))(behind(start as int, k)) == bits[k],
        coils_after(memory, bits_request(start, bits))(other) == memory(other),
{
    reveal(sets_coil);
    lemma_multiple_coils_written(memory, start, bits, k);
    lemma_place_of(start, other);
    assert(distance(start as int, other) >= bits.len());
    lemma_multiple_coils_leave(memory, start, bits, other);
}

/// The reason for which a value is refused says of what: it holds the name under which the
/// value was staged, or the two numbers of a file record.
pub proof fn law_refusal_says_of_what(
    name: Seq<char>,
    staged: Staged,
    registers: Seq<RegisterDescription>,
    coils: Seq<CoilDescription>,
    file_records: Seq<FileRecordDescription>,
)
    requires
        resolved(name, staged, registers, coils, file_records) is Refused,
    ensures
        staged matches Staged::FileRecord { file_number, record_number, .. } ==> holds(
            resolved(name, staged, registers, coils, file_records)->Refused_0,
            record_name(file_number, record_number),
        ),
        !(staged is FileRecord) ==> holds(
            resolved(name, staged, registers, coils, file_records)->Refused_0,
            name,
        ),
{
    let reason = resolved(name, staged, registers, coils, file_records)->Refused_0;
    let empty = Seq::<char>::empty();
    match staged {
        Staged::Register(value) => match first_named(registers, name) {
            Some(i) => {
                let back = ": expected a "@ + registers[i].data_type.label() + " value but got a "@
                    + value.kind().label() + " one"@;
                lemma_holds("register "@, name, back);
                assert(reason =~= "register "@ + name + back);
            },
            None => {
                lemma_holds("unknown register: "@, name, empty);
                assert(reason =~= "unknown register: "@ + name + empty);
            },
        },
        Staged::Coil(_) => {
            lemma_holds("unknown coil: "@, name, empty);
            assert(reason =~= "unknown coil: "@ + name + empty);
        },
        Staged::DiscreteInput(_) => {
            lemma_holds("discrete input "@, name, ": never writable via Modbus"@);
        },
        Staged::InputRegister(_) => {
            lemma_holds("input register "@, name, ": never writable via Modbus"@);
        },
        Staged::FileRecord { file_number, record_number, value } => {
            let own = record_name(file_number, record_number);
            match first_record(file_records, file_number, record_number) {
                Some(description) => {
                    let back = ": expected "@ + numbers::decimal(
                        (description.record_length * 2) as nat,
                    ) + " bytes but got "@ + numbers::decimal(value.len());
                    lemma_holds("file record "@, own, back);
                    assert(reason =~= "file record "@ + own + back);
                },
                None => {
                    lemma_holds("unknown file record: "@, own, empty);
                    assert(reason =~= "unknown file record: "@ + own + empty);
                },
            }
        },
        Staged::MaskedRegister { and_mask, or_mask } => match first_named(registers, name) {
            Some(i) => {
                let back = ": "@ + registers[i].data_type.label() + " needs "@ + numbers::decimal(
                    registers[i].data_type.width(),
                ) + " registers, Mask Write Register can only target a single register"@;
                lemma_holds("register "@, name, back);
                assert(reason =~= "register "@ + name + back);
            },
            None => {
                lemma_holds("unknown register: "@, name, empty);
                assert(reason =~= "unknown register: "@ + name + empty);
            },
        },
    }
}

/// No other way to write all the registers of a transaction, in the order of their
/// addresses and at most 123 at a time, takes fewer requests; nor one to write all its
/// coils, at most 1968 at a time.
pub proof fn law_writes_take_the_fewest_requests(
    items: Seq<(String, StagedValue)>,
    registers: Seq<RegisterDescription>,
    coils: Seq<CoilDescription>,
    file_records: Seq<FileRecordDescription>,
    mem_layout: MemLayout,
    register_cut: Seq<Seq<Slot<(RegisterDescription, RegisterValue)>>>,
    coil_cut: Seq<Seq<Slot<(CoilDescription, bool)>>>,
)
    requires
        ({
            let all = resolutions(items, registers, coils, file_records);
            &&& joined(register_cut) == sorted_slots(register_entry_slots(register_entries(all)))
            &&& joined(coil_cut) == sorted_slots(coil_entry_slots(coil_entries(all)))
        }),
        forall|i: int| 0 <= i < register_cut.len() ==> is_run(#[trigger] register_cut[i], 123),
        forall|i: int| 0 <= i < coil_cut.len() ==> is_run(#[trigger] coil_cut[i], 1968),
    ensures
        ({
            let all = resolutions(items, registers, coils, file_records);
            plan(items, registers, coils, file_records, mem_layout).len() <= register_cut.len()
                + coil_cut.len() + mask_writes(all).len() + record_writes(all).len()
        }),
{
    let all = resolutions(items, registers, coils, file_records);
    law_runs_are_fewest(
        sorted_slots(register_entry_slots(register_entries(all))),
        123,
        register_cut,
    );
    law_runs_are_fewest(sorted_slots(coil_entry_slots(coil_entries(all))), 1968, coil_cut);
}

} // verus!
