//! What is known of a device once it was polled: under each name the store holds what
//! the memory of the device holds at the address of that name.
//!
//! Requests and responses are looked at byte by byte, as the device sees them.

use crate::batching::{
    is_run, joined, law_runs_are_fewest, law_runs_are_runs, lemma_runs_hold, runs, sorted_slots,
    total, Slot,
};
use crate::device::{behind, is_set, lemma_is_set, lemma_slot_has_run, number, words_from};
use crate::device_description::{
    CoilDescription, DataType, DiscreteInputDescription, FileRecordDescription,
    InputRegisterDescription, MemLayout, RegisterDescription,
};
use crate::pdu::{bits_parsed, records_parsed, words_parsed};
use crate::polling::{
    bits_applied, coil_names, coil_slots, coil_values, coils_batched, coils_read, coils_request,
    discrete_input_names, discrete_input_slots, discrete_inputs_batched, discrete_inputs_read,
    discrete_inputs_request, file_record_request, input_register_names, input_register_slots,
    input_register_types, input_registers_batched, input_registers_read, input_registers_request,
    law_read_changes_only_its_names, law_read_stores_what_was_reported, lemma_width_steps,
    record_read, register_names, register_slots, register_types, registers_batched, registers_read,
    registers_request, total_width, words_applied, words_values, CoilBatch, DiscreteInputBatch,
    InputRegisterBatch, RegisterBatch, MAX_PACKED_BIT_READ_BATCH_SIZE, MAX_READ_BATCH_SIZE,
};
use crate::register_encoding::words_value;
use crate::values::{CoilValue, RegisterValue};
use vstd::prelude::*;

verus! {

/// Whether `request` asks, with `code`, for `quantity` places from `start` on.
pub open spec fn asks_for(request: Seq<u8>, code: u8, start: u16, quantity: u16) -> bool {
    &&& request.len() == 5
    &&& request[0] == code
    &&& number(request, 1) == start
    &&& number(request, 3) == quantity
}

/// Whether `response` answers such a request for registers, whose words `memory` holds.
pub open spec fn reports_words(
    response: Seq<u8>,
    code: u8,
    memory: spec_fn(u16) -> u16,
    start: u16,
    quantity: u16,
) -> bool {
    &&& response.len() == 2 + 2 * quantity
    &&& response[0] == code
    &&& response[1] == 2 * quantity
    &&& forall|k: int|
        0 <= k < quantity ==> number(response, 2 + 2 * k) == #[trigger] memory(
            behind(start as int, k),
        )
}

/// Whether `response` answers such a request for bits, which `memory` holds: the first
/// one lowest in the first byte.
pub open spec fn reports_bits(
    response: Seq<u8>,
    code: u8,
    memory: spec_fn(u16) -> bool,
    start: u16,
    quantity: u16,
) -> bool {
    &&& response.len() == 2 + (quantity + 7) / 8
    &&& response[0] == code
    &&& response[1] == (quantity + 7) / 8
    &&& forall|k: int|
        0 <= k < quantity ==> is_set(response[2 + k / 8], k % 8) == #[trigger] memory(
            behind(start as int, k),
        )
}

/// Whether `name` at `i` does not stand again behind it.
pub open spec fn is_last(names: Seq<Seq<char>>, i: int) -> bool {
    forall|j: int| i < j < names.len() ==> #[trigger] names[j] != names[i]
}

proof fn lemma_totals<T>(run: Seq<Slot<T>>, types: Seq<DataType>)
    requires
        run.len() == types.len(),
        forall|i: int| 0 <= i < run.len() ==> (#[trigger] run[i]).size == types[i].width(),
    ensures
        total(run) == total_width(types),
    decreases run.len(),
{
    if run.len() > 0 {
        let front = run.drop_last();
        assert forall|i: int| 0 <= i < front.len() implies (#[trigger] front[i]).size
            == types.drop_last()[i].width() by {
            assert(front[i] == run[i]);
        }
        lemma_totals(front, types.drop_last());
        assert(run[run.len() - 1].size == types[run.len() - 1].width());
    }
}

proof fn lemma_words_reported(
    response: Seq<u8>,
    code: u8,
    memory: spec_fn(u16) -> u16,
    start: u16,
    quantity: u16,
)
    requires
        reports_words(response, code, memory, start, quantity),
    ensures
        words_parsed(response, code) matches Ok(words) && words.len() == quantity && forall|k: int|
            0 <= k < quantity ==> #[trigger] words[k] == memory(behind(start as int, k)),
{
    let words = words_parsed(response, code)->Ok_0;
    let bytes = response.subrange(2, 2 + response[1]);
    assert forall|k: int| 0 <= k < quantity implies #[trigger] words[k] == memory(
        behind(start as int, k),
    ) by {
        assert(bytes[2 * k] == response[2 + 2 * k]);
        assert(bytes[2 * k + 1] == response[3 + 2 * k]);
        assert(number(response, 2 + 2 * k) == memory(behind(start as int, k)));
    }
}

/// The words of one of the values that were asked for are those at its own address.
proof fn lemma_words_at(
    words: Seq<u16>,
    memory: spec_fn(u16) -> u16,
    start: u16,
    address: u16,
    from: int,
    width: nat,
)
    requires
        0 <= from,
        from + width <= words.len(),
        address == behind(start as int, from),
        forall|k: int|
            0 <= k < words.len() ==> #[trigger] words[k] == memory(behind(start as int, k)),
    ensures
        words.subrange(from, from + width) == words_from(memory, address, width),
{
    assert forall|k: int| 0 <= k < width implies words.subrange(from, from + width)[k]
        == #[trigger] words_from(memory, address, width)[k] by {
        assert(words[from + k] == memory(behind(start as int, from + k)));
        assert(behind(address as int, k) == behind(start as int, from + k));
    }
    assert(words.subrange(from, from + width) =~= words_from(memory, address, width));
}

proof fn lemma_read_words<T, S: Fn(u32) -> String, D: Fn(u64) -> String>(
    single: S,
    double: D,
    run: Seq<Slot<T>>,
    types: Seq<DataType>,
    names: Seq<Seq<char>>,
    quantity: u16,
    code: u8,
    memory: spec_fn(u16) -> u16,
    mem_layout: MemLayout,
    response: Seq<u8>,
    before: Map<Seq<char>, RegisterValue>,
    after: Map<Seq<char>, RegisterValue>,
    accepted: bool,
    j: int,
)
    requires
        is_run(run, MAX_READ_BATCH_SIZE),
        total(run) == quantity,
        run.len() == types.len(),
        names.len() == types.len(),
        forall|i: int| 0 <= i < run.len() ==> (#[trigger] run[i]).size == types[i].width(),
        reports_words(response, code, memory, run[0].address, quantity),
        words_applied(
            single,
            double,
            before,
            after,
            names,
            types,
            quantity,
            mem_layout,
            match words_parsed(response, code) {
                Ok(words) => Some(words),
                Err(_) => None,
            },
            accepted,
        ),
        0 <= j < types.len(),
        is_last(names, j),
    ensures
        accepted,
        after.dom().contains(names[j]),
        words_value(
            single,
            double,
            types[j],
            words_from(memory, run[j].address, types[j].width()),
            mem_layout,
            after[names[j]],
        ),
{
    lemma_words_reported(response, code, memory, run[0].address, quantity);
    let words = words_parsed(response, code)->Ok_0;
    let values = choose|values: Seq<RegisterValue>|
        {
            &&& #[trigger] words_values(single, double, types, words, mem_layout, values)
            &&& after == crate::polling::stored(before, names, values)
        };
    law_read_stores_what_was_reported(before, names, values, j);
    let front = run.take(j);
    assert forall|i: int| 0 <= i < front.len() implies (#[trigger] front[i]).size == types.take(
        j,
    )[i].width() by {
        assert(front[i] == run[i]);
    }
    lemma_totals(front, types.take(j));
    lemma_totals(run, types);
    lemma_width_steps(types, j);
    let from = total_width(types.take(j)) as int;
    assert(run[j].address == (run[0].address + total(run.take(j))) % 65536);
    lemma_words_at(words, memory, run[0].address, run[j].address, from, types[j].width());
    assert(after[names[j]] == values[j]);
}

proof fn lemma_bits_total<T>(run: Seq<Slot<T>>)
    requires
        forall|i: int| 0 <= i < run.len() ==> (#[trigger] run[i]).size == 1,
    ensures
        total(run) == run.len(),
    decreases run.len(),
{
    if run.len() > 0 {
        let front = run.drop_last();
        assert forall|i: int| 0 <= i < front.len() implies (#[trigger] front[i]).size == 1 by {
            assert(front[i] == run[i]);
        }
        lemma_bits_total(front);
        assert(run[run.len() - 1].size == 1);
    }
}

/// What a read of bits leaves under a name is the bit of its place in the response.
proof fn lemma_bit_stored(
    names: Seq<Seq<char>>,
    code: u8,
    response: Seq<u8>,
    before: Map<Seq<char>, CoilValue>,
    after: Map<Seq<char>, CoilValue>,
    accepted: bool,
    j: int,
)
    requires
        response.len() >= 2,
        response[0] == code,
        response.len() >= 2 + response[1],
        names.len() <= 8 * response[1],
        bits_applied(
            before,
            after,
            names,
            match bits_parsed(response, code) {
                Ok(bits) => Some(bits),
                Err(_) => None,
            },
            accepted,
        ),
        0 <= j < names.len(),
        is_last(names, j),
    ensures
        accepted,
        after.dom().contains(names[j]),
        after[names[j]] == CoilValue(is_set(response[2 + j / 8], j % 8)),
{
    let bits = bits_parsed(response, code)->Ok_0;
    let values = coil_values(bits.take(names.len() as int));
    law_read_stores_what_was_reported(before, names, values, j);
    let bytes = response.subrange(2, 2 + response[1]);
    assert(values[j] == CoilValue(bits[j]));
    assert(bytes[j / 8] == response[2 + j / 8]);
    lemma_is_set(response[2 + j / 8], j % 8);
}

proof fn lemma_read_bits<T>(
    run: Seq<Slot<T>>,
    names: Seq<Seq<char>>,
    quantity: u16,
    code: u8,
    memory: spec_fn(u16) -> bool,
    response: Seq<u8>,
    before: Map<Seq<char>, CoilValue>,
    after: Map<Seq<char>, CoilValue>,
    accepted: bool,
    j: int,
)
    requires
        is_run(run, MAX_PACKED_BIT_READ_BATCH_SIZE),
        total(run) == quantity,
        names.len() == run.len(),
        forall|i: int| 0 <= i < run.len() ==> (#[trigger] run[i]).size == 1,
        reports_bits(response, code, memory, run[0].address, quantity),
        bits_applied(
            before,
            after,
            names,
            match bits_parsed(response, code) {
                Ok(bits) => Some(bits),
                Err(_) => None,
            },
            accepted,
        ),
        0 <= j < names.len(),
        is_last(names, j),
    ensures
        accepted,
        after.dom().contains(names[j]),
        after[names[j]] == CoilValue(memory(run[j].address)),
{
    lemma_bits_total(run);
    let front = run.take(j);
    assert forall|i: int| 0 <= i < front.len() implies (#[trigger] front[i]).size == 1 by {
        assert(front[i] == run[i]);
    }
    lemma_bits_total(front);
    assert(run[j].address == (run[0].address + total(run.take(j))) % 65536);
    assert(run[j].address == behind(run[0].address as int, j));
    lemma_bit_stored(names, code, response, before, after, accepted, j);
    assert(is_set(response[2 + j / 8], j % 8) == memory(behind(run[0].address as int, j)));
}

/// The bytes of a message of a code and two numbers.
proof fn lemma_asks_for(code: u8, start: u16, quantity: u16)
    ensures
        asks_for(
            seq![code] + crate::wire::be_bytes(start) + crate::wire::be_bytes(quantity),
            code,
            start,
            quantity,
        ),
{
}

/// Every holding register is asked for: it is in one of the requests, which asks, with code
/// 0x03, for no more than 125 registers.
pub proof fn law_every_register_is_asked_for(
    batches: Seq<RegisterBatch>,
    items: Seq<RegisterDescription>,
    i: int,
) -> (place: (int, int))
    requires
        registers_batched(batches, items),
        0 <= i < items.len(),
    ensures
        0 <= place.0 < batches.len(),
        0 <= place.1 < batches[place.0].items@.len(),
        batches[place.0].items@[place.1] == items[i],
        1 <= batches[place.0].quantity <= 125,
        asks_for(
            registers_request(
                batches[place.0].starting_address,
                batches[place.0].quantity,
            ),
            0x03,
            batches[place.0].starting_address,
            batches[place.0].quantity,
        ),
{
    let slots = register_slots(items);
    let (b, j) = lemma_slot_has_run(slots, MAX_READ_BATCH_SIZE, i);
    assert(batches[b].covers(runs(sorted_slots(slots), MAX_READ_BATCH_SIZE)[b]));
    lemma_asks_for(0x03, batches[b].starting_address, batches[b].quantity);
    assert(registers_request(batches[b].starting_address, batches[b].quantity) =~= seq![
        0x03u8,
    ] + crate::wire::be_bytes(batches[b].starting_address) + crate::wire::be_bytes(
        batches[b].quantity,
    ));
    (b, j)
}

/// Once a device answered such a request with the words it holds, the store has under
/// the name of each holding register of the request the value that the words from its own
/// address on stand for, by its own type and the layout of the device.
pub proof fn law_registers_are_read<S: Fn(u32) -> String, D: Fn(u64) -> String>(
    single: S,
    double: D,
    batches: Seq<RegisterBatch>,
    items: Seq<RegisterDescription>,
    b: int,
    j: int,
    memory: spec_fn(u16) -> u16,
    mem_layout: MemLayout,
    response: Seq<u8>,
    before: Map<Seq<char>, RegisterValue>,
    after: Map<Seq<char>, RegisterValue>,
    accepted: bool,
)
    requires
        registers_batched(batches, items),
        0 <= b < batches.len(),
        0 <= j < batches[b].items@.len(),
        reports_words(
            response,
            0x03,
            memory,
            batches[b].starting_address,
            batches[b].quantity,
        ),
        registers_read(
            single,
            double,
            before,
            after,
            batches[b].items@,
            batches[b].quantity,
            mem_layout,
            Some(response),
            accepted,
        ),
        forall|k: int|
            j < k < batches[b].items@.len() ==> (#[trigger] batches[b].items@[k]).name@
                != batches[b].items@[j].name@,
    ensures
        accepted,
        ({
            let item = batches[b].items@[j];
            &&& after.dom().contains(item.name@)
            &&& words_value(
                single,
                double,
                item.data_type,
                words_from(memory, item.address, item.data_type.width()),
                mem_layout,
                after[item.name@],
            )
        }),
{
    let slots = register_slots(items);
    let max = MAX_READ_BATCH_SIZE;
    let run = runs(sorted_slots(slots), max)[b];
    assert(batches[b].covers(run));
    law_runs_are_runs(sorted_slots(slots), max);
    let holds = |slot: Slot<RegisterDescription>|
        slot.size == slot.item.data_type.width() && slot.address == slot.item.address;
    lemma_runs_hold(slots, max, holds);
    let held = batches[b].items@;
    let names = register_names(held);
    let types = register_types(held);
    assert forall|i: int| 0 <= i < run.len() implies (#[trigger] run[i]).size == types[i].width()
        by {
        assert(holds(runs(sorted_slots(slots), max)[b][i]));
        assert(held[i] == run[i].item);
    }
    assert(holds(runs(sorted_slots(slots), max)[b][j]));
    assert(held[j] == run[j].item);
    assert forall|k: int| j < k < names.len() implies #[trigger] names[k] != names[j] by {
        assert(held[k].name@ != held[j].name@);
    }
    lemma_read_words(
        single,
        double,
        run,
        types,
        names,
        batches[b].quantity,
        0x03,
        memory,
        mem_layout,
        response,
        before,
        after,
        accepted,
        j,
    );
}

/// A response is taken where it has the code 0x03 and as many bytes as two for each
/// register that was asked for; any other, and none, leaves the store as it is.
pub proof fn law_when_registers_are_taken<S: Fn(u32) -> String, D: Fn(u64) -> String>(
    single: S,
    double: D,
    items: Seq<RegisterDescription>,
    quantity: u16,
    mem_layout: MemLayout,
    response: Option<Seq<u8>>,
    before: Map<Seq<char>, RegisterValue>,
    after: Map<Seq<char>, RegisterValue>,
    accepted: bool,
)
    requires
        registers_read(
            single,
            double,
            before,
            after,
            items,
            quantity,
            mem_layout,
            response,
            accepted,
        ),
    ensures
        accepted <==> (response matches Some(bytes) && bytes.len() >= 2 && bytes[0] == 0x03
            && bytes[1] == 2 * quantity && bytes.len() >= 2 + bytes[1]),
        !accepted ==> after == before,
        forall|name: Seq<char>|
            (forall|k: int| 0 <= k < items.len() ==> (#[trigger] items[k]).name@ != name) ==> (
            #[trigger] after.dom().contains(name) == before.dom().contains(name) && after[name]
                == before[name]),
{
    let names = register_names(items);
    let types = register_types(items);
    if accepted {
        let words = words_parsed(response->Some_0, 0x03)->Ok_0;
        let values = choose|values: Seq<RegisterValue>|
            {
                &&& #[trigger] words_values(single, double, types, words, mem_layout, values)
                &&& after == crate::polling::stored(before, names, values)
            };
        assert forall|name: Seq<char>|
            (forall|k: int| 0 <= k < items.len() ==> (#[trigger] items[k]).name@ != name) implies (
        #[trigger] after.dom().contains(name) == before.dom().contains(name) && after[name]
            == before[name]) by {
            assert(!names.contains(name)) by {
                if names.contains(name) {
                    let k = names.index_of(name);
                    assert(items[k].name@ == name);
                }
            }
            law_read_changes_only_its_names(before, names, values, name);
        }
    }
}

/// Every input register is asked for: it is in one of the requests, which asks, with code
/// 0x04, for no more than 125 registers.
pub proof fn law_every_input_register_is_asked_for(
    batches: Seq<InputRegisterBatch>,
    items: Seq<InputRegisterDescription>,
    i: int,
) -> (place: (int, int))
    requires
        input_registers_batched(batches, items),
        0 <= i < items.len(),
    ensures
        0 <= place.0 < batches.len(),
        0 <= place.1 < batches[place.0].items@.len(),
        batches[place.0].items@[place.1] == items[i],
        1 <= batches[place.0].quantity <= 125,
        asks_for(
            input_registers_request(
                batches[place.0].starting_address,
                batches[place.0].quantity,
            ),
            0x04,
            batches[place.0].starting_address,
            batches[place.0].quantity,
        ),
{
    let slots = input_register_slots(items);
    let (b, j) = lemma_slot_has_run(slots, MAX_READ_BATCH_SIZE, i);
    assert(batches[b].covers(runs(sorted_slots(slots), MAX_READ_BATCH_SIZE)[b]));
    lemma_asks_for(0x04, batches[b].starting_address, batches[b].quantity);
    assert(input_registers_request(batches[b].starting_address, batches[b].quantity) =~= seq![
        0x04u8,
    ] + crate::wire::be_bytes(batches[b].starting_address) + crate::wire::be_bytes(
        batches[b].quantity,
    ));
    (b, j)
}

/// Once a device answered such a request with the words it holds, the store has under
/// the name of each input register of the request the value that the words from its own
/// address on stand for, by its own type and the layout of the device.
pub proof fn law_input_registers_are_read<S: Fn(u32) -> String, D: Fn(u64) -> String>(
    single: S,
    double: D,
    batches: Seq<InputRegisterBatch>,
    items: Seq<InputRegisterDescription>,
    b: int,
    j: int,
    memory: spec_fn(u16) -> u16,
    mem_layout: MemLayout,
    response: Seq<u8>,
    before: Map<Seq<char>, RegisterValue>,
    after: Map<Seq<char>, RegisterValue>,
    accepted: bool,
)
    requires
        input_registers_batched(batches, items),
        0 <= b < batches.len(),
        0 <= j < batches[b].items@.len(),
        reports_words(
            response,
            0x04,
            memory,
            batches[b].starting_address,
            batches[b].quantity,
        ),
        input_registers_read(
            single,
            double,
            before,
            after,
            batches[b].items@,
            batches[b].quantity,
            mem_layout,
            Some(response),
            accepted,
        ),
        forall|k: int|
            j < k < batches[b].items@.len() ==> (#[trigger] batches[b].items@[k]).name@
                != batches[b].items@[j].name@,
    ensures
        accepted,
        ({
            let item = batches[b].items@[j];
            &&& after.dom().contains(item.name@)
            &&& words_value(
                single,
                double,
                item.data_type,
                words_from(memory, item.address, item.data_type.width()),
                mem_layout,
                after[item.name@],
            )
        }),
{
    let slots = input_register_slots(items);
    let max = MAX_READ_BATCH_SIZE;
    let run = runs(sorted_slots(slots), max)[b];
    assert(batches[b].covers(run));
    law_runs_are_runs(sorted_slots(slots), max);
    let holds = |slot: Slot<InputRegisterDescription>|
        slot.size == slot.item.data_type.width() && slot.address == slot.item.address;
    lemma_runs_hold(slots, max, holds);
    let held = batches[b].items@;
    let names = input_register_names(held);
    let types = input_register_types(held);
    assert forall|i: int| 0 <= i < run.len() implies (#[trigger] run[i]).size == types[i].width()
        by {
        assert(holds(runs(sorted_slots(slots), max)[b][i]));
        assert(held[i] == run[i].item);
    }
    assert(holds(runs(sorted_slots(slots), max)[b][j]));
    assert(held[j] == run[j].item);
    assert forall|k: int| j < k < names.len() implies #[trigger] names[k] != names[j] by {
        assert(held[k].name@ != held[j].name@);
    }
    lemma_read_words(
        single,
        double,
        run,
        types,
        names,
        batches[b].quantity,
        0x04,
        memory,
        mem_layout,
        response,
        before,
        after,
        accepted,
        j,
    );
}

/// A response is taken where it has the code 0x04 and as many bytes as two for each
/// register that was asked for; any other, and none, leaves the store as it is.
pub proof fn law_when_input_registers_are_taken<S: Fn(u32) -> String, D: Fn(u64) -> String>(
    single: S,
    double: D,
    items: Seq<InputRegisterDescription>,
    quantity: u16,
    mem_layout: MemLayout,
    response: Option<Seq<u8>>,
    before: Map<Seq<char>, RegisterValue>,
    after: Map<Seq<char>, RegisterValue>,
    accepted: bool,
)
    requires
        input_registers_read(
            single,
            double,
            before,
            after,
            items,
            quantity,
            mem_layout,
            response,
            accepted,
        ),
    ensures
        accepted <==> (response matches Some(bytes) && bytes.len() >= 2 && bytes[0] == 0x04
            && bytes[1] == 2 * quantity && bytes.len() >= 2 + bytes[1]),
        !accepted ==> after == before,
        forall|name: Seq<char>|
            (forall|k: int| 0 <= k < items.len() ==> (#[trigger] items[k]).name@ != name) ==> (
            #[trigger] after.dom().contains(name) == before.dom().contains(name) && after[name]
                == before[name]),
{
    let names = input_register_names(items);
    let types = input_register_types(items);
    if accepted {
        let words = words_parsed(response->Some_0, 0x04)->Ok_0;
        let values = choose|values: Seq<RegisterValue>|
            {
                &&& #[trigger] words_values(single, double, types, words, mem_layout, values)
                &&& after == crate::polling::stored(before, names, values)
            };
        assert forall|name: Seq<char>|
            (forall|k: int| 0 <= k < items.len() ==> (#[trigger] items[k]).name@ != name) implies (
        #[trigger] after.dom().contains(name) == before.dom().contains(name) && after[name]
            == before[name]) by {
            assert(!names.contains(name)) by {
                if names.contains(name) {
                    let k = names.index_of(name);
                    assert(items[k].name@ == name);
                }
            }
            law_read_changes_only_its_names(before, names, values, name);
        }
    }
}

/// Every coil is asked for: it is in one of the requests, which asks, with code
/// 0x01, for no more than 2000 of them.
pub proof fn law_every_coil_is_asked_for(
    batches: Seq<CoilBatch>,
    items: Seq<CoilDescription>,
    i: int,
) -> (place: (int, int))
    requires
        coils_batched(batches, items),
        0 <= i < items.len(),
    ensures
        0 <= place.0 < batches.len(),
        0 <= place.1 < batches[place.0].items@.len(),
        batches[place.0].items@[place.1] == items[i],
        1 <= batches[place.0].quantity <= 2000,
        asks_for(
            coils_request(
                batches[place.0].starting_address,
                batches[place.0].quantity,
            ),
            0x01,
            batches[place.0].starting_address,
            batches[place.0].quantity,
        ),
{
    let slots = coil_slots(items);
    let (b, j) = lemma_slot_has_run(slots, MAX_PACKED_BIT_READ_BATCH_SIZE, i);
    assert(batches[b].covers(runs(sorted_slots(slots), MAX_PACKED_BIT_READ_BATCH_SIZE)[b]));
    lemma_asks_for(0x01, batches[b].starting_address, batches[b].quantity);
    assert(coils_request(batches[b].starting_address, batches[b].quantity) =~= seq![
        0x01u8,
    ] + crate::wire::be_bytes(batches[b].starting_address) + crate::wire::be_bytes(
        batches[b].quantity,
    ));
    (b, j)
}

/// Once a device answered such a request with the bits it holds, the store has under
/// the name of each coil of the request the bit at its own address.
pub proof fn law_coils_are_read(
    batches: Seq<CoilBatch>,
    items: Seq<CoilDescription>,
    b: int,
    j: int,
    memory: spec_fn(u16) -> bool,
    response: Seq<u8>,
    before: Map<Seq<char>, CoilValue>,
    after: Map<Seq<char>, CoilValue>,
    accepted: bool,
)
    requires
        coils_batched(batches, items),
        0 <= b < batches.len(),
        0 <= j < batches[b].items@.len(),
        reports_bits(
            response,
            0x01,
            memory,
            batches[b].starting_address,
            batches[b].quantity,
        ),
        coils_read(before, after, batches[b].items@, Some(response), accepted),
        forall|k: int|
            j < k < batches[b].items@.len() ==> (#[trigger] batches[b].items@[k]).name@
                != batches[b].items@[j].name@,
    ensures
        accepted,
        after.dom().contains(batches[b].items@[j].name@),
        after[batches[b].items@[j].name@] == CoilValue(memory(batches[b].items@[j].address)),
{
    let slots = coil_slots(items);
    let max = MAX_PACKED_BIT_READ_BATCH_SIZE;
    let run = runs(sorted_slots(slots), max)[b];
    assert(batches[b].covers(run));
    law_runs_are_runs(sorted_slots(slots), max);
    let holds = |slot: Slot<CoilDescription>|
        slot.size == 1 && slot.address == slot.item.address;
    lemma_runs_hold(slots, max, holds);
    let held = batches[b].items@;
    let names = coil_names(held);
    assert forall|i: int| 0 <= i < run.len() implies (#[trigger] run[i]).size == 1 by {
        assert(holds(runs(sorted_slots(slots), max)[b][i]));
    }
    assert(holds(runs(sorted_slots(slots), max)[b][j]));
    assert(held[j] == run[j].item);
    assert forall|k: int| j < k < names.len() implies #[trigger] names[k] != names[j] by {
        assert(held[k].name@ != held[j].name@);
    }
    lemma_read_bits(
        run,
        names,
        batches[b].quantity,
        0x01,
        memory,
        response,
        before,
        after,
        accepted,
        j,
    );
}

/// After a response was taken the store holds, under the name of each coil that was
/// asked for, the bit of its place in the response, eight to a byte from its third byte
/// on; where a name stands twice, the last one counts.
pub proof fn law_coil_bits_are_stored(
    items: Seq<CoilDescription>,
    response: Seq<u8>,
    before: Map<Seq<char>, CoilValue>,
    after: Map<Seq<char>, CoilValue>,
    j: int,
)
    requires
        coils_read(before, after, items, Some(response), true),
        0 <= j < items.len(),
        forall|k: int|
            j < k < items.len() ==> (#[trigger] items[k]).name@ != items[j].name@,
    ensures
        2 + j / 8 < response.len(),
        after.dom().contains(items[j].name@),
        after[items[j].name@] == CoilValue(is_set(response[2 + j / 8], j % 8)),
{
    let names = coil_names(items);
    assert forall|k: int| j < k < names.len() implies #[trigger] names[k] != names[j] by {
        assert(items[k].name@ != items[j].name@);
    }
    lemma_bit_stored(names, 0x01, response, before, after, true, j);
}

/// A response is taken where it has the code 0x01 and a bit for each place that was
/// asked for; any other, and none, leaves the store as it is. Names that were not asked
/// for keep what they have.
pub proof fn law_when_coils_are_taken(
    items: Seq<CoilDescription>,
    response: Option<Seq<u8>>,
    before: Map<Seq<char>, CoilValue>,
    after: Map<Seq<char>, CoilValue>,
    accepted: bool,
)
    requires
        coils_read(before, after, items, response, accepted),
    ensures
        accepted <==> (response matches Some(bytes) && bytes.len() >= 2 && bytes[0] == 0x01
            && 8 * bytes[1] >= items.len() && bytes.len() >= 2 + bytes[1]),
        !accepted ==> after == before,
        forall|name: Seq<char>|
            (forall|k: int| 0 <= k < items.len() ==> (#[trigger] items[k]).name@ != name) ==> (
            #[trigger] after.dom().contains(name) == before.dom().contains(name) && after[name]
                == before[name]),
{
    let names = coil_names(items);
    if accepted {
        let bits = bits_parsed(response->Some_0, 0x01)->Ok_0;
        let values = coil_values(bits.take(names.len() as int));
        assert forall|name: Seq<char>|
            (forall|k: int| 0 <= k < items.len() ==> (#[trigger] items[k]).name@ != name) implies (
        #[trigger] after.dom().contains(name) == before.dom().contains(name) && after[name]
            == before[name]) by {
            assert(!names.contains(name)) by {
                if names.contains(name) {
                    let k = names.index_of(name);
                    assert(items[k].name@ == name);
                }
            }
            law_read_changes_only_its_names(before, names, values, name);
        }
    }
}

/// Every discrete input is asked for: it is in one of the requests, which asks, with code
/// 0x02, for no more than 2000 of them.
pub proof fn law_every_discrete_input_is_asked_for(
    batches: Seq<DiscreteInputBatch>,
    items: Seq<DiscreteInputDescription>,
    i: int,
) -> (place: (int, int))
    requires
        discrete_inputs_batched(batches, items),
        0 <= i < items.len(),
    ensures
        0 <= place.0 < batches.len(),
        0 <= place.1 < batches[place.0].items@.len(),
        batches[place.0].items@[place.1] == items[i],
        1 <= batches[place.0].quantity <= 2000,
        asks_for(
            discrete_inputs_request(
                batches[place.0].starting_address,
                batches[place.0].quantity,
            ),
            0x02,
            batches[place.0].starting_address,
            batches[place.0].quantity,
        ),
{
    let slots = discrete_input_slots(items);
    let (b, j) = lemma_slot_has_run(slots, MAX_PACKED_BIT_READ_BATCH_SIZE, i);
    assert(batches[b].covers(runs(sorted_slots(slots), MAX_PACKED_BIT_READ_BATCH_SIZE)[b]));
    lemma_asks_for(0x02, batches[b].starting_address, batches[b].quantity);
    assert(discrete_inputs_request(batches[b].starting_address, batches[b].quantity) =~= seq![
        0x02u8,
    ] + crate::wire::be_bytes(batches[b].starting_address) + crate::wire::be_bytes(
        batches[b].quantity,
    ));
    (b, j)
}

/// Once a device answered such a request with the bits it holds, the store has under
/// the name of each discrete input of the request the bit at its own address.
pub proof fn law_discrete_inputs_are_read(
    batches: Seq<DiscreteInputBatch>,
    items: Seq<DiscreteInputDescription>,
    b: int,
    j: int,
    memory: spec_fn(u16) -> bool,
    response: Seq<u8>,
    before: Map<Seq<char>, CoilValue>,
    after: Map<Seq<char>, CoilValue>,
    accepted: bool,
)
    requires
        discrete_inputs_batched(batches, items),
        0 <= b < batches.len(),
        0 <= j < batches[b].items@.len(),
        reports_bits(
            response,
            0x02,
            memory,
            batches[b].starting_address,
            batches[b].quantity,
        ),
        discrete_inputs_read(before, after, batches[b].items@, Some(response), accepted),
        forall|k: int|
            j < k < batches[b].items@.len() ==> (#[trigger] batches[b].items@[k]).name@
                != batches[b].items@[j].name@,
    ensures
        accepted,
        after.dom().contains(batches[b].items@[j].name@),
        after[batches[b].items@[j].name@] == CoilValue(memory(batches[b].items@[j].address)),
{
    let slots = discrete_input_slots(items);
    let max = MAX_PACKED_BIT_READ_BATCH_SIZE;
    let run = runs(sorted_slots(slots), max)[b];
    assert(batches[b].covers(run));
    law_runs_are_runs(sorted_slots(slots), max);
    let holds = |slot: Slot<DiscreteInputDescription>|
        slot.size == 1 && slot.address == slot.item.address;
    lemma_runs_hold(slots, max, holds);
    let held = batches[b].items@;
    let names = discrete_input_names(held);
    assert forall|i: int| 0 <= i < run.len() implies (#[trigger] run[i]).size == 1 by {
        assert(holds(runs(sorted_slots(slots), max)[b][i]));
    }
    assert(holds(runs(sorted_slots(slots), max)[b][j]));
    assert(held[j] == run[j].item);
    assert forall|k: int| j < k < names.len() implies #[trigger] names[k] != names[j] by {
        assert(held[k].name@ != held[j].name@);
    }
    lemma_read_bits(
        run,
        names,
        batches[b].quantity,
        0x02,
        memory,
        response,
        before,
        after,
        accepted,
        j,
    );
}

/// After a response was taken the store holds, under the name of each discrete input that was
/// asked for, the bit of its place in the response, eight to a byte from its third byte
/// on; where a name stands twice, the last one counts.
pub proof fn law_discrete_input_bits_are_stored(
    items: Seq<DiscreteInputDescription>,
    response: Seq<u8>,
    before: Map<Seq<char>, CoilValue>,
    after: Map<Seq<char>, CoilValue>,
    j: int,
)
    requires
        discrete_inputs_read(before, after, items, Some(response), true),
        0 <= j < items.len(),
        forall|k: int|
            j < k < items.len() ==> (#[trigger] items[k]).name@ != items[j].name@,
    ensures
        2 + j / 8 < response.len(),
        after.dom().contains(items[j].name@),
        after[items[j].name@] == CoilValue(is_set(response[2 + j / 8], j % 8)),
{
    let names = discrete_input_names(items);
    assert forall|k: int| j < k < names.len() implies #[trigger] names[k] != names[j] by {
        assert(items[k].name@ != items[j].name@);
    }
    lemma_bit_stored(names, 0x02, response, before, after, true, j);
}

/// A response is taken where it has the code 0x02 and a bit for each place that was
/// asked for; any other, and none, leaves the store as it is. Names that were not asked
/// for keep what they have.
pub proof fn law_when_discrete_inputs_are_taken(
    items: Seq<DiscreteInputDescription>,
    response: Option<Seq<u8>>,
    before: Map<Seq<char>, CoilValue>,
    after: Map<Seq<char>, CoilValue>,
    accepted: bool,
)
    requires
        discrete_inputs_read(before, after, items, response, accepted),
    ensures
        accepted <==> (response matches Some(bytes) && bytes.len() >= 2 && bytes[0] == 0x02
            && 8 * bytes[1] >= items.len() && bytes.len() >= 2 + bytes[1]),
        !accepted ==> after == before,
        forall|name: Seq<char>|
            (forall|k: int| 0 <= k < items.len() ==> (#[trigger] items[k]).name@ != name) ==> (
            #[trigger] after.dom().contains(name) == before.dom().contains(name) && after[name]
                == before[name]),
{
    let names = discrete_input_names(items);
    if accepted {
        let bits = bits_parsed(response->Some_0, 0x02)->Ok_0;
        let values = coil_values(bits.take(names.len() as int));
        assert forall|name: Seq<char>|
            (forall|k: int| 0 <= k < items.len() ==> (#[trigger] items[k]).name@ != name) implies (
        #[trigger] after.dom().contains(name) == before.dom().contains(name) && after[name]
            == before[name]) by {
            assert(!names.contains(name)) by {
                if names.contains(name) {
                    let k = names.index_of(name);
                    assert(items[k].name@ == name);
                }
            }
            law_read_changes_only_its_names(before, names, values, name);
        }
    }
}

/// The request for a file record names its file, its place in it and its length in
/// registers.
pub proof fn law_file_record_is_asked_for(description: FileRecordDescription)
    ensures
        ({
            let request = file_record_request(description);
            &&& request.len() == 9
            &&& request[0] == 0x14
            &&& request[1] == 7
            &&& request[2] == 6
            &&& number(request, 3) == description.file_number
            &&& number(request, 5) == description.record_number
            &&& number(request, 7) == description.record_length
        }),
{
    let sub_request = crate::pdu::FileRecordSubRequest {
        file_number: description.file_number,
        record_number: description.record_number,
        record_length: description.record_length,
    };
    let one = seq![sub_request];
    assert(one.drop_last() =~= Seq::<crate::pdu::FileRecordSubRequest>::empty());
    assert(crate::pdu::sub_requests_bytes(one.drop_last()) =~= Seq::<u8>::empty());
    assert(crate::pdu::sub_requests_bytes(one) =~= sub_request.message());
    let request = file_record_request(description);
    assert(request =~= seq![0x14u8, 7u8] + sub_request.message());
}

/// Once a device answered with the bytes of a record, the store has these bytes under
/// the numbers of the record, and what it had under all others.
pub proof fn law_file_record_is_read(
    description: FileRecordDescription,
    record: Seq<u8>,
    response: Seq<u8>,
    before: Map<(u16, u16), Seq<u8>>,
    after: Map<(u16, u16), Seq<u8>>,
    accepted: bool,
)
    requires
        record_read(before, after, description, Some(response), accepted),
        record.len() <= 253,
        response == seq![
            0x14u8,
            (record.len() + 2) as u8,
            (record.len() + 1) as u8,
            6u8,
        ] + record,
    ensures
        accepted,
        after.dom().contains((description.file_number, description.record_number)),
        after[(description.file_number, description.record_number)] == record,
        forall|other: (u16, u16)|
            other != (description.file_number, description.record_number) ==> (
            #[trigger] after.dom().contains(other) == before.dom().contains(other) && after[other]
                == before[other]),
{
    let body = response.subrange(2, 2 + response[1]);
    let rest = body.subrange(1 + body[0], body.len() as int);
    assert(rest =~= Seq::<u8>::empty());
    assert(records_parsed(rest) == Some(Seq::<Seq<u8>>::empty()));
    assert(body.subrange(2, 1 + body[0]) =~= record);
    assert(records_parsed(body) == Some(seq![record] + Seq::<Seq<u8>>::empty()));
    assert(seq![record] + Seq::<Seq<u8>>::empty() =~= seq![record]);
}

/// Where no response came, or one that does not start with the code of a read of file
/// records, nothing changes.
pub proof fn law_when_file_record_is_not_taken(
    description: FileRecordDescription,
    response: Option<Seq<u8>>,
    before: Map<(u16, u16), Seq<u8>>,
    after: Map<(u16, u16), Seq<u8>>,
    accepted: bool,
)
    requires
        record_read(before, after, description, response, accepted),
        response matches Some(bytes) ==> bytes.len() < 2 || bytes[0] != 0x14 || bytes.len() < 2
            + bytes[1],
    ensures
        !accepted,
        after == before,
{
}

/// No other way to ask for all the holding registers, in the order of their addresses, at most
/// 125 registers at a time, takes fewer requests.
pub proof fn law_registers_take_the_fewest_requests(
    batches: Seq<RegisterBatch>,
    items: Seq<RegisterDescription>,
    groups: Seq<Seq<Slot<RegisterDescription>>>,
)
    requires
        registers_batched(batches, items),
        joined(groups) == sorted_slots(register_slots(items)),
        forall|i: int| 0 <= i < groups.len() ==> is_run(#[trigger] groups[i], 125),
    ensures
        batches.len() <= groups.len(),
{
    law_runs_are_fewest(sorted_slots(register_slots(items)), 125, groups);
}

/// No other way to ask for all the input registers, in the order of their addresses, at most
/// 125 registers at a time, takes fewer requests.
pub proof fn law_input_registers_take_the_fewest_requests(
    batches: Seq<InputRegisterBatch>,
    items: Seq<InputRegisterDescription>,
    groups: Seq<Seq<Slot<InputRegisterDescription>>>,
)
    requires
        input_registers_batched(batches, items),
        joined(groups) == sorted_slots(input_register_slots(items)),
        forall|i: int| 0 <= i < groups.len() ==> is_run(#[trigger] groups[i], 125),
    ensures
        batches.len() <= groups.len(),
{
    law_runs_are_fewest(sorted_slots(input_register_slots(items)), 125, groups);
}

/// No other way to ask for all the coils, in the order of their addresses, at most
/// 2000 of them at a time, takes fewer requests.
pub proof fn law_coils_take_the_fewest_requests(
    batches: Seq<CoilBatch>,
    items: Seq<CoilDescription>,
    groups: Seq<Seq<Slot<CoilDescription>>>,
)
    requires
        coils_batched(batches, items),
        joined(groups) == sorted_slots(coil_slots(items)),
        forall|i: int| 0 <= i < groups.len() ==> is_run(#[trigger] groups[i], 2000),
    ensures
        batches.len() <= groups.len(),
{
    law_runs_are_fewest(sorted_slots(coil_slots(items)), 2000, groups);
}

/// No other way to ask for all the discrete inputs, in the order of their addresses, at most
/// 2000 of them at a time, takes fewer requests.
pub proof fn law_discrete_inputs_take_the_fewest_requests(
    batches: Seq<DiscreteInputBatch>,
    items: Seq<DiscreteInputDescription>,
    groups: Seq<Seq<Slot<DiscreteInputDescription>>>,
)
    requires
        discrete_inputs_batched(batches, items),
        joined(groups) == sorted_slots(discrete_input_slots(items)),
        forall|i: int| 0 <= i < groups.len() ==> is_run(#[trigger] groups[i], 2000),
    ensures
        batches.len() <= groups.len(),
{
    law_runs_are_fewest(sorted_slots(discrete_input_slots(items)), 2000, groups);
}

} // verus!
