//! Reading a device: which requests cover everything it has, and what their
//! responses say. A read confirms itself: what the device reports is the value.

use crate::batching::{
    batches_cover, build_batches, copied, law_every_batch_fits, lemma_runs_hold, run_items, runs,
    slots_of, sorted_slots, total, Batch, Slot,
};
use crate::device_description::{
    CoilDescription, DataType, DiscreteInputDescription, FileRecordDescription,
    InputRegisterDescription, MemLayout, RegisterDescription,
};
use crate::pdu::{
    record_views, FileRecordSubRequest, ReadCoilsRequest, ReadCoilsResponse,
    ReadDiscreteInputsRequest, ReadDiscreteInputsResponse, ReadFileRecordRequest,
    ReadFileRecordResponse, ReadHoldingRegistersRequest, ReadHoldingRegistersResponse,
    ReadInputRegistersRequest, ReadInputRegistersResponse,
};
use crate::register_encoding::{register_value_from_words, words_value};
use crate::stores::{
    CoilStore, DiscreteInputStore, FileRecordStore, InputRegisterStore, RegisterStore,
};
use crate::values::{CoilValue, RegisterValue};
use crate::DecodeError;
use vstd::prelude::*;

verus! {

/// How many registers one request may read.
pub const MAX_READ_BATCH_SIZE: u16 = 125;

/// How many coils or discrete inputs one request may read: they travel eight
/// to a byte.
pub const MAX_PACKED_BIT_READ_BATCH_SIZE: u16 = 2000;

pub type RegisterBatch = Batch<RegisterDescription>;

pub type CoilBatch = Batch<CoilDescription>;

pub type DiscreteInputBatch = Batch<DiscreteInputDescription>;

pub type InputRegisterBatch = Batch<InputRegisterDescription>;

/// How many words values of the types `types` take.
pub open spec fn total_width(types: Seq<DataType>) -> nat
    decreases types.len(),
{
    if types.len() == 0 {
        0
    } else {
        total_width(types.drop_last()) + types.last().width()
    }
}

/// The values of a store once each of `names` got its value, in order.
pub open spec fn stored<V>(
    before: Map<Seq<char>, V>,
    names: Seq<Seq<char>>,
    values: Seq<V>,
) -> Map<Seq<char>, V>
    decreases names.len(),
{
    if names.len() == 0 {
        before
    } else {
        stored(before, names.drop_last(), values.drop_last()).insert(names.last(), values.last())
    }
}

/// Whether `words` are `values`, of the types `types`, one behind the other.
pub open spec fn words_values<S: Fn(u32) -> String, D: Fn(u64) -> String>(
    single: S,
    double: D,
    types: Seq<DataType>,
    words: Seq<u16>,
    mem_layout: MemLayout,
    values: Seq<RegisterValue>,
) -> bool {
    &&& values.len() == types.len()
    &&& forall|i: int|
        0 <= i < types.len() ==> words_value(
            single,
            double,
            types[i],
            words.subrange(
                total_width(types.take(i)) as int,
                total_width(types.take(i + 1)) as int,
            ),
            mem_layout,
            #[trigger] values[i],
        )
}

/// The values that packed bits stand for.
pub open spec fn coil_values(bits: Seq<bool>) -> Seq<CoilValue> {
    bits.map_values(|bit: bool| CoilValue(bit))
}

/// The bytes of a response, where one came.
pub open spec fn bytes_of(response: Option<&[u8]>) -> Option<Seq<u8>> {
    match response {
        Some(bytes) => Some(bytes@),
        None => None,
    }
}

/// What a response says, read by `parsed`; nothing where none came or it is none to
/// that request.
pub open spec fn content<T>(
    response: Option<Seq<u8>>,
    parsed: spec_fn(Seq<u8>) -> Result<T, DecodeError>,
) -> Option<T> {
    match response {
        Some(bytes) => match parsed(bytes) {
            Ok(content) => Some(content),
            Err(_) => None,
        },
        None => None,
    }
}

/// What a read of registers does to a store. `reported` is what the response says:
/// as many words as were asked for are taken, anything else changes nothing.
pub open spec fn words_applied<S: Fn(u32) -> String, D: Fn(u64) -> String>(
    single: S,
    double: D,
    before: Map<Seq<char>, RegisterValue>,
    after: Map<Seq<char>, RegisterValue>,
    names: Seq<Seq<char>>,
    types: Seq<DataType>,
    quantity: u16,
    mem_layout: MemLayout,
    reported: Option<Seq<u16>>,
    accepted: bool,
) -> bool {
    &&& accepted <==> (reported matches Some(words) && words.len() == quantity)
    &&& accepted ==> exists|values: Seq<RegisterValue>|
        {
            &&& #[trigger] words_values(single, double, types, reported->0, mem_layout, values)
            &&& after == stored(before, names, values)
        }
    &&& !accepted ==> after == before
}

/// What a read of bits does to a store. `reported` is what the response says: as many
/// bits as there are names, or more that fill its last byte, are taken; anything
/// else changes nothing.
pub open spec fn bits_applied(
    before: Map<Seq<char>, CoilValue>,
    after: Map<Seq<char>, CoilValue>,
    names: Seq<Seq<char>>,
    reported: Option<Seq<bool>>,
    accepted: bool,
) -> bool {
    &&& accepted <==> (reported matches Some(bits) && bits.len() >= names.len())
    &&& accepted ==> after == stored(
        before,
        names,
        coil_values(reported->0.take(names.len() as int)),
    )
    &&& !accepted ==> after == before
}

/// What a read of a file record does to a store. `reported` is what the response
/// says: a single record is taken, anything else changes nothing.
pub open spec fn record_applied(
    before: Map<(u16, u16), Seq<u8>>,
    after: Map<(u16, u16), Seq<u8>>,
    description: FileRecordDescription,
    reported: Option<Seq<Seq<u8>>>,
    accepted: bool,
) -> bool {
    &&& accepted <==> (reported matches Some(records) && records.len() == 1)
    &&& accepted ==> after == before.insert(
        (description.file_number, description.record_number),
        reported->0[0],
    )
    &&& !accepted ==> after == before
}

/// The width of one more type.
pub proof fn lemma_width_steps(types: Seq<DataType>, i: int)
    requires
        0 <= i < types.len(),
    ensures
        total_width(types.take(i + 1)) == total_width(types.take(i)) + types[i].width(),
        total_width(types.take(i + 1)) <= total_width(types),
    decreases types.len() - i,
{
    assert(types.take(i + 1).drop_last() =~= types.take(i));
    if i + 1 < types.len() {
        lemma_width_steps(types, i + 1);
    } else {
        assert(types.take(i + 1) =~= types);
    }
}

/// Splits `words` into the values of the types `types`. `single` and `double`
/// give the text of floating-point numbers.
pub fn read_values<S: Fn(u32) -> String, D: Fn(u64) -> String>(
    types: &[DataType],
    words: &[u16],
    mem_layout: MemLayout,
    single: &S,
    double: &D,
) -> (values: Vec<RegisterValue>)
    requires
        total_width(types@) <= words@.len(),
        forall|bits: u32| #[trigger] call_requires(*single, (bits,)),
        forall|bits: u64| #[trigger] call_requires(*double, (bits,)),
    ensures
        words_values(*single, *double, types@, words@, mem_layout, values@),
{
    let mut values: Vec<RegisterValue> = Vec::new();
    let count: usize = words.len();
    let mut i: usize = 0;
    let mut offset: usize = 0;
    while i < types.len()
        invariant
            i <= types@.len(),
            offset == total_width(types@.take(i as int)),
            total_width(types@) <= words@.len(),
            words@.len() == count,
            forall|bits: u32| #[trigger] call_requires(*single, (bits,)),
            forall|bits: u64| #[trigger] call_requires(*double, (bits,)),
            values@.len() == i,
            forall|j: int|
                0 <= j < i ==> words_value(
                    *single,
                    *double,
                    types@[j],
                    words@.subrange(
                        total_width(types@.take(j)) as int,
                        total_width(types@.take(j + 1)) as int,
                    ),
                    mem_layout,
                    #[trigger] values@[j],
                ),
        decreases types@.len() - i,
    {
        proof {
            lemma_width_steps(types@, i as int);
        }
        let data_type = types[i];
        let register_count: usize = data_type.register_count() as usize;
        let slice = vstd::slice::slice_subrange(words, offset, offset + register_count);
        match register_value_from_words(data_type, slice, mem_layout, single, double) {
            Some(value) => {
                values.push(value);
            },
            None => {
                assert(false);
            },
        }
        offset = offset + register_count;
        i = i + 1;
    }
    values
}

/// Where holding registers lie and how many addresses each takes.
pub open spec fn register_slots(items: Seq<RegisterDescription>) -> Seq<Slot<RegisterDescription>> {
    items.map_values(
        |item: RegisterDescription| Slot {
            address: item.address,
            size: item.data_type.width() as u16,
            item,
        },
    )
}

/// The types of the values of `items`.
pub open spec fn register_types(items: Seq<RegisterDescription>) -> Seq<DataType> {
    items.map_values(|item: RegisterDescription| item.data_type)
}

proof fn lemma_register_types_width(run: Seq<Slot<RegisterDescription>>)
    requires
        forall|i: int|
            0 <= i < run.len() ==> (#[trigger] run[i]).size == run[i].item.data_type.width(),
    ensures
        total(run) == total_width(register_types(run_items(run))),
    decreases run.len(),
{
    if run.len() > 0 {
        let front = run.drop_last();
        assert forall|i: int| 0 <= i < front.len() implies (#[trigger] front[i]).size
            == front[i].item.data_type.width() by {
            assert(front[i] == run[i]);
        }
        lemma_register_types_width(front);
        assert(register_types(run_items(run)).drop_last() =~= register_types(run_items(front)));
        assert(run[run.len() - 1].size == run.last().item.data_type.width());
    }
}

/// Whether `batches` are the requests that read the holding registers `items`.
pub open spec fn registers_batched(
    batches: Seq<RegisterBatch>,
    items: Seq<RegisterDescription>,
) -> bool {
    &&& batches_cover(batches, runs(sorted_slots(register_slots(items)), MAX_READ_BATCH_SIZE))
    &&& forall|i: int|
        0 <= i < batches.len() ==> 1 <= (#[trigger] batches[i]).quantity <= MAX_READ_BATCH_SIZE
            && total_width(register_types(batches[i].items@)) == batches[i].quantity
}

/// Groups `registers` into the fewest requests that read them all.
pub fn build_read_batches(registers: &[RegisterDescription]) -> (batches: Vec<RegisterBatch>)
    ensures
        registers_batched(batches@, registers@),
{
    let address_of = |item: &RegisterDescription| -> (address: u16)
        ensures
            address == item.address,
        { item.address };
    let size_of = |item: &RegisterDescription| -> (size: u16)
        ensures
            size == item.data_type.width() as u16,
        { item.data_type.register_count() };
    let batches = build_batches(copied(registers), address_of, size_of, MAX_READ_BATCH_SIZE);
    proof {
        let slots = choose|slots: Seq<Slot<RegisterDescription>>|
            {
                &&& #[trigger] slots_of(slots, registers@, address_of, size_of)
                &&& batches_cover(batches@, runs(sorted_slots(slots), MAX_READ_BATCH_SIZE))
            };
        assert(slots =~= register_slots(registers@));
        law_every_batch_fits(slots, MAX_READ_BATCH_SIZE);
        lemma_runs_hold(
            slots,
            MAX_READ_BATCH_SIZE,
            |slot: Slot<RegisterDescription>| slot.size == slot.item.data_type.width() as u16,
        );
        let groups = runs(sorted_slots(slots), MAX_READ_BATCH_SIZE);
        assert forall|i: int| 0 <= i < batches@.len() implies 1 <= (#[trigger] batches@[i]).quantity
            <= MAX_READ_BATCH_SIZE && total_width(
                register_types(batches@[i].items@),
            ) == batches@[i].quantity by {
            assert(batches@[i].covers(groups[i]));
            lemma_register_types_width(groups[i]);
        }
    }
    batches
}

/// Where input registers lie and how many addresses each takes.
pub open spec fn input_register_slots(
    items: Seq<InputRegisterDescription>,
) -> Seq<Slot<InputRegisterDescription>> {
    items.map_values(
        |item: InputRegisterDescription| Slot {
            address: item.address,
            size: item.data_type.width() as u16,
            item,
        },
    )
}

/// The types of the values of `items`.
pub open spec fn input_register_types(items: Seq<InputRegisterDescription>) -> Seq<DataType> {
    items.map_values(|item: InputRegisterDescription| item.data_type)
}

proof fn lemma_input_register_types_width(run: Seq<Slot<InputRegisterDescription>>)
    requires
        forall|i: int|
            0 <= i < run.len() ==> (#[trigger] run[i]).size == run[i].item.data_type.width(),
    ensures
        total(run) == total_width(input_register_types(run_items(run))),
    decreases run.len(),
{
    if run.len() > 0 {
        let front = run.drop_last();
        assert forall|i: int| 0 <= i < front.len() implies (#[trigger] front[i]).size
            == front[i].item.data_type.width() by {
            assert(front[i] == run[i]);
        }
        lemma_input_register_types_width(front);
        assert(
            input_register_types(run_items(run)).drop_last()
                =~= input_register_types(run_items(front))
        );
        assert(run[run.len() - 1].size == run.last().item.data_type.width());
    }
}

/// Whether `batches` are the requests that read the input registers `items`.
pub open spec fn input_registers_batched(
    batches: Seq<InputRegisterBatch>,
    items: Seq<InputRegisterDescription>,
) -> bool {
    &&& batches_cover(batches, runs(sorted_slots(input_register_slots(items)), MAX_READ_BATCH_SIZE))
    &&& forall|i: int|
        0 <= i < batches.len() ==> 1 <= (#[trigger] batches[i]).quantity <= MAX_READ_BATCH_SIZE
            && total_width(input_register_types(batches[i].items@)) == batches[i].quantity
}

/// Groups `input_registers` into the fewest requests that read them all.
pub fn build_input_register_read_batches(
    input_registers: &[InputRegisterDescription],
) -> (batches: Vec<InputRegisterBatch>)
    ensures
        input_registers_batched(batches@, input_registers@),
{
    let address_of = |item: &InputRegisterDescription| -> (address: u16)
        ensures
            address == item.address,
        { item.address };
    let size_of = |item: &InputRegisterDescription| -> (size: u16)
        ensures
            size == item.data_type.width() as u16,
        { item.data_type.register_count() };
    let batches = build_batches(copied(input_registers), address_of, size_of, MAX_READ_BATCH_SIZE);
    proof {
        let slots = choose|slots: Seq<Slot<InputRegisterDescription>>|
            {
                &&& #[trigger] slots_of(slots, input_registers@, address_of, size_of)
                &&& batches_cover(batches@, runs(sorted_slots(slots), MAX_READ_BATCH_SIZE))
            };
        assert(slots =~= input_register_slots(input_registers@));
        law_every_batch_fits(slots, MAX_READ_BATCH_SIZE);
        lemma_runs_hold(
            slots,
            MAX_READ_BATCH_SIZE,
            |slot: Slot<InputRegisterDescription>| slot.size == slot.item.data_type.width() as u16,
        );
        let groups = runs(sorted_slots(slots), MAX_READ_BATCH_SIZE);
        assert forall|i: int| 0 <= i < batches@.len() implies 1 <= (#[trigger] batches@[i]).quantity
            <= MAX_READ_BATCH_SIZE && total_width(
                input_register_types(batches@[i].items@),
            ) == batches@[i].quantity by {
            assert(batches@[i].covers(groups[i]));
            lemma_input_register_types_width(groups[i]);
        }
    }
    batches
}

/// Where coils lie; each takes one address.
pub open spec fn coil_slots(items: Seq<CoilDescription>) -> Seq<Slot<CoilDescription>> {
    items.map_values(
        |item: CoilDescription| Slot { address: item.address, size: 1u16, item },
    )
}

proof fn lemma_coils_count(run: Seq<Slot<CoilDescription>>)
    requires
        forall|i: int| 0 <= i < run.len() ==> (#[trigger] run[i]).size == 1,
    ensures
        total(run) == run_items(run).len(),
    decreases run.len(),
{
    if run.len() > 0 {
        let front = run.drop_last();
        assert forall|i: int| 0 <= i < front.len() implies (#[trigger] front[i]).size == 1 by {
            assert(front[i] == run[i]);
        }
        lemma_coils_count(front);
        assert(run[run.len() - 1].size == 1);
    }
}

/// Whether `batches` are the requests that read the coils `items`.
pub open spec fn coils_batched(
    batches: Seq<CoilBatch>,
    items: Seq<CoilDescription>,
) -> bool {
    &&& batches_cover(
        batches,
        runs(sorted_slots(coil_slots(items)), MAX_PACKED_BIT_READ_BATCH_SIZE),
    )
    &&& forall|i: int|
        0 <= i < batches.len() ==> 1 <= (#[trigger] batches[i]).quantity
            <= MAX_PACKED_BIT_READ_BATCH_SIZE
            && batches[i].items@.len() == batches[i].quantity
}

/// Groups `coils` into the fewest requests that read them all.
pub fn build_coil_read_batches(coils: &[CoilDescription]) -> (batches: Vec<CoilBatch>)
    ensures
        coils_batched(batches@, coils@),
{
    let address_of = |item: &CoilDescription| -> (address: u16)
        ensures
            address == item.address,
        { item.address };
    let size_of = |item: &CoilDescription| -> (size: u16)
        ensures
            size == 1u16,
        { 1 };
    let batches = build_batches(copied(coils), address_of, size_of, MAX_PACKED_BIT_READ_BATCH_SIZE);
    proof {
        let slots = choose|slots: Seq<Slot<CoilDescription>>|
            {
                &&& #[trigger] slots_of(slots, coils@, address_of, size_of)
                &&& batches_cover(
                    batches@,
                    runs(sorted_slots(slots), MAX_PACKED_BIT_READ_BATCH_SIZE),
                )
            };
        assert(slots =~= coil_slots(coils@));
        law_every_batch_fits(slots, MAX_PACKED_BIT_READ_BATCH_SIZE);
        lemma_runs_hold(
            slots,
            MAX_PACKED_BIT_READ_BATCH_SIZE,
            |slot: Slot<CoilDescription>| slot.size == 1u16,
        );
        let groups = runs(sorted_slots(slots), MAX_PACKED_BIT_READ_BATCH_SIZE);
        assert forall|i: int| 0 <= i < batches@.len() implies 1 <= (#[trigger] batches@[i]).quantity
            <= MAX_PACKED_BIT_READ_BATCH_SIZE && batches@[i].items@.len()
                == batches@[i].quantity by {
            assert(batches@[i].covers(groups[i]));
            lemma_coils_count(groups[i]);
        }
    }
    batches
}

/// Where discrete inputs lie; each takes one address.
pub open spec fn discrete_input_slots(
    items: Seq<DiscreteInputDescription>,
) -> Seq<Slot<DiscreteInputDescription>> {
    items.map_values(
        |item: DiscreteInputDescription| Slot { address: item.address, size: 1u16, item },
    )
}

proof fn lemma_discrete_inputs_count(run: Seq<Slot<DiscreteInputDescription>>)
    requires
        forall|i: int| 0 <= i < run.len() ==> (#[trigger] run[i]).size == 1,
    ensures
        total(run) == run_items(run).len(),
    decreases run.len(),
{
    if run.len() > 0 {
        let front = run.drop_last();
        assert forall|i: int| 0 <= i < front.len() implies (#[trigger] front[i]).size == 1 by {
            assert(front[i] == run[i]);
        }
        lemma_discrete_inputs_count(front);
        assert(run[run.len() - 1].size == 1);
    }
}

/// Whether `batches` are the requests that read the discrete inputs `items`.
pub open spec fn discrete_inputs_batched(
    batches: Seq<DiscreteInputBatch>,
    items: Seq<DiscreteInputDescription>,
) -> bool {
    &&& batches_cover(
        batches,
        runs(sorted_slots(discrete_input_slots(items)), MAX_PACKED_BIT_READ_BATCH_SIZE),
    )
    &&& forall|i: int|
        0 <= i < batches.len() ==> 1 <= (#[trigger] batches[i]).quantity
            <= MAX_PACKED_BIT_READ_BATCH_SIZE
            && batches[i].items@.len() == batches[i].quantity
}

/// Groups `discrete_inputs` into the fewest requests that read them all.
pub fn build_discrete_input_read_batches(
    discrete_inputs: &[DiscreteInputDescription],
) -> (batches: Vec<DiscreteInputBatch>)
    ensures
        discrete_inputs_batched(batches@, discrete_inputs@),
{
    let address_of = |item: &DiscreteInputDescription| -> (address: u16)
        ensures
            address == item.address,
        { item.address };
    let size_of = |item: &DiscreteInputDescription| -> (size: u16)
        ensures
            size == 1u16,
        { 1 };
    let batches = build_batches(
        copied(discrete_inputs),
        address_of,
        size_of,
        MAX_PACKED_BIT_READ_BATCH_SIZE,
    );
    proof {
        let slots = choose|slots: Seq<Slot<DiscreteInputDescription>>|
            {
                &&& #[trigger] slots_of(slots, discrete_inputs@, address_of, size_of)
                &&& batches_cover(
                    batches@,
                    runs(sorted_slots(slots), MAX_PACKED_BIT_READ_BATCH_SIZE),
                )
            };
        assert(slots =~= discrete_input_slots(discrete_inputs@));
        law_every_batch_fits(slots, MAX_PACKED_BIT_READ_BATCH_SIZE);
        lemma_runs_hold(
            slots,
            MAX_PACKED_BIT_READ_BATCH_SIZE,
            |slot: Slot<DiscreteInputDescription>| slot.size == 1u16,
        );
        let groups = runs(sorted_slots(slots), MAX_PACKED_BIT_READ_BATCH_SIZE);
        assert forall|i: int| 0 <= i < batches@.len() implies 1 <= (#[trigger] batches@[i]).quantity
            <= MAX_PACKED_BIT_READ_BATCH_SIZE && batches@[i].items@.len()
                == batches@[i].quantity by {
            assert(batches@[i].covers(groups[i]));
            lemma_discrete_inputs_count(groups[i]);
        }
    }
    batches
}

/// The names of holding registers.
pub open spec fn register_names(items: Seq<RegisterDescription>) -> Seq<Seq<char>> {
    items.map_values(|item: RegisterDescription| item.name@)
}

/// The message that asks for `quantity` holding registers from `starting_address` on.
pub open spec fn registers_request(starting_address: u16, quantity: u16) -> Seq<u8> {
    (ReadHoldingRegistersRequest { starting_address, quantity }).message()
}

/// The request that reads the holding registers of a batch.
pub fn register_read_request(batch: &RegisterBatch) -> (request: Vec<u8>)
    ensures
        request@ == registers_request(batch.starting_address, batch.quantity),
{
    ReadHoldingRegistersRequest {
        starting_address: batch.starting_address,
        quantity: batch.quantity(),
    }.encode()
}

/// What `response` to a request for the holding registers `items` does to a store.
pub open spec fn registers_read<S: Fn(u32) -> String, D: Fn(u64) -> String>(
    single: S,
    double: D,
    before: Map<Seq<char>, RegisterValue>,
    after: Map<Seq<char>, RegisterValue>,
    items: Seq<RegisterDescription>,
    quantity: u16,
    mem_layout: MemLayout,
    response: Option<Seq<u8>>,
    accepted: bool,
) -> bool {
    words_applied(
        single,
        double,
        before,
        after,
        register_names(items),
        register_types(items),
        quantity,
        mem_layout,
        content(response, |bytes: Seq<u8>| ReadHoldingRegistersResponse::parsed(bytes)),
        accepted,
    )
}

/// Stores what `response` says of the holding registers of `batch`. Where none came, or it is
/// none to that request, nothing changes. `single` and `double` give the text of
/// floating-point numbers.
pub fn apply_register_response<S: Fn(u32) -> String, D: Fn(u64) -> String>(
    batch: &RegisterBatch,
    response: Option<&[u8]>,
    mem_layout: MemLayout,
    store: &mut RegisterStore,
    single: &S,
    double: &D,
) -> (accepted: bool)
    requires
        total_width(register_types(batch.items@)) <= batch.quantity,
        forall|bits: u32| #[trigger] call_requires(*single, (bits,)),
        forall|bits: u64| #[trigger] call_requires(*double, (bits,)),
    ensures
        registers_read(
            *single,
            *double,
            old(store)@,
            final(store)@,
            batch.items@,
            batch.quantity,
            mem_layout,
            bytes_of(response),
            accepted,
        ),
{
    let bytes = match response {
        Some(bytes) => bytes,
        None => return false,
    };
    match ReadHoldingRegistersResponse::decode(bytes) {
        Ok(decoded) => {
            if decoded.register_values.len() != batch.quantity() as usize {
                return false;
            }
            let mut types: Vec<DataType> = Vec::new();
            let mut at: usize = 0;
            while at < batch.items.len()
                invariant
                    at <= batch.items@.len(),
                    types@ == register_types(batch.items@).take(at as int),
                decreases batch.items@.len() - at,
            {
                types.push(batch.items[at].data_type);
                at = at + 1;
                assert(types@ =~= register_types(batch.items@).take(at as int));
            }
            assert(types@ =~= register_types(batch.items@));
            let values = read_values(
                types.as_slice(),
                decoded.register_values.as_slice(),
                mem_layout,
                single,
                double,
            );
            let ghost names = register_names(batch.items@);
            let mut i: usize = 0;
            while i < batch.items.len()
                invariant
                    i <= batch.items@.len(),
                    values@.len() == batch.items@.len(),
                    names == register_names(batch.items@),
                    store@ == stored(old(store)@, names.take(i as int), values@.take(i as int)),
                decreases batch.items@.len() - i,
            {
                proof {
                    assert(names.take(i + 1).drop_last() =~= names.take(i as int));
                    assert(values@.take(i + 1).drop_last() =~= values@.take(i as int));
                }
                store.set(batch.items[i].name.as_str(), values[i].clone());
                i = i + 1;
            }
            assert(names.take(i as int) =~= names);
            assert(values@.take(i as int) =~= values@);
            assert(words_values(
                *single,
                *double,
                register_types(batch.items@),
                content(
                    bytes_of(response),
                    |bytes: Seq<u8>| ReadHoldingRegistersResponse::parsed(bytes),
                )->0,
                mem_layout,
                values@,
            ));
            true
        },
        Err(_) => false,
    }
}

/// The names of input registers.
pub open spec fn input_register_names(items: Seq<InputRegisterDescription>) -> Seq<Seq<char>> {
    items.map_values(|item: InputRegisterDescription| item.name@)
}

/// The message that asks for `quantity` input registers from `starting_address` on.
pub open spec fn input_registers_request(starting_address: u16, quantity: u16) -> Seq<u8> {
    (ReadInputRegistersRequest { starting_address, quantity }).message()
}

/// The request that reads the input registers of a batch.
pub fn input_register_read_request(batch: &InputRegisterBatch) -> (request: Vec<u8>)
    ensures
        request@ == input_registers_request(batch.starting_address, batch.quantity),
{
    ReadInputRegistersRequest {
        starting_address: batch.starting_address,
        quantity: batch.quantity(),
    }.encode()
}

/// What `response` to a request for the input registers `items` does to a store.
pub open spec fn input_registers_read<S: Fn(u32) -> String, D: Fn(u64) -> String>(
    single: S,
    double: D,
    before: Map<Seq<char>, RegisterValue>,
    after: Map<Seq<char>, RegisterValue>,
    items: Seq<InputRegisterDescription>,
    quantity: u16,
    mem_layout: MemLayout,
    response: Option<Seq<u8>>,
    accepted: bool,
) -> bool {
    words_applied(
        single,
        double,
        before,
        after,
        input_register_names(items),
        input_register_types(items),
        quantity,
        mem_layout,
        content(response, |bytes: Seq<u8>| ReadInputRegistersResponse::parsed(bytes)),
        accepted,
    )
}

/// Stores what `response` says of the input registers of `batch`. Where none came, or it is
/// none to that request, nothing changes. `single` and `double` give the text of
/// floating-point numbers.
pub fn apply_input_register_response<S: Fn(u32) -> String, D: Fn(u64) -> String>(
    batch: &InputRegisterBatch,
    response: Option<&[u8]>,
    mem_layout: MemLayout,
    store: &mut InputRegisterStore,
    single: &S,
    double: &D,
) -> (accepted: bool)
    requires
        total_width(input_register_types(batch.items@)) <= batch.quantity,
        forall|bits: u32| #[trigger] call_requires(*single, (bits,)),
        forall|bits: u64| #[trigger] call_requires(*double, (bits,)),
    ensures
        input_registers_read(
            *single,
            *double,
            old(store)@,
            final(store)@,
            batch.items@,
            batch.quantity,
            mem_layout,
            bytes_of(response),
            accepted,
        ),
{
    let bytes = match response {
        Some(bytes) => bytes,
        None => return false,
    };
    match ReadInputRegistersResponse::decode(bytes) {
        Ok(decoded) => {
            if decoded.register_values.len() != batch.quantity() as usize {
                return false;
            }
            let mut types: Vec<DataType> = Vec::new();
            let mut at: usize = 0;
            while at < batch.items.len()
                invariant
                    at <= batch.items@.len(),
                    types@ == input_register_types(batch.items@).take(at as int),
                decreases batch.items@.len() - at,
            {
                types.push(batch.items[at].data_type);
                at = at + 1;
                assert(types@ =~= input_register_types(batch.items@).take(at as int));
            }
            assert(types@ =~= input_register_types(batch.items@));
            let values = read_values(
                types.as_slice(),
                decoded.register_values.as_slice(),
                mem_layout,
                single,
                double,
            );
            let ghost names = input_register_names(batch.items@);
            let mut i: usize = 0;
            while i < batch.items.len()
                invariant
                    i <= batch.items@.len(),
                    values@.len() == batch.items@.len(),
                    names == input_register_names(batch.items@),
                    store@ == stored(old(store)@, names.take(i as int), values@.take(i as int)),
                decreases batch.items@.len() - i,
            {
                proof {
                    assert(names.take(i + 1).drop_last() =~= names.take(i as int));
                    assert(values@.take(i + 1).drop_last() =~= values@.take(i as int));
                }
                store.set(batch.items[i].name.as_str(), values[i].clone());
                i = i + 1;
            }
            assert(names.take(i as int) =~= names);
            assert(values@.take(i as int) =~= values@);
            assert(words_values(
                *single,
                *double,
                input_register_types(batch.items@),
                content(
                    bytes_of(response),
                    |bytes: Seq<u8>| ReadInputRegistersResponse::parsed(bytes),
                )->0,
                mem_layout,
                values@,
            ));
            true
        },
        Err(_) => false,
    }
}

/// The names of coils.
pub open spec fn coil_names(items: Seq<CoilDescription>) -> Seq<Seq<char>> {
    items.map_values(|item: CoilDescription| item.name@)
}

/// The message that asks for `quantity` coils from `starting_address` on.
pub open spec fn coils_request(starting_address: u16, quantity: u16) -> Seq<u8> {
    (ReadCoilsRequest { starting_address, quantity }).message()
}

/// The request that reads the coils of a batch.
pub fn coil_read_request(batch: &CoilBatch) -> (request: Vec<u8>)
    ensures
        request@ == coils_request(batch.starting_address, batch.quantity),
{
    ReadCoilsRequest {
        starting_address: batch.starting_address,
        quantity: batch.quantity(),
    }.encode()
}

/// What `response` to a request for the coils `items` does to a store.
pub open spec fn coils_read(
    before: Map<Seq<char>, CoilValue>,
    after: Map<Seq<char>, CoilValue>,
    items: Seq<CoilDescription>,
    response: Option<Seq<u8>>,
    accepted: bool,
) -> bool {
    bits_applied(
        before,
        after,
        coil_names(items),
        content(response, |bytes: Seq<u8>| ReadCoilsResponse::parsed(bytes)),
        accepted,
    )
}

/// Stores what `response` says of the coils of `batch`; the bits that only fill
/// its last byte are left out. Where none came, or it is none to that request,
/// nothing changes.
pub fn apply_coil_response(
    batch: &CoilBatch,
    response: Option<&[u8]>,
    store: &mut CoilStore,
) -> (accepted: bool)
    ensures
        coils_read(old(store)@, final(store)@, batch.items@, bytes_of(response), accepted),
{
    let bytes = match response {
        Some(bytes) => bytes,
        None => return false,
    };
    match ReadCoilsResponse::decode(bytes) {
        Ok(decoded) => {
            if decoded.coil_values.len() < batch.items.len() {
                return false;
            }
            let ghost names = coil_names(batch.items@);
            let ghost values = coil_values(decoded.coil_values@.take(batch.items@.len() as int));
            let mut i: usize = 0;
            while i < batch.items.len()
                invariant
                    i <= batch.items@.len() <= decoded.coil_values@.len(),
                    names == coil_names(batch.items@),
                    values == coil_values(
                        decoded.coil_values@.take(batch.items@.len() as int),
                    ),
                    store@ == stored(old(store)@, names.take(i as int), values.take(i as int)),
                decreases batch.items@.len() - i,
            {
                proof {
                    assert(names.take(i + 1).drop_last() =~= names.take(i as int));
                    assert(values.take(i + 1).drop_last() =~= values.take(i as int));
                }
                store.set(batch.items[i].name.as_str(), CoilValue(decoded.coil_values[i]));
                i = i + 1;
            }
            assert(names.take(i as int) =~= names);
            assert(values.take(i as int) =~= values);
            true
        },
        Err(_) => false,
    }
}

/// The names of discrete inputs.
pub open spec fn discrete_input_names(items: Seq<DiscreteInputDescription>) -> Seq<Seq<char>> {
    items.map_values(|item: DiscreteInputDescription| item.name@)
}

/// The message that asks for `quantity` discrete inputs from `starting_address` on.
pub open spec fn discrete_inputs_request(starting_address: u16, quantity: u16) -> Seq<u8> {
    (ReadDiscreteInputsRequest { starting_address, quantity }).message()
}

/// The request that reads the discrete inputs of a batch.
pub fn discrete_input_read_request(batch: &DiscreteInputBatch) -> (request: Vec<u8>)
    ensures
        request@ == discrete_inputs_request(batch.starting_address, batch.quantity),
{
    ReadDiscreteInputsRequest {
        starting_address: batch.starting_address,
        quantity: batch.quantity(),
    }.encode()
}

/// What `response` to a request for the discrete inputs `items` does to a store.
pub open spec fn discrete_inputs_read(
    before: Map<Seq<char>, CoilValue>,
    after: Map<Seq<char>, CoilValue>,
    items: Seq<DiscreteInputDescription>,
    response: Option<Seq<u8>>,
    accepted: bool,
) -> bool {
    bits_applied(
        before,
        after,
        discrete_input_names(items),
        content(response, |bytes: Seq<u8>| ReadDiscreteInputsResponse::parsed(bytes)),
        accepted,
    )
}

/// Stores what `response` says of the discrete inputs of `batch`; the bits that only fill
/// its last byte are left out. Where none came, or it is none to that request,
/// nothing changes.
pub fn apply_discrete_input_response(
    batch: &DiscreteInputBatch,
    response: Option<&[u8]>,
    store: &mut DiscreteInputStore,
) -> (accepted: bool)
    ensures
        discrete_inputs_read(
            old(store)@,
            final(store)@,
            batch.items@,
            bytes_of(response),
            accepted,
        ),
{
    let bytes = match response {
        Some(bytes) => bytes,
        None => return false,
    };
    match ReadDiscreteInputsResponse::decode(bytes) {
        Ok(decoded) => {
            if decoded.discrete_input_values.len() < batch.items.len() {
                return false;
            }
            let ghost names = discrete_input_names(batch.items@);
            let ghost values = coil_values(
                decoded.discrete_input_values@.take(batch.items@.len() as int),
            );
            let mut i: usize = 0;
            while i < batch.items.len()
                invariant
                    i <= batch.items@.len() <= decoded.discrete_input_values@.len(),
                    names == discrete_input_names(batch.items@),
                    values == coil_values(
                        decoded.discrete_input_values@.take(batch.items@.len() as int),
                    ),
                    store@ == stored(old(store)@, names.take(i as int), values.take(i as int)),
                decreases batch.items@.len() - i,
            {
                proof {
                    assert(names.take(i + 1).drop_last() =~= names.take(i as int));
                    assert(values.take(i + 1).drop_last() =~= values.take(i as int));
                }
                store.set(
                    batch.items[i].name.as_str(),
                    CoilValue(decoded.discrete_input_values[i]),
                );
                i = i + 1;
            }
            assert(names.take(i as int) =~= names);
            assert(values.take(i as int) =~= values);
            true
        },
        Err(_) => false,
    }
}

/// The message that asks for a file record.
pub open spec fn file_record_request(description: FileRecordDescription) -> Seq<u8> {
    ReadFileRecordRequest::message(
        seq![
            FileRecordSubRequest {
                file_number: description.file_number,
                record_number: description.record_number,
                record_length: description.record_length,
            },
        ],
    )
}

/// The request that reads a file record.
pub fn file_record_read_request(description: FileRecordDescription) -> (request: Vec<u8>)
    ensures
        request@ == file_record_request(description),
{
    let mut sub_requests: Vec<FileRecordSubRequest> = Vec::new();
    sub_requests.push(
        FileRecordSubRequest {
            file_number: description.file_number,
            record_number: description.record_number,
            record_length: description.record_length,
        },
    );
    assert(sub_requests@ =~= seq![sub_requests@[0]]);
    ReadFileRecordRequest { sub_requests }.encode()
}

/// What `response` to a request for a file record does to a store.
pub open spec fn record_read(
    before: Map<(u16, u16), Seq<u8>>,
    after: Map<(u16, u16), Seq<u8>>,
    description: FileRecordDescription,
    response: Option<Seq<u8>>,
    accepted: bool,
) -> bool {
    record_applied(
        before,
        after,
        description,
        content(response, |bytes: Seq<u8>| ReadFileRecordResponse::parsed(bytes)),
        accepted,
    )
}

/// Stores what `response` says of a file record. Where none came, or it holds
/// another number of records, nothing changes.
pub fn apply_file_record_response(
    description: FileRecordDescription,
    response: Option<&[u8]>,
    store: &mut FileRecordStore,
) -> (accepted: bool)
    ensures
        record_read(old(store)@, final(store)@, description, bytes_of(response), accepted),
{
    let bytes = match response {
        Some(bytes) => bytes,
        None => return false,
    };
    match ReadFileRecordResponse::decode(bytes) {
        Ok(decoded) => {
            let mut records = decoded.records;
            assert(record_views(records@).len() == records@.len());
            if records.len() != 1 {
                return false;
            }
            let record = records.remove(0);
            assert(record@ == record_views(decoded.records@)[0]);
            store.set(description.file_number, description.record_number, record);
            true
        },
        Err(_) => false,
    }
}

/// A read leaves every value alone that it did not ask for.
pub proof fn law_read_changes_only_its_names<V>(
    before: Map<Seq<char>, V>,
    names: Seq<Seq<char>>,
    values: Seq<V>,
    name: Seq<char>,
)
    requires
        names.len() == values.len(),
        !names.contains(name),
    ensures
        stored(before, names, values).dom().contains(name) == before.dom().contains(name),
        stored(before, names, values)[name] == before[name],
    decreases names.len(),
{
    if names.len() > 0 {
        let front = names.drop_last();
        assert(!front.contains(name)) by {
            if front.contains(name) {
                let i = front.index_of(name);
                assert(names[i] == name);
            }
        }
        assert(names[names.len() - 1] != name);
        law_read_changes_only_its_names(before, front, values.drop_last(), name);
    }
}

/// After a read everything it asked for has the value that the device reported;
/// where a name stands twice, the last one counts.
pub proof fn law_read_stores_what_was_reported<V>(
    before: Map<Seq<char>, V>,
    names: Seq<Seq<char>>,
    values: Seq<V>,
    i: int,
)
    requires
        names.len() == values.len(),
        0 <= i < names.len(),
        forall|j: int| i < j < names.len() ==> names[j] != names[i],
    ensures
        stored(before, names, values).dom().contains(names[i]),
        stored(before, names, values)[names[i]] == values[i],
    decreases names.len(),
{
    if i < names.len() - 1 {
        assert(names[names.len() - 1] != names[i]);
        let front = names.drop_last();
        assert forall|j: int| i < j < front.len() implies front[j] != front[i] by {
            assert(names[j] != names[i]);
        }
        law_read_stores_what_was_reported(before, front, values.drop_last(), i);
    }
}

} // verus!
