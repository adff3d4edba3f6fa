//! Grouping what lies at consecutive addresses, so that one request covers it.

use vstd::prelude::*;

verus! {

/// What one request covers: items at consecutive addresses, and how many
/// addresses they take.
#[derive(Debug, Clone, PartialEq)]
pub struct Batch<T> {
    pub starting_address: u16,
    pub items: Vec<T>,
    pub quantity: u16,
}

/// An item, its address and how many addresses it takes.
pub ghost struct Slot<T> {
    pub address: u16,
    pub size: u16,
    pub item: T,
}

/// How many addresses `run` takes.
pub open spec fn total<T>(run: Seq<Slot<T>>) -> int
    decreases run.len(),
{
    if run.len() == 0 {
        0
    } else {
        total(run.drop_last()) + run.last().size
    }
}

/// The items of `run`.
pub open spec fn run_items<T>(run: Seq<Slot<T>>) -> Seq<T> {
    run.map_values(|slot: Slot<T>| slot.item)
}

/// Whether `slot` continues `run`: it lies right behind it, and together they
/// take no more than `max` addresses.
pub open spec fn continues<T>(run: Seq<Slot<T>>, slot: Slot<T>, max: u16) -> bool {
    &&& slot.address == (run[0].address + total(run)) % 65536
    &&& total(run) + slot.size <= max
}

/// `sorted` with `slot` behind everything whose address is not larger.
pub open spec fn insert_slot<T>(sorted: Seq<Slot<T>>, slot: Slot<T>) -> Seq<Slot<T>>
    decreases sorted.len(),
{
    if sorted.len() == 0 || sorted.last().address <= slot.address {
        sorted.push(slot)
    } else {
        insert_slot(sorted.drop_last(), slot).push(sorted.last())
    }
}

/// `slots` in the order of their addresses; those at one address stay in the
/// order they came in.
pub open spec fn sorted_slots<T>(slots: Seq<Slot<T>>) -> Seq<Slot<T>>
    decreases slots.len(),
{
    if slots.len() == 0 {
        slots
    } else {
        insert_slot(sorted_slots(slots.drop_last()), slots.last())
    }
}

/// The runs of `slots`: each slot continues the last run, or starts a new one.
pub open spec fn runs<T>(slots: Seq<Slot<T>>, max: u16) -> Seq<Seq<Slot<T>>>
    decreases slots.len(),
{
    if slots.len() == 0 {
        Seq::empty()
    } else {
        let before = runs(slots.drop_last(), max);
        let slot = slots.last();
        if before.len() > 0 && continues(before.last(), slot, max) {
            before.drop_last().push(before.last().push(slot))
        } else {
            before.push(seq![slot])
        }
    }
}

/// All the slots of `groups`, one group behind the other.
pub open spec fn joined<T>(groups: Seq<Seq<Slot<T>>>) -> Seq<Slot<T>>
    decreases groups.len(),
{
    if groups.len() == 0 {
        Seq::empty()
    } else {
        joined(groups.drop_last()) + groups.last()
    }
}

/// Whether `run` can be one batch: its slots lie one behind the other, and
/// where they are several they take no more than `max` addresses.
pub open spec fn is_run<T>(run: Seq<Slot<T>>, max: u16) -> bool {
    &&& run.len() > 0
    &&& forall|j: int|
        0 <= j < run.len() ==> (#[trigger] run[j]).address == (run[0].address + total(
            run.take(j),
        )) % 65536
    &&& run.len() > 1 ==> total(run) <= max
}

impl<T> Batch<T> {
    /// Whether the batch covers `run`.
    pub open spec fn covers(self, run: Seq<Slot<T>>) -> bool {
        &&& run.len() > 0
        &&& self.starting_address == run[0].address
        &&& self.items@ == run_items(run)
        &&& self.quantity == total(run)
    }

    /// How many addresses the items take.
    pub fn quantity(&self) -> (quantity: u16)
        ensures
            quantity == self.quantity,
    {
        self.quantity
    }
}

/// Whether `batches` cover `groups`, one each.
pub open spec fn batches_cover<T>(batches: Seq<Batch<T>>, groups: Seq<Seq<Slot<T>>>) -> bool {
    &&& batches.len() == groups.len()
    &&& forall|i: int| 0 <= i < batches.len() ==> (#[trigger] batches[i]).covers(groups[i])
}

/// Whether `slots` are `items`, each with an address and a size that the two
/// functions may give it.
pub open spec fn slots_of<T, A: Fn(&T) -> u16, S: Fn(&T) -> u16>(
    slots: Seq<Slot<T>>,
    items: Seq<T>,
    address_of: A,
    size_of: S,
) -> bool {
    &&& slots.len() == items.len()
    &&& forall|i: int|
        0 <= i < items.len() ==> {
            &&& (#[trigger] slots[i]).item == items[i]
            &&& call_ensures(address_of, (&items[i],), slots[i].address)
            &&& call_ensures(size_of, (&items[i],), slots[i].size)
        }
}

/// The slots that the entries of a list stand for.
spec fn entries_slots<T>(entries: Seq<(u16, u16, T)>) -> Seq<Slot<T>> {
    Seq::new(
        entries.len(),
        |i: int| Slot { address: entries[i].0, size: entries[i].1, item: entries[i].2 },
    )
}

/// Inserting at the right place keeps the order.
proof fn lemma_insert_at<T>(sorted: Seq<Slot<T>>, slot: Slot<T>, at: int)
    requires
        0 <= at <= sorted.len(),
        forall|i: int| at <= i < sorted.len() ==> (#[trigger] sorted[i]).address > slot.address,
        at > 0 ==> sorted[at - 1].address <= slot.address,
    ensures
        insert_slot(sorted, slot) == sorted.insert(at, slot),
    decreases sorted.len(),
{
    if at == sorted.len() {
        assert(sorted.insert(at, slot) =~= sorted.push(slot));
    } else {
        let rest = sorted.drop_last();
        assert(sorted.last().address > slot.address);
        assert forall|i: int| at <= i < rest.len() implies (#[trigger] rest[i]).address
            > slot.address by {
            assert(rest[i] == sorted[i]);
        }
        lemma_insert_at(rest, slot, at);
        assert(rest.insert(at, slot).push(sorted.last()) =~= sorted.insert(at, slot));
    }
}

/// Groups `items` into batches: in the order of their addresses, each item
/// joins the last batch where it lies right behind it and the batch then takes
/// no more than `max_batch_size` addresses.
pub fn build_batches<T, A: Fn(&T) -> u16, S: Fn(&T) -> u16>(
    items: Vec<T>,
    address_of: A,
    size_of: S,
    max_batch_size: u16,
) -> (batches: Vec<Batch<T>>)
    requires
        forall|item: &T| #[trigger] call_requires(address_of, (item,)),
        forall|item: &T| #[trigger] call_requires(size_of, (item,)),
    ensures
        exists|slots: Seq<Slot<T>>|
            {
                &&& #[trigger] slots_of(slots, items@, address_of, size_of)
                &&& batches_cover(batches@, runs(sorted_slots(slots), max_batch_size))
            },
{
    let ghost all = items@;
    let ghost mut slots: Seq<Slot<T>> = Seq::empty();
    let mut sorted: Vec<(u16, u16, T)> = Vec::new();
    assert(entries_slots(sorted@) =~= sorted_slots(slots));
    for item in it: items
        invariant
            it.seq() == all,
            slots.len() == it.index(),
            forall|item: &T| #[trigger] call_requires(address_of, (item,)),
            forall|item: &T| #[trigger] call_requires(size_of, (item,)),
            slots_of(slots, all.take(it.index() as int), address_of, size_of),
            entries_slots(sorted@) == sorted_slots(slots),
    {
        let ghost here = it.index() as int;
        let ghost before = entries_slots(sorted@);
        let address: u16 = address_of(&item);
        let size: u16 = size_of(&item);
        let ghost slot = Slot { address, size, item };
        let mut at: usize = sorted.len();
        while at > 0 && sorted[at - 1].0 > address
            invariant
                at <= sorted@.len(),
                before == entries_slots(sorted@),
                forall|i: int| at <= i < before.len() ==> (#[trigger] before[i]).address > address,
            decreases at,
        {
            at = at - 1;
            assert(before[at as int].address > address);
        }
        proof {
            if at > 0 {
                assert(before[at - 1].address == sorted@[at - 1].0);
            }
            lemma_insert_at(before, slot, at as int);
        }
        sorted.insert(at, (address, size, item));
        proof {
            assert(entries_slots(sorted@) =~= before.insert(at as int, slot));
            assert(slots.push(slot).drop_last() =~= slots);
            assert(all.take(here + 1) =~= all.take(here).push(all[here]));
            let old_slots = slots;
            slots = slots.push(slot);
            assert forall|i: int| 0 <= i < all.take(here + 1).len() implies {
                &&& (#[trigger] slots[i]).item == all.take(here + 1)[i]
                &&& call_ensures(address_of, (&all.take(here + 1)[i],), slots[i].address)
                &&& call_ensures(size_of, (&all.take(here + 1)[i],), slots[i].size)
            } by {
                if i < here {
                    assert(slots[i] == old_slots[i]);
                    assert(all.take(here + 1)[i] == all.take(here)[i]);
                }
            }
        }
    }
    assert(all.take(all.len() as int) =~= all);
    let ghost order = entries_slots(sorted@);
    let mut batches: Vec<Batch<T>> = Vec::new();
    let ghost entries = sorted@;
    for entry in it: sorted
        invariant
            it.seq() == entries,
            order == entries_slots(entries),
            batches_cover(batches@, runs(order.take(it.index() as int), max_batch_size)),
    {
        let ghost here = it.index() as int;
        let ghost groups = runs(order.take(here), max_batch_size);
        let (address, size, item) = entry;
        let ghost slot = Slot { address, size, item };
        let ghost before = batches@;
        proof {
            assert(order.take(here + 1).drop_last() =~= order.take(here));
            assert(order.take(here + 1).last() == slot);
        }
        let count: usize = batches.len();
        let extends_last_batch = if count > 0 {
            let batch = &batches[count - 1];
            assert(batch.covers(groups[count - 1]));
            let expected_next_address: u16 = batch.starting_address.wrapping_add(batch.quantity);
            address == expected_next_address && batch.quantity as u32 + size as u32
                <= max_batch_size as u32
        } else {
            false
        };
        if extends_last_batch {
            assert(continues(groups.last(), slot, max_batch_size));
            let ghost run = groups.last();
            match batches.pop() {
                Some(mut batch) => {
                    assert(batch == before[count - 1]);
                    batch.items.push(item);
                    batch.quantity = batch.quantity + size;
                    proof {
                        assert(run.push(slot).drop_last() =~= run);
                        assert(run_items(run.push(slot)) =~= run_items(run).push(item));
                        assert(batch.covers(run.push(slot)));
                    }
                    batches.push(batch);
                },
                None => {},
            }
            proof {
                let next = groups.drop_last().push(run.push(slot));
                assert forall|i: int| 0 <= i < batches@.len() implies (
                #[trigger] batches@[i]).covers(next[i]) by {
                    if i < count - 1 {
                        assert(batches@[i] == before[i]);
                        assert(before[i].covers(groups[i]));
                    }
                }
            }
        } else {
            let mut members: Vec<T> = Vec::new();
            members.push(item);
            let batch = Batch { starting_address: address, items: members, quantity: size };
            proof {
                assert(!(groups.len() > 0 && continues(groups.last(), slot, max_batch_size)));
                let run = seq![slot];
                assert(run.drop_last() =~= Seq::<Slot<T>>::empty());
                assert(total(run.drop_last()) == 0);
                assert(total(run) == size);
                assert(run_items(run) =~= members@);
                assert(batch.covers(run));
            }
            batches.push(batch);
            proof {
                let next = groups.push(seq![slot]);
                assert forall|i: int| 0 <= i < batches@.len() implies (
                #[trigger] batches@[i]).covers(next[i]) by {
                    if i < count {
                        assert(batches@[i] == before[i]);
                        assert(before[i].covers(groups[i]));
                    }
                }
            }
        }
    }
    assert(order.take(order.len() as int) =~= order);
    assert(slots_of(slots, items@, address_of, size_of));
    batches
}

/// Sorting keeps exactly the slots there were.
pub proof fn law_sorting_keeps_all<T>(slots: Seq<Slot<T>>)
    ensures
        sorted_slots(slots).to_multiset() == slots.to_multiset(),
        sorted_slots(slots).len() == slots.len(),
    decreases slots.len(),
{
    broadcast use vstd::seq_lib::group_to_multiset_ensures;

    if slots.len() > 0 {
        let rest = slots.drop_last();
        law_sorting_keeps_all(rest);
        lemma_insert_keeps_all(sorted_slots(rest), slots.last());
        assert(rest.push(slots.last()) =~= slots);
    }
}

proof fn lemma_insert_keeps_all<T>(sorted: Seq<Slot<T>>, slot: Slot<T>)
    ensures
        insert_slot(sorted, slot).to_multiset() == sorted.to_multiset().insert(slot),
        insert_slot(sorted, slot).len() == sorted.len() + 1,
    decreases sorted.len(),
{
    broadcast use vstd::seq_lib::group_to_multiset_ensures;

    if sorted.len() > 0 && sorted.last().address > slot.address {
        let rest = sorted.drop_last();
        lemma_insert_keeps_all(rest, slot);
        assert(rest.push(sorted.last()) =~= sorted);
        assert(insert_slot(sorted, slot).to_multiset() =~= sorted.to_multiset().insert(slot));
    }
}

/// Whether the addresses never fall.
pub open spec fn ascending<T>(slots: Seq<Slot<T>>) -> bool {
    forall|i: int, j: int|
        0 <= i <= j < slots.len() ==> (#[trigger] slots[i]).address <= (
        #[trigger] slots[j]).address
}

/// Sorting puts the slots in the order of their addresses.
pub proof fn law_sorting_orders<T>(slots: Seq<Slot<T>>)
    ensures
        ascending(sorted_slots(slots)),
    decreases slots.len(),
{
    if slots.len() > 0 {
        law_sorting_orders(slots.drop_last());
        lemma_insert_ascending(sorted_slots(slots.drop_last()), slots.last());
    }
}

proof fn lemma_insert_ascending<T>(sorted: Seq<Slot<T>>, slot: Slot<T>)
    requires
        ascending(sorted),
    ensures
        ascending(insert_slot(sorted, slot)),
        forall|i: int|
            0 <= i < insert_slot(sorted, slot).len() ==> (#[trigger] insert_slot(
                sorted,
                slot,
            )[i]).address <= slot.address || (sorted.len() > 0 && insert_slot(
                sorted,
                slot,
            )[i].address <= sorted.last().address),
    decreases sorted.len(),
{
    if sorted.len() > 0 && sorted.last().address > slot.address {
        let rest = sorted.drop_last();
        assert(ascending(rest)) by {
            assert forall|i: int, j: int| 0 <= i <= j < rest.len() implies (
            #[trigger] rest[i]).address <= (#[trigger] rest[j]).address by {
                assert(sorted[i].address <= sorted[j].address);
            }
        }
        lemma_insert_ascending(rest, slot);
        let inner = insert_slot(rest, slot);
        let all = inner.push(sorted.last());
        assert forall|i: int| 0 <= i < all.len() implies (#[trigger] all[i]).address
            <= sorted.last().address by {
            if i < inner.len() {
                assert(all[i] == inner[i]);
                if rest.len() > 0 {
                    assert(sorted[rest.len() - 1].address <= sorted.last().address);
                }
            }
        }
        assert forall|i: int, j: int| 0 <= i <= j < all.len() implies (
        #[trigger] all[i]).address <= (#[trigger] all[j]).address by {
            if j < inner.len() {
                assert(inner[i].address <= inner[j].address);
            }
        }
    }
}

/// Sorting keeps the order of what lies at one address.
pub proof fn law_sorting_is_stable<T>(slots: Seq<Slot<T>>, address: u16)
    ensures
        sorted_slots(slots).filter(|slot: Slot<T>| slot.address == address) == slots.filter(
            |slot: Slot<T>| slot.address == address,
        ),
    decreases slots.len(),
{
    reveal(Seq::filter);
    if slots.len() > 0 {
        law_sorting_is_stable(slots.drop_last(), address);
        lemma_insert_stable(sorted_slots(slots.drop_last()), slots.last(), address);
    }
}

proof fn lemma_insert_stable<T>(sorted: Seq<Slot<T>>, slot: Slot<T>, address: u16)
    ensures
        ({
            let at = |s: Slot<T>| s.address == address;
            insert_slot(sorted, slot).filter(at) == if slot.address == address {
                sorted.filter(at).push(slot)
            } else {
                sorted.filter(at)
            }
        }),
    decreases sorted.len(),
{
    reveal(Seq::filter);
    let at = |s: Slot<T>| s.address == address;
    if sorted.len() == 0 || sorted.last().address <= slot.address {
        assert(sorted.push(slot).drop_last() =~= sorted);
    } else {
        lemma_insert_stable(sorted.drop_last(), slot, address);
        let inner = insert_slot(sorted.drop_last(), slot);
        assert(inner.push(sorted.last()).drop_last() =~= inner);
    }
}

/// The batches cover every slot once, in order.
pub proof fn law_runs_cover_all<T>(slots: Seq<Slot<T>>, max: u16)
    ensures
        joined(runs(slots, max)) == slots,
    decreases slots.len(),
{
    if slots.len() > 0 {
        let before = runs(slots.drop_last(), max);
        let slot = slots.last();
        law_runs_cover_all(slots.drop_last(), max);
        let rest = slots.drop_last();
        let after = runs(slots, max);
        assert(rest.push(slot) =~= slots);
        if before.len() > 0 && continues(before.last(), slot, max) {
            assert(after.drop_last() =~= before.drop_last());
            assert(joined(before) == joined(before.drop_last()) + before.last());
            assert(joined(before.drop_last()) + before.last().push(slot) =~= joined(before).push(
                slot,
            ));
        } else {
            assert(after.drop_last() =~= before);
            assert(joined(before) + seq![slot] =~= joined(before).push(slot));
        }
    } else {
        assert(joined(runs(slots, max)) =~= slots);
    }
}

/// Every batch lies at consecutive addresses, without a gap, and keeps within
/// the limit unless it is a single item.
pub proof fn law_runs_are_runs<T>(slots: Seq<Slot<T>>, max: u16)
    ensures
        forall|i: int|
            0 <= i < runs(slots, max).len() ==> is_run(#[trigger] runs(slots, max)[i], max),
    decreases slots.len(),
{
    if slots.len() > 0 {
        let before = runs(slots.drop_last(), max);
        let slot = slots.last();
        law_runs_are_runs(slots.drop_last(), max);
        let after = runs(slots, max);
        assert forall|i: int| 0 <= i < after.len() implies is_run(#[trigger] after[i], max) by {
            if before.len() > 0 && continues(before.last(), slot, max) {
                if i == before.len() - 1 {
                    let run = before.last();
                    assert(is_run(before[i], max));
                    lemma_run_push(run, slot, max);
                } else {
                    assert(after[i] == before[i]);
                }
            } else if i < before.len() {
                assert(after[i] == before[i]);
            } else {
                let run = seq![slot];
                assert(run.take(0) =~= Seq::<Slot<T>>::empty());
                assert(total(run.take(0)) == 0);
            }
        }
    }
}

proof fn lemma_run_push<T>(run: Seq<Slot<T>>, slot: Slot<T>, max: u16)
    requires
        is_run(run, max),
        continues(run, slot, max),
    ensures
        is_run(run.push(slot), max),
{
    let longer = run.push(slot);
    assert(longer.drop_last() =~= run);
    assert forall|j: int| 0 <= j < longer.len() implies (#[trigger] longer[j]).address == (
    longer[0].address + total(longer.take(j))) % 65536 by {
        if j < run.len() {
            assert(longer.take(j) =~= run.take(j));
            assert(longer[j] == run[j]);
        } else {
            assert(longer.take(j) =~= run);
        }
    }
}

/// How many addresses two runs take together.
proof fn lemma_total_concat<T>(a: Seq<Slot<T>>, b: Seq<Slot<T>>)
    ensures
        total(a + b) == total(a) + total(b),
    decreases b.len(),
{
    if b.len() == 0 {
        assert(a + b =~= a);
    } else {
        assert((a + b).drop_last() =~= a + b.drop_last());
        lemma_total_concat(a, b.drop_last());
    }
}

proof fn lemma_total_nonnegative<T>(run: Seq<Slot<T>>)
    ensures
        total(run) >= 0,
    decreases run.len(),
{
    if run.len() > 0 {
        lemma_total_nonnegative(run.drop_last());
    }
}

/// The front of a run is a run.
proof fn lemma_run_front<T>(run: Seq<Slot<T>>, max: u16)
    requires
        is_run(run, max),
        run.len() > 1,
    ensures
        is_run(run.drop_last(), max),
{
    let front = run.drop_last();
    assert forall|j: int| 0 <= j < front.len() implies (#[trigger] front[j]).address == (
    front[0].address + total(front.take(j))) % 65536 by {
        assert(front.take(j) =~= run.take(j));
        assert(front[j] == run[j]);
    }
}

/// What continues a run continues its tail.
proof fn lemma_tail_continues<T>(run: Seq<Slot<T>>, k: int, max: u16)
    requires
        is_run(run, max),
        run.len() > 1,
        0 <= k < run.len() - 1,
    ensures
        continues(run.drop_last().skip(k), run.last(), max),
{
    let front = run.drop_last();
    let tail = front.skip(k);
    let head = front.take(k);
    assert(head + tail =~= front);
    lemma_total_concat(head, tail);
    lemma_total_nonnegative(head);
    assert(run.take(k) =~= head);
    assert(run.take(run.len() - 1) =~= front);
    assert(run[k].address == (run[0].address + total(head)) % 65536);
    assert(run[run.len() - 1].address == (run[0].address + total(front)) % 65536);
    assert(tail[0] == run[k]);
    lemma_offset(run[0].address + total(head), total(tail));
    assert(total(run) == total(front) + run.last().size);
}

/// An offset from an address that was brought into range.
proof fn lemma_offset(address: int, offset: int)
    ensures
        (address % 65536 + offset) % 65536 == (address + offset) % 65536,
{
}

/// No other way to cut the slots, as they are ordered, into batches takes
/// fewer batches.
pub proof fn law_runs_are_fewest<T>(
    slots: Seq<Slot<T>>,
    max: u16,
    groups: Seq<Seq<Slot<T>>>,
)
    requires
        joined(groups) == slots,
        forall|i: int| 0 <= i < groups.len() ==> is_run(#[trigger] groups[i], max),
    ensures
        runs(slots, max).len() <= groups.len(),
{
    lemma_runs_lag(slots, max, groups);
}

/// The runs are fewer than the groups of any other cut, or as many and then the
/// last one is no longer.
proof fn lemma_runs_lag<T>(slots: Seq<Slot<T>>, max: u16, groups: Seq<Seq<Slot<T>>>)
    requires
        joined(groups) == slots,
        forall|i: int| 0 <= i < groups.len() ==> is_run(#[trigger] groups[i], max),
    ensures
        runs(slots, max).len() < groups.len() || (runs(slots, max).len() == groups.len() && (
        groups.len() > 0 ==> runs(slots, max).last().len() <= groups.last().len())),
    decreases slots.len(),
{
    if slots.len() > 0 {
        assert(groups.len() > 0);
        let rest = slots.drop_last();
        let slot = slots.last();
        let before = runs(rest, max);
        let last = groups.last();
        let front = groups.drop_last();
        assert(is_run(groups[groups.len() - 1], max));
        assert forall|i: int| 0 <= i < front.len() implies is_run(#[trigger] front[i], max) by {
            assert(is_run(groups[i], max));
        }
        assert(last.last() == slot);
        if last.len() == 1 {
            assert(joined(front) =~= rest);
            lemma_runs_lag(rest, max, front);
        } else {
            let shorter = front.push(last.drop_last());
            lemma_run_front(last, max);
            assert(shorter.drop_last() =~= front);
            assert(joined(shorter) =~= rest);
            assert forall|i: int| 0 <= i < shorter.len() implies is_run(
                #[trigger] shorter[i],
                max,
            ) by {
                if i < front.len() {
                    assert(shorter[i] == front[i]);
                }
            }
            lemma_runs_lag(rest, max, shorter);
            if before.len() == groups.len() {
                law_runs_cover_all(rest, max);
                law_runs_are_runs(rest, max);
                assert(is_run(before[before.len() - 1], max));
                let k = last.len() - 1 - before.last().len();
                let whole = joined(shorter);
                assert(before.last() =~= last.drop_last().skip(k)) by {
                    assert(joined(before) == joined(before.drop_last()) + before.last());
                    assert(joined(shorter) == joined(front) + last.drop_last());
                    let n = whole.len() as int;
                    assert(whole.subrange(n - before.last().len(), n) =~= before.last());
                    assert(whole.subrange(n - before.last().len(), n)
                        =~= last.drop_last().skip(k));
                }
                lemma_tail_continues(last, k, max);
                assert(continues(before.last(), slot, max));
            }
        }
    } else {
        if groups.len() > 0 {
            assert(is_run(groups[groups.len() - 1], max));
            assert(joined(groups).len() > 0);
        }
    }
}

/// What holds of every slot holds of every slot in order.
proof fn lemma_sorted_hold<T>(slots: Seq<Slot<T>>, holds: spec_fn(Slot<T>) -> bool)
    requires
        forall|i: int| 0 <= i < slots.len() ==> holds(#[trigger] slots[i]),
    ensures
        forall|i: int|
            0 <= i < sorted_slots(slots).len() ==> holds(#[trigger] sorted_slots(slots)[i]),
{
    broadcast use vstd::seq_lib::group_to_multiset_ensures;

    law_sorting_keeps_all(slots);
    let sorted = sorted_slots(slots);
    assert forall|i: int| 0 <= i < sorted.len() implies holds(#[trigger] sorted[i]) by {
        assert(sorted.contains(sorted[i]));
        assert(slots.to_multiset().count(sorted[i]) > 0);
        assert(slots.contains(sorted[i]));
    }
}

/// Where no item takes more addresses than the limit, no batch does, and none is
/// without an address.
pub proof fn law_every_batch_fits<T>(slots: Seq<Slot<T>>, max: u16)
    requires
        forall|i: int| 0 <= i < slots.len() ==> 1 <= (#[trigger] slots[i]).size <= max,
    ensures
        forall|i: int|
            0 <= i < runs(sorted_slots(slots), max).len() ==> 1 <= total(
                #[trigger] runs(sorted_slots(slots), max)[i],
            ) <= max,
{
    lemma_sorted_hold(slots, |slot: Slot<T>| 1 <= slot.size <= max);
    lemma_runs_fit(sorted_slots(slots), max);
}

proof fn lemma_runs_fit<T>(slots: Seq<Slot<T>>, max: u16)
    requires
        forall|i: int| 0 <= i < slots.len() ==> 1 <= (#[trigger] slots[i]).size <= max,
    ensures
        forall|i: int|
            0 <= i < runs(slots, max).len() ==> 1 <= total(#[trigger] runs(slots, max)[i]) <= max,
    decreases slots.len(),
{
    if slots.len() > 0 {
        let rest = slots.drop_last();
        let before = runs(rest, max);
        let slot = slots.last();
        assert forall|i: int| 0 <= i < rest.len() implies 1 <= (#[trigger] rest[i]).size
            <= max by {
            assert(rest[i] == slots[i]);
        }
        lemma_runs_fit(rest, max);
        let after = runs(slots, max);
        assert forall|i: int| 0 <= i < after.len() implies 1 <= total(#[trigger] after[i])
            <= max by {
            if before.len() > 0 && continues(before.last(), slot, max) {
                if i == before.len() - 1 {
                    let run = before.last();
                    assert(total(before[i]) >= 1);
                    assert(run.push(slot).drop_last() =~= run);
                } else {
                    assert(after[i] == before[i]);
                }
            } else if i < before.len() {
                assert(after[i] == before[i]);
            } else {
                let run = seq![slot];
                assert(run.drop_last() =~= Seq::<Slot<T>>::empty());
                assert(total(run.drop_last()) == 0);
            }
        }
    }
}

/// What holds of every slot holds of every slot of every batch.
pub proof fn lemma_runs_hold<T>(slots: Seq<Slot<T>>, max: u16, holds: spec_fn(Slot<T>) -> bool)
    requires
        forall|i: int| 0 <= i < slots.len() ==> holds(#[trigger] slots[i]),
    ensures
        forall|i: int, j: int|
            0 <= i < runs(sorted_slots(slots), max).len() && 0 <= j < runs(
                sorted_slots(slots),
                max,
            )[i].len() ==> holds(#[trigger] runs(sorted_slots(slots), max)[i][j]),
{
    lemma_sorted_hold(slots, holds);
    lemma_sorted_runs_hold(sorted_slots(slots), max, holds);
}

proof fn lemma_sorted_runs_hold<T>(slots: Seq<Slot<T>>, max: u16, holds: spec_fn(Slot<T>) -> bool)
    requires
        forall|i: int| 0 <= i < slots.len() ==> holds(#[trigger] slots[i]),
    ensures
        forall|i: int, j: int|
            0 <= i < runs(slots, max).len() && 0 <= j < runs(slots, max)[i].len() ==> holds(
                #[trigger] runs(slots, max)[i][j],
            ),
    decreases slots.len(),
{
    if slots.len() > 0 {
        let rest = slots.drop_last();
        let before = runs(rest, max);
        let slot = slots.last();
        assert forall|i: int| 0 <= i < rest.len() implies holds(#[trigger] rest[i]) by {
            assert(rest[i] == slots[i]);
        }
        assert(holds(slots[slots.len() - 1]));
        lemma_sorted_runs_hold(rest, max, holds);
        let after = runs(slots, max);
        assert forall|i: int, j: int|
            0 <= i < after.len() && 0 <= j < after[i].len() implies holds(
            #[trigger] after[i][j],
        ) by {
            if before.len() > 0 && continues(before.last(), slot, max) {
                if i == before.len() - 1 && j == before[i].len() {
                    assert(after[i][j] == slot);
                } else {
                    assert(after[i][j] == before[i][j]);
                }
            } else if i < before.len() {
                assert(after[i][j] == before[i][j]);
            }
        }
    }
}

/// A copy of `items`, which their `clone` has to give unchanged.
pub fn copied<T: Clone>(items: &[T]) -> (copy: Vec<T>)
    requires
        forall|item: T, copy: T| #[trigger] call_ensures(T::clone, (&item,), copy) ==> copy == item,
    ensures
        copy@ == items@,
{
    let mut copy: Vec<T> = Vec::new();
    let mut i: usize = 0;
    while i < items.len()
        invariant
            i <= items@.len(),
            forall|item: T, copy: T| #[trigger]
                call_ensures(T::clone, (&item,), copy) ==> copy == item,
            copy@ == items@.take(i as int),
        decreases items@.len() - i,
    {
        let item = items[i].clone();
        assert(item == items@[i as int]);
        copy.push(item);
        assert(copy@ =~= items@.take(i + 1));
        i = i + 1;
    }
    assert(copy@ =~= items@);
    copy
}

} // verus!
