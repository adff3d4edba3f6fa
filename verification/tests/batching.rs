use infused_modbus::batching::build_batches;

#[test]
fn contiguous_items_are_grouped_into_one_batch() {
    let items = vec![(40001u16, "A"), (40002, "B"), (40003, "C")];
    let batches = build_batches(items, |(address, _)| *address, |_| 1, 125);
    assert_eq!(batches.len(), 1);
    assert_eq!(batches[0].starting_address, 40001);
    assert_eq!(batches[0].quantity(), 3);
}

#[test]
fn batching_a_gap_in_addresses_starts_a_new_batch() {
    let items = vec![(1u16, "A"), (10u16, "B")];
    let batches = build_batches(items, |(address, _)| *address, |_| 1, 125);
    assert_eq!(batches.len(), 2);
    assert_eq!(batches[0].starting_address, 1);
    assert_eq!(batches[1].starting_address, 10);
}

#[test]
fn items_are_grouped_regardless_of_input_order() {
    let items = vec![(2u16, "B"), (1u16, "A")];
    let batches = build_batches(items, |(address, _)| *address, |_| 1, 125);
    assert_eq!(batches.len(), 1);
    assert_eq!(batches[0].starting_address, 1);
    assert_eq!(
        batches[0]
            .items
            .iter()
            .map(|(_, name)| *name)
            .collect::<Vec<_>>(),
        vec!["A", "B"]
    );
}

#[test]
fn a_batch_never_exceeds_the_given_max_size() {
    let items: Vec<(u16, usize)> = (0..130).map(|offset| (1 + offset as u16, offset)).collect();
    let batches = build_batches(items, |(address, _)| *address, |_| 1, 125);
    assert_eq!(batches.len(), 2);
    assert_eq!(batches[0].quantity(), 125);
    assert_eq!(batches[1].quantity(), 5);
}

#[test]
fn an_empty_input_produces_no_batches() {
    let items: Vec<(u16, &str)> = vec![];
    let batches = build_batches(items, |(address, _)| *address, |_| 1, 125);
    assert!(batches.is_empty());
}

#[test]
fn items_wider_than_one_slot_advance_the_expected_next_address_by_their_own_size() {
    // A 2-slot-wide item at address 10 (occupying 10-11), followed
    // immediately by a 1-slot item at address 12 — contiguous only if
    // the wider item's own size, not just "1 item = 1 slot", is used
    // to compute where the next item must start.
    let items = vec![(10u16, 2u16), (12u16, 1u16)];
    let batches = build_batches(items, |(address, _)| *address, |(_, size)| *size, 125);
    assert_eq!(batches.len(), 1);
    assert_eq!(batches[0].quantity(), 3);
}

#[test]
fn a_batch_stops_growing_once_the_next_item_would_exceed_the_max_size() {
    // A batch already at 124/125 slots; the next item needs 2 slots,
    // which would push it to 126 — must start a new batch instead of
    // overshooting max_batch_size.
    let items = vec![(1u16, 124u16), (125u16, 2u16)];
    let batches = build_batches(items, |(address, _)| *address, |(_, size)| *size, 125);
    assert_eq!(batches.len(), 2);
    assert_eq!(batches[0].quantity(), 124);
    assert_eq!(batches[1].starting_address, 125);
    assert_eq!(batches[1].quantity(), 2);
}

#[test]
fn items_at_one_address_keep_their_order() {
    let items = vec![(5u16, "B"), (1, "X"), (5, "A"), (5, "C")];
    let batches = build_batches(items, |(address, _)| *address, |_| 1, 125);
    let names: Vec<&str> = batches
        .iter()
        .flat_map(|batch| batch.items.iter().map(|(_, name)| *name))
        .collect();
    assert_eq!(names, vec!["X", "B", "A", "C"]);
}

#[test]
fn a_lone_item_may_be_wider_than_the_limit() {
    let items = vec![(1u16, 10u16), (11, 1)];
    let batches = build_batches(items, |(address, _)| *address, |(_, size)| *size, 4);
    assert_eq!(batches.len(), 2);
    assert_eq!(batches[0].quantity(), 10);
}

#[test]
fn the_last_address_is_not_joined_to_the_first() {
    let items = vec![(65535u16, "Z"), (0, "A")];
    let batches = build_batches(items, |(address, _)| *address, |_| 1, 125);
    assert_eq!(batches.len(), 2);
    assert_eq!(batches[0].starting_address, 0);
    assert_eq!(batches[1].starting_address, 65535);
}
