use pr_dedupe::gather::gather_by_index;

#[test]
fn gather_in_completion_order_equals_gather_in_slot_order() {
    let in_order = vec![(0usize, "a"), (1, "b"), (2, "c"), (3, "d")];
    let shuffled = vec![(2usize, "c"), (0, "a"), (3, "d"), (1, "b")];
    let from_ordered = gather_by_index(4, in_order).unwrap();
    let from_shuffled = gather_by_index(4, shuffled).unwrap();
    assert_eq!(from_ordered, vec!["a", "b", "c", "d"]);
    assert_eq!(from_shuffled, vec!["a", "b", "c", "d"]);
}

#[test]
fn gather_places_by_slot_not_by_arrival() {
    let reversed = vec![(3usize, 30), (2, 20), (1, 10), (0, 0)];
    assert_eq!(gather_by_index(4, reversed).unwrap(), vec![0, 10, 20, 30]);
}

#[test]
fn gather_rejects_a_duplicate_slot() {
    let twice = vec![(0usize, "a"), (0, "b")];
    assert!(gather_by_index(2, twice).is_none());
}

#[test]
fn gather_rejects_a_missing_slot() {
    let short = vec![(0usize, "a")];
    assert!(gather_by_index(2, short).is_none());
}

#[test]
fn gather_rejects_an_out_of_range_slot() {
    let wild = vec![(0usize, "a"), (5, "b")];
    assert!(gather_by_index(2, wild).is_none());
}

#[test]
fn gather_of_no_slots_is_empty() {
    let none: Vec<(usize, u8)> = Vec::new();
    assert_eq!(gather_by_index(0, none).unwrap(), Vec::<u8>::new());
}
