//! What exists, and how often.
use machine_elves::ledger::{Ledger, Serial};
use sha2::Digest;

const JOB: [u8; 32] = [7; 32];

#[test]
fn the_same_production_has_the_same_identity() {
    // Two nodes, same code, same tick, same item. This is the whole idea.
    assert_eq!(Serial::derive(&JOB, 12, "widget", 0), Serial::derive(&JOB, 12, "widget", 0));
}

#[test]
fn different_productions_have_different_identities() {
    let base = Serial::derive(&JOB, 12, "widget", 0);
    assert_ne!(base, Serial::derive(&JOB, 13, "widget", 0), "different tick");
    assert_ne!(base, Serial::derive(&JOB, 12, "widget", 1), "different item");
    assert_ne!(base, Serial::derive(&JOB, 12, "gear", 0), "different kind");
    assert_ne!(base, Serial::derive(&[9; 32], 12, "widget", 0), "different job");
}

#[test]
fn a_kind_and_ordinal_cannot_be_confused_with_another_split() {
    // Without hashing the length, "ab" + 1 and "a" + something could collide
    // by running together into the same bytes.
    assert_ne!(Serial::derive(&JOB, 1, "ab", 0), Serial::derive(&JOB, 1, "a", 0));
}

#[test]
fn recording_the_same_thing_twice_records_it_once() {
    let mut ledger = Ledger::new();
    let serial = Serial::derive(&JOB, 5, "widget", 0);
    assert!(ledger.record("widget", serial), "first time is new");
    assert!(!ledger.record("widget", serial), "second time is not");
    assert_eq!(ledger.count("widget"), 1);
}

#[test]
fn two_nodes_doing_the_same_work_produce_one_inventory() {
    // The case this exists for: a job continued by two nodes at once. They
    // are deterministic, so they make the same things, so the world ends up
    // with the right number of them, with nobody deduplicating anything.
    let mut alone = Ledger::new();
    let mut node_a = Ledger::new();
    let mut node_b = Ledger::new();

    for tick in 0..20u64 {
        for ordinal in 0..2u32 {
            let serial = Serial::derive(&JOB, tick, "widget", ordinal);
            alone.record("widget", serial);
            node_a.record("widget", serial);
            node_b.record("widget", serial);
        }
    }

    node_a.merge(&node_b);
    assert_eq!(
        node_a.count("widget"),
        alone.count("widget"),
        "duplicated work must not duplicate the widgets"
    );
    assert_eq!(node_a.count("widget"), 40);
}

#[test]
fn merging_is_order_independent_and_repeatable() {
    // Nodes hear about the world in whatever order the network delivers it,
    // and may hear the same thing many times. Neither may change the answer.
    let mut first = Ledger::new();
    let mut second = Ledger::new();
    let mut third = Ledger::new();

    for tick in 0..10u64 {
        first.record("widget", Serial::derive(&JOB, tick, "widget", 0));
    }
    for tick in 5..15u64 {
        second.record("widget", Serial::derive(&JOB, tick, "widget", 0));
    }
    for tick in 12..20u64 {
        third.record("widget", Serial::derive(&JOB, tick, "widget", 0));
    }

    let mut one_way = first.clone();
    one_way.merge(&second);
    one_way.merge(&third);

    let mut other_way = third.clone();
    other_way.merge(&first);
    other_way.merge(&second);
    // And again, to show repetition changes nothing.
    other_way.merge(&second);
    other_way.merge(&first);

    assert_eq!(one_way.len(), other_way.len());
    assert_eq!(one_way.len(), 20);
}

#[test]
fn a_serial_is_the_digest_of_what_made_it() {
    // The digest of "machine-elves/serial/1", thirty-two zeros, eight zeros,
    // the length one, "x" and the ordinal two.
    let mut message = b"machine-elves/serial/1".to_vec();
    message.extend_from_slice(&[0; 40]);
    message.extend_from_slice(&[1, 0, 0, 0, b'x', 2, 0, 0, 0]);
    let digest: [u8; 32] = sha2::Sha256::digest(&message).into();
    let short: String = digest[..6].iter().map(|b| format!("{b:02x}")).collect();
    let serial = Serial::derive(&[0; 32], 0, "x", 2);
    assert_eq!(serial.short(), short);
    assert_eq!(serial.short().len(), 12);
}

#[test]
fn kinds_are_counted_apart() {
    let mut ledger = Ledger::default();
    assert!(ledger.is_empty());
    let serial = Serial::derive(&JOB, 1, "gear", 0);
    ledger.record("widget", Serial::derive(&JOB, 1, "widget", 0));
    ledger.record("gear", serial);
    ledger.record("widget", serial);
    assert!(!ledger.is_empty());
    assert_eq!((ledger.count("widget"), ledger.count("gear"), ledger.count("")), (2, 1, 0));
    assert_eq!(ledger.len(), 3);
}

#[test]
fn the_kinds_add_up_to_the_whole() {
    let mut ledger = Ledger::new();
    for tick in 0..6 {
        ledger.record(["gear", "nut", "widget"][tick % 3], Serial::derive(&JOB, tick as u64, "x", 0));
        ledger.record("nut", Serial::derive(&JOB, 0, "x", 0));
    }
    assert_eq!((ledger.count("gear"), ledger.count("nut"), ledger.count("widget")), (2, 3, 2));
    let whole: usize = ["gear", "nut", "widget"].iter().map(|kind| ledger.count(kind)).sum();
    assert_eq!(whole, ledger.len());
    assert_eq!(ledger.count("bolt"), 0);
}

#[test]
fn a_copy_holds_the_same_and_goes_its_own_way() {
    let mut ledger = Ledger::new();
    ledger.record("gear", Serial::derive(&JOB, 1, "gear", 0));
    let mut copy = ledger.clone();
    assert_eq!((copy.len(), copy.count("gear")), (1, 1));
    assert!(!copy.record("gear", Serial::derive(&JOB, 1, "gear", 0)));
    assert!(copy.record("gear", Serial::derive(&JOB, 2, "gear", 0)));
    assert_eq!((ledger.len(), copy.len()), (1, 2));
}
