use std::cmp::Ordering;

use pohb::{ClockContext, OrdinaryClock, OrdinaryContext, ProofError};

fn clock(entries: &[(u32, u32)]) -> OrdinaryClock {
    OrdinaryClock::from_entries(entries.to_vec())
}

#[test]
fn genesis_is_genesis() {
    let g = OrdinaryClock::new_genesis();
    assert!(g.is_genesis());
    assert_eq!(g.count_of(0), 0);
    assert_eq!(g.count_of(17), 0);
}

#[test]
fn all_zero_entries_are_genesis() {
    assert!(clock(&[(1, 0), (2, 0)]).is_genesis());
    assert!(!clock(&[(1, 0), (2, 3)]).is_genesis());
}

#[test]
fn from_entries_first_entry_wins() {
    let c = clock(&[(1, 2), (1, 9)]);
    assert_eq!(c.count_of(1), 2);
}

#[test]
fn count_of_absent_node_is_zero() {
    let c = clock(&[(1, 2), (3, 4)]);
    assert_eq!(c.count_of(1), 2);
    assert_eq!(c.count_of(3), 4);
    assert_eq!(c.count_of(2), 0);
}

#[test]
fn partial_cmp_four_outcomes() {
    let a = clock(&[(1, 1)]);
    let b = clock(&[(1, 1), (2, 1)]);
    let d = clock(&[(2, 1)]);
    assert_eq!(a.partial_cmp(&a), Some(Ordering::Equal));
    assert_eq!(b.partial_cmp(&a), Some(Ordering::Greater));
    assert_eq!(a.partial_cmp(&b), Some(Ordering::Less));
    assert_eq!(a.partial_cmp(&d), None);
    assert_eq!(d.partial_cmp(&a), None);
}

#[test]
fn zero_entries_do_not_order() {
    // a node recorded with count 0 is the same as a node never recorded
    let empty = OrdinaryClock::new_genesis();
    let zeroed = clock(&[(1, 0)]);
    assert_eq!(empty.partial_cmp(&zeroed), Some(Ordering::Equal));
    assert!(empty == zeroed);
}

#[test]
fn partial_cmp_is_antisymmetric() {
    let pairs = [
        (clock(&[(1, 1)]), clock(&[(1, 1)])),
        (clock(&[(1, 2)]), clock(&[(1, 1)])),
        (clock(&[(1, 1)]), clock(&[(1, 1), (2, 4)])),
        (clock(&[(1, 1)]), clock(&[(2, 1)])),
    ];
    for (a, b) in &pairs {
        let forward = a.partial_cmp(b);
        let backward = b.partial_cmp(a);
        assert_eq!(forward, backward.map(Ordering::reverse));
        assert!(a == a);
        assert!(b == b);
    }
}

#[test]
fn merge_and_advance_exact_counts() {
    let d1 = clock(&[(1, 1)]);
    let d2 = clock(&[(1, 3), (2, 1)]);
    let merged = OrdinaryClock::new(&[&d1, &d2], 2);
    assert_eq!(merged.count_of(1), 3);
    assert_eq!(merged.count_of(2), 2);
    assert_eq!(merged.count_of(3), 0);
}

#[test]
fn merge_with_no_predecessors_counts_one_unit() {
    let first = OrdinaryClock::new(&[], 7);
    assert_eq!(first.count_of(7), 1);
    assert_eq!(first.count_of(1), 0);
    assert!(!first.is_genesis());
}

#[test]
fn advancing_node_absent_from_predecessors_still_counts() {
    let d1 = clock(&[(1, 5)]);
    let merged = OrdinaryClock::new(&[&d1], 9);
    assert_eq!(merged.count_of(1), 5);
    assert_eq!(merged.count_of(9), 1);
}

#[test]
fn merge_result_strictly_after_every_predecessor() {
    let d1 = clock(&[(1, 1)]);
    let d2 = clock(&[(2, 4)]);
    let d3 = clock(&[(1, 1), (3, 2)]);
    let merged = OrdinaryClock::new(&[&d1, &d2, &d3], 2);
    for dep in [&d1, &d2, &d3] {
        assert_eq!(merged.partial_cmp(dep), Some(Ordering::Greater));
        assert!(merged.dominates(dep));
        assert!(!dep.dominates(&merged));
    }
}

#[test]
fn genesis_precedes_derived_clocks() {
    let g = OrdinaryClock::new_genesis();
    let derived = OrdinaryClock::new(&[&g], 1);
    assert_eq!(g.partial_cmp(&derived), Some(Ordering::Less));
    assert_eq!(derived.partial_cmp(&g), Some(Ordering::Greater));
    assert_eq!(g.partial_cmp(&OrdinaryClock::new_genesis()), Some(Ordering::Equal));
}

#[test]
fn clone_carries_the_same_counts() {
    let c = clock(&[(1, 2), (5, 9)]);
    let copy = c.clone();
    assert_eq!(copy.count_of(1), 2);
    assert_eq!(copy.count_of(5), 9);
    assert_eq!(copy.partial_cmp(&c), Some(Ordering::Equal));
}

#[test]
fn entries_round_trip_through_counts() {
    let c = clock(&[(1, 2), (5, 9)]);
    let reread = OrdinaryClock::from_entries(c.entries().clone());
    assert_eq!(reread.count_of(1), 2);
    assert_eq!(reread.count_of(5), 9);
    assert_eq!(reread.count_of(2), 0);
}

#[test]
fn prove_merges_and_advances() {
    let context = OrdinaryContext::<u8, u8>::new(2);
    let d1 = clock(&[(1, 1)]);
    let produced = context.prove(&[(&d1, &10u8)], &20u8).unwrap();
    assert_eq!(produced.count_of(1), 1);
    assert_eq!(produced.count_of(2), 1);
    assert_eq!(produced.partial_cmp(&d1), Some(Ordering::Greater));
}

#[test]
fn prove_without_predecessors() {
    let context = OrdinaryContext::<u8, u8>::new(3);
    let produced = context.prove(&[], &20u8).unwrap();
    assert_eq!(produced.count_of(3), 1);
}

#[test]
fn prove_fails_on_counter_overflow() {
    let context = OrdinaryContext::<u8, u8>::new(1);
    let saturated = clock(&[(1, u32::MAX)]);
    let r = context.prove(&[(&saturated, &10u8)], &20u8);
    assert_eq!(r.unwrap_err(), ProofError::CounterOverflow);
}
