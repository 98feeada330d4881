use codrop::{Causality, VClock};

#[test]
fn vclock_detects_concurrency() {
    let mut a = VClock::new();
    let mut b = VClock::new();
    assert_eq!(a.compare(&b), Causality::Equal);

    a.increment("dev1");
    assert_eq!(a.compare(&b), Causality::After);
    assert_eq!(b.compare(&a), Causality::Before);

    // Independent edit on another device => concurrent (a real conflict).
    b.increment("dev2");
    assert_eq!(a.compare(&b), Causality::Concurrent);

    // Merging takes the per-device max and dominates both inputs.
    let mut merged = a.clone();
    merged.merge(&b);
    assert_eq!(merged.compare(&a), Causality::After);
    assert_eq!(merged.compare(&b), Causality::After);
}

fn clock(entries: &[(&str, u64)]) -> VClock {
    VClock::from_entries(&entries.iter().map(|(d, n)| (d.to_string(), *n)).collect())
}

#[test]
fn counters_are_kept_per_device() {
    let mut c = VClock::new();
    assert_eq!(c.get("x"), 0);
    c.increment("x");
    c.increment("x");
    c.increment("y");
    assert_eq!(c.get("x"), 2);
    assert_eq!(c.get("y"), 1);
    assert_eq!(c.entries(), vec![("x".to_string(), 2), ("y".to_string(), 1)]);
    assert_eq!(VClock::default(), VClock::new());
}

#[test]
fn a_counter_of_zero_is_no_counter() {
    assert_eq!(clock(&[("a", 0)]).compare(&VClock::new()), Causality::Equal);
    assert_eq!(clock(&[("a", 0), ("b", 1)]).compare(&clock(&[("b", 1)])), Causality::Equal);
}

#[test]
fn later_entries_of_a_device_replace_earlier_ones() {
    let c = clock(&[("a", 5), ("b", 1), ("a", 2)]);
    assert_eq!(c.get("a"), 2);
}

#[test]
fn merging_is_the_maximum_either_way() {
    let a = clock(&[("a", 3), ("b", 1)]);
    let b = clock(&[("b", 2), ("c", 4)]);
    let mut ab = a.clone();
    ab.merge(&b);
    let mut ba = b.clone();
    ba.merge(&a);
    assert_eq!(ab, ba);
    assert_eq!(ab, clock(&[("a", 3), ("b", 2), ("c", 4)]));
    let mut again = ab.clone();
    again.merge(&ab);
    assert_eq!(again, ab);
}

#[test]
fn before_is_transitive() {
    let a = clock(&[("a", 1)]);
    let b = clock(&[("a", 2)]);
    let c = clock(&[("a", 2), ("b", 1)]);
    assert_eq!(a.compare(&b), Causality::Before);
    assert_eq!(b.compare(&c), Causality::Before);
    assert_eq!(a.compare(&c), Causality::Before);
    assert_eq!(c.compare(&a), Causality::After);
}
