use barad_dur::metrics::complexity::test_context::TestContext;

#[test]
fn index_merges_overlaps_and_checks_full_containment() {
    let index = TestContext::from_ranges(vec![20..30, 5..12, 0..10, 21..22]);
    assert!(index.contains(0..12));
    assert!(index.contains(25..30));
    assert!(!index.contains(12..21));
    assert!(!index.contains(19..30));
    assert!(!index.contains(25..31));
    assert!(!TestContext::from_ranges(vec![]).contains(0..1));
}

#[test]
fn touching_ranges_merge_into_one() {
    let index = TestContext::from_ranges(vec![10..20, 0..10]);
    assert!(index.contains(5..15));
    assert!(index.contains(0..20));
    assert!(!index.contains(0..21));
}

#[test]
fn ranges_with_a_gap_stay_apart() {
    let index = TestContext::from_ranges(vec![0..10, 11..20]);
    assert!(index.contains(0..10));
    assert!(index.contains(11..20));
    assert!(!index.contains(5..15));
    assert!(!index.contains(10..11));
}

#[test]
fn repeated_and_nested_ranges_change_nothing() {
    let index = TestContext::from_ranges(vec![3..8, 0..10, 3..8, 0..10]);
    assert!(index.contains(0..10));
    assert!(index.contains(2..9));
    assert!(!index.contains(9..11));
}
