use swift_rt::refcount::{InlineRefCounts, UNOWNED_BASELINE, WEAK_BASELINE};

#[test]
fn new_counts() {
    let counts = InlineRefCounts::new();
    assert_eq!(
        counts,
        InlineRefCounts { strong: 1, unowned: 1, weak: 1, deallocating: false }
    );
    assert_eq!(UNOWNED_BASELINE, 1);
    assert_eq!(WEAK_BASELINE, 1);
    assert!(counts.is_at_baseline());
    assert!(!counts.can_be_freed());
}

#[test]
fn last_release_raises_the_flag() {
    let mut counts = InlineRefCounts::new();
    counts.retain(4);
    assert_eq!(counts.strong, 5);
    assert!(!counts.release(3));
    assert_eq!(counts.strong, 2);
    assert!(!counts.deallocating);
    assert!(!counts.release(1));
    assert!(counts.release(1));
    assert_eq!(counts.strong, 0);
    assert!(counts.deallocating);
    assert!(counts.can_be_freed());
}

#[test]
fn unowned_and_weak_counts_hold_the_header() {
    let mut counts = InlineRefCounts::new();
    counts.unowned_retain(2);
    counts.weak_retain();
    assert_eq!(counts.unowned, 3);
    assert_eq!(counts.weak, 2);
    assert!(counts.release(1));
    assert!(!counts.can_be_freed());
    counts.unowned_release(2);
    assert!(!counts.is_at_baseline());
    assert!(!counts.can_be_freed());
    counts.weak_release();
    assert!(counts.is_at_baseline());
    assert!(counts.can_be_freed());
}
