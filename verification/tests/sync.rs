use swift_rt::sync::Once;

#[test]
fn function_runs_once() {
    let mut once = Once::new();
    assert!(!once.is_completed());
    let mut runs = 0;
    assert_eq!(once.call_once(|| { runs += 1; 7 }), Some(7));
    assert!(once.is_completed());
    assert_eq!(once.call_once(|| { runs += 1; 8 }), None);
    assert_eq!(once.call_once(|| { runs += 1; 9 }), None);
    assert_eq!(runs, 1);
}
