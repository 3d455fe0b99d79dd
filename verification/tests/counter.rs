use matrix_cascade::counter::LimitedCounter;

#[test]
fn counter_of_one_wraps_every_time() {
    let mut counter = LimitedCounter::new(1);
    for _ in 0..5 {
        assert!(counter.tick());
    }
}

#[test]
fn counter_wraps_once_every_limit_advances() {
    let mut counter = LimitedCounter::new(3);
    let wrapped: Vec<bool> = (0..9).map(|_| counter.tick()).collect();
    assert_eq!(
        vec![false, false, true, false, false, true, false, false, true],
        wrapped
    );
}

#[test]
fn counter_with_largest_limit_does_not_overflow() {
    let mut counter = LimitedCounter::new(u16::MAX);
    let mut wraps = 0;
    for _ in 0..u16::MAX as u32 * 2 {
        if counter.tick() {
            wraps += 1;
        }
    }
    assert_eq!(2, wraps);
}

#[test]
fn counter_copies_are_independent() {
    let mut first = LimitedCounter::new(2);
    let mut second = first;
    assert!(!first.tick());
    assert!(first.tick());
    assert!(!second.tick());
}
