use file_search::debounce::{Debounce, DEBOUNCE_INTERVAL_MS};

#[test]
fn interval_is_150_ms() {
    assert_eq!(DEBOUNCE_INTERVAL_MS, 150);
}

#[test]
fn burst_of_edits_fires_once_after_the_pause() {
    let mut timer = Debounce::new(0, DEBOUNCE_INTERVAL_MS);
    let mut fired = 0;
    // five edits, 20 ms apart, with a tick between each
    for k in 0..5u64 {
        let at = 1000 + 20 * k;
        timer.record_edit(at);
        if timer.poll(at + 10) {
            fired += 1;
        }
    }
    // last edit at 1080: nothing before 1230
    assert!(!timer.poll(1229));
    assert_eq!(fired, 0);
    assert!(timer.is_due(1230));
    assert!(timer.poll(1230));
    // the same idle period does not fire again
    assert!(!timer.poll(1231));
    assert!(!timer.poll(5000));
    assert!(!timer.poll(10_000_000));
}

#[test]
fn edit_arms_the_timer_again() {
    let mut timer = Debounce::new(0, 150);
    assert!(timer.poll(150));
    assert!(!timer.poll(400));
    timer.record_edit(500);
    assert!(!timer.poll(649));
    assert!(timer.poll(650));
    assert!(!timer.poll(651));
}

#[test]
fn new_timer_counts_its_start_as_an_edit() {
    let mut timer = Debounce::new(100, 150);
    assert!(!timer.is_due(249));
    assert!(timer.is_due(250));
    assert!(timer.poll(250));
}

#[test]
fn clock_before_the_edit_counts_as_no_time() {
    let mut timer = Debounce::new(1000, 150);
    assert!(!timer.poll(10));
    assert!(!timer.is_due(1149));
    assert!(timer.is_due(1150));
}
