use opentunnel::monitor::{backoff_delay, new_monitor, record_attempt, clear_attempts, try_begin_monitor, request_monitor_stop};

#[test]
fn backoff_base_five_doubles_and_caps() {
    // base delay 5: attempts 1,2,3,4,... wait 5,10,20,40,... capped at 300
    assert_eq!(backoff_delay(5, 1), 5);
    assert_eq!(backoff_delay(5, 2), 10);
    assert_eq!(backoff_delay(5, 3), 20);
    assert_eq!(backoff_delay(5, 4), 40);
    assert_eq!(backoff_delay(5, 5), 80);
    assert_eq!(backoff_delay(5, 6), 160);
    assert_eq!(backoff_delay(5, 7), 300);
    assert_eq!(backoff_delay(5, 8), 300);
    assert_eq!(backoff_delay(5, 100), 300);
}

#[test]
fn backoff_zero_base_stays_zero() {
    assert_eq!(backoff_delay(0, 1), 0);
    assert_eq!(backoff_delay(0, 9), 0);
}

#[test]
fn backoff_large_base_caps_immediately() {
    assert_eq!(backoff_delay(400, 1), 300);
    assert_eq!(backoff_delay(300, 1), 300);
    assert_eq!(backoff_delay(299, 1), 299);
    assert_eq!(backoff_delay(299, 2), 300);
}

#[test]
fn backoff_monotone_concrete() {
    let mut prev = backoff_delay(7, 1);
    for n in 2..40u32 {
        let d = backoff_delay(7, n);
        assert!(prev <= d);
        prev = d;
    }
}

#[test]
fn attempt_counter_increments_and_clears() {
    let mut mon = new_monitor();
    let id = String::from("t-1");
    assert_eq!(record_attempt(&mut mon, &id), 1);
    assert_eq!(record_attempt(&mut mon, &id), 2);
    assert_eq!(record_attempt(&mut mon, &id), 3);
    let other = String::from("t-2");
    assert_eq!(record_attempt(&mut mon, &other), 1);
    clear_attempts(&mut mon, &id);
    // a fresh failure starts over at attempt one
    assert_eq!(record_attempt(&mut mon, &id), 1);
    // the other tunnel's counter was untouched
    assert_eq!(record_attempt(&mut mon, &other), 2);
}

#[test]
fn monitor_start_is_idempotent() {
    let mut mon = new_monitor();
    assert!(!mon.running);
    assert!(try_begin_monitor(&mut mon));
    assert!(mon.running);
    // a second start while running claims nothing
    assert!(!try_begin_monitor(&mut mon));
    assert!(mon.running);
    request_monitor_stop(&mut mon);
    assert!(!mon.running);
}
