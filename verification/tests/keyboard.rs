use evdev::{EventType, InputEvent};
use glide::clock::{Clock, Duration, Instant};
use glide::input::{RawEvent, EV_KEY};
use glide::keyboard::{count_presses, new_presses, KeyboardMonitor};

fn at(millis: u64) -> Instant {
    Instant::since_origin(millis / 1_000, (millis % 1_000) as u32 * 1_000_000)
}

fn key(value: i32) -> RawEvent {
    RawEvent { kind: EV_KEY, code: 30, value }
}

#[test]
fn only_presses_count() {
    let mut monitor = KeyboardMonitor::new();
    let other = RawEvent { kind: 4, code: 4, value: 1 };
    monitor.poll_at(at(1_000), &vec![key(1), key(2), key(0), other, key(1)]);
    assert_eq!(monitor.presses_in_last_at(at(1_000), Duration::from_millis(0)), 2);
    assert_eq!(monitor.presses_in_last_at(at(1_500), Duration::from_millis(500)), 2);
    assert_eq!(monitor.presses_in_last_at(at(1_501), Duration::from_millis(500)), 0);
}

#[test]
fn presses_are_counted_by_age() {
    let mut monitor = KeyboardMonitor::new();
    for t in [1_000, 1_300, 1_900] {
        monitor.poll_at(at(t), &vec![key(1)]);
    }
    assert_eq!(monitor.presses_in_last_at(at(2_000), Duration::from_millis(500)), 1);
    assert_eq!(monitor.presses_in_last_at(at(2_000), Duration::from_millis(1_000)), 3);
    assert_eq!(monitor.presses_in_last_at(at(2_000), Duration::from_millis(699)), 1);
    assert_eq!(monitor.presses_in_last_at(at(2_000), Duration::from_millis(700)), 2);
    // A span that goes back too far counts from now.
    assert_eq!(monitor.presses_in_last_at(at(2_000), Duration::from_secs(u64::MAX)), 0);
}

#[test]
fn presses_are_forgotten_after_two_seconds() {
    let mut monitor = KeyboardMonitor::new();
    monitor.poll_at(at(1_000), &vec![key(1)]);
    monitor.poll_at(at(3_000), &vec![]);
    assert_eq!(monitor.presses_in_last_at(at(3_000), Duration::from_secs(60)), 1);
    monitor.poll_at(at(3_001), &vec![]);
    assert_eq!(monitor.presses_in_last_at(at(3_001), Duration::from_secs(60)), 0);
}

#[test]
fn polls_take_evdev_events() {
    let mut monitor = KeyboardMonitor::new();
    let press = InputEvent::new(EventType::KEY, 30, 1);
    let release = InputEvent::new(EventType::KEY, 30, 0);
    assert!(!monitor.poll(at(1_000), &Ok(vec![press, release, press])));
    assert_eq!(monitor.presses_in_last_at(at(1_000), Duration::from_secs(1)), 2);
}

#[test]
fn only_unexpected_errors_are_reported() {
    let mut monitor = KeyboardMonitor::new();
    monitor.poll_at(at(1_000), &vec![key(1)]);
    assert!(!monitor.poll(at(1_100), &Err(Some(11))));
    assert!(!monitor.poll(at(1_100), &Err(Some(19))));
    assert!(monitor.poll(at(1_100), &Err(Some(5))));
    assert!(monitor.poll(at(1_100), &Err(None)));
    assert_eq!(monitor.presses_in_last_at(at(1_100), Duration::from_secs(1)), 1);
    // Old presses are forgotten all the same.
    assert!(!monitor.poll(at(9_000), &Err(Some(11))));
    assert_eq!(monitor.presses_in_last_at(at(9_000), Duration::from_secs(60)), 0);
}

#[test]
fn presses_of_the_last_minute_by_the_clock() {
    let clock = Clock::start();
    let mut monitor = KeyboardMonitor::new();
    monitor.poll_at(clock.now(), &vec![key(1), key(1)]);
    assert_eq!(monitor.presses_in_last(&clock, Duration::from_secs(60)), 2);
}

#[test]
fn new_presses_are_those_of_the_poll() {
    let other = RawEvent { kind: 4, code: 4, value: 1 };
    assert_eq!(count_presses(&vec![]), 0);
    assert_eq!(count_presses(&vec![key(1), key(2), key(0), other, key(1)]), 2);
    let press = InputEvent::new(EventType::KEY, 30, 1);
    let release = InputEvent::new(EventType::KEY, 30, 0);
    assert_eq!(new_presses(&Ok(vec![press, release, press, press])), 3);
    assert_eq!(new_presses(&Ok(vec![])), 0);
    assert_eq!(new_presses(&Err(Some(11))), 0);
    assert_eq!(new_presses(&Err(None)), 0);
}
