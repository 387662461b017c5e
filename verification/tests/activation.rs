use evdev::{AbsoluteAxisType, EventType, InputEvent, Key};
use glide::algorithm::{ActivationAlgorithm, GlideState, RollingWindowAlgorithm};
use glide::clock::{Clock, Instant};
use glide::detector::MotionDetector;
use glide::input::{RawEvent, ABS_X, ABS_Y, BTN_TOOL_FINGER, EV_ABS, EV_KEY};
use glide::sampler::{Sample, TouchpadEvent, TouchpadSampler};
use glide::streak::ConsecutiveStreakAlgorithm;

fn at(millis: u64) -> Instant {
    Instant::since_origin(millis / 1_000, (millis % 1_000) as u32 * 1_000_000)
}

fn moved(millis: u64, dx: i32, dy: i32) -> Sample {
    Sample { timestamp: at(millis), x: 0, y: 0, dx, dy, displacement_sq: dx * dx + dy * dy }
}

fn finger(value: i32) -> RawEvent {
    RawEvent { kind: EV_KEY, code: BTN_TOOL_FINGER, value }
}

fn abs(code: u16, value: i32) -> RawEvent {
    RawEvent { kind: EV_ABS, code, value }
}

#[test]
fn window_activates_when_filled_up_to_the_margin() {
    let mut window = RollingWindowAlgorithm::new(2, 200, 50);
    window.on_finger_down();
    let mut t = 1_000;
    while t < 1_180 {
        assert_eq!(window.on_sample(&moved(t, 2, 0)), None);
        t += 10;
    }
    assert!(!window.is_active());
    assert_eq!(window.on_sample(&moved(1_180, 2, 0)), Some(GlideState::Active));
    assert!(window.is_active());
    // An active algorithm takes in no more samples.
    assert_eq!(window.on_sample(&moved(1_190, 2, 0)), None);
    assert_eq!(window.current_motion_ratio(), Some((19, 19)));
}

#[test]
fn window_threshold_is_a_distance() {
    let mut window = RollingWindowAlgorithm::new(5, 0, 100);
    window.on_sample(&moved(0, 4, 3));
    assert_eq!(window.current_motion_ratio(), Some((1, 1)));
    window.on_finger_down();
    window.on_sample(&moved(0, 4, 2));
    assert_eq!(window.current_motion_ratio(), Some((0, 1)));
    window.on_finger_down();
    assert_eq!(window.current_motion_ratio(), None);
}

#[test]
fn window_ratio_is_not_rounded() {
    // Two of three samples are more than 66 percent.
    for (ratio, change) in [(66, Some(GlideState::Active)), (67, None)] {
        let mut window = RollingWindowAlgorithm::new(1, 100, ratio);
        assert_eq!(window.on_sample(&moved(0, 0, 0)), None);
        assert_eq!(window.on_sample(&moved(50, 3, 0)), None);
        assert_eq!(window.on_sample(&moved(80, 3, 0)), change);
    }
}

#[test]
fn window_ratio_has_to_be_exceeded() {
    // One of two samples is exactly 50 percent.
    for (ratio, change) in [(49, Some(GlideState::Active)), (50, None), (51, None)] {
        let mut window = RollingWindowAlgorithm::new(2, 200, ratio);
        assert_eq!(window.on_sample(&moved(1_000, 0, 0)), None);
        assert_eq!(window.on_sample(&moved(1_200, 2, 0)), change);
        assert_eq!(window.is_active(), change.is_some());
    }
    // More than all samples never have motion.
    for (ratio, change) in [(99, Some(GlideState::Active)), (100, None), (u16::MAX, None)] {
        let mut window = RollingWindowAlgorithm::new(2, 200, ratio);
        assert_eq!(window.on_sample(&moved(1_000, 2, 0)), None);
        assert_eq!(window.on_sample(&moved(1_200, 2, 0)), change);
    }
}

#[test]
fn detector_ratio_has_to_be_reached() {
    // One of two samples is exactly 50 percent.
    for (ratio, change) in [(50, Some(GlideState::Active)), (51, None)] {
        let mut detector = MotionDetector::new(2, 200, ratio);
        detector.finger_down();
        assert_eq!(detector.position_update_at(at(1_000), Some(0), Some(0)), None);
        assert_eq!(detector.position_update_at(at(1_200), Some(2), None), change);
    }
    // Two of three samples are less than 67 percent.
    for (ratio, change) in [(66, Some(GlideState::Active)), (67, None)] {
        let mut detector = MotionDetector::new(2, 200, ratio);
        detector.finger_down();
        assert_eq!(detector.position_update_at(at(1_000), Some(0), Some(0)), None);
        assert_eq!(detector.position_update_at(at(1_100), Some(2), None), None);
        assert_eq!(detector.position_update_at(at(1_200), Some(4), None), change);
    }
}

#[test]
fn window_lets_go_of_old_samples() {
    let mut window = RollingWindowAlgorithm::new(1, 100, 49);
    for t in [0, 10, 20] {
        window.on_sample(&moved(t, 0, 0));
    }
    assert_eq!(window.current_motion_ratio(), Some((0, 3)));
    // The samples at 0 and 10 are more than 100 ms old, the one at 20 is exactly that.
    assert_eq!(window.on_sample(&moved(120, 5, 0)), Some(GlideState::Active));
    assert_eq!(window.current_motion_ratio(), Some((1, 2)));
}

#[test]
fn window_with_one_sample_does_not_activate() {
    let mut window = RollingWindowAlgorithm::new(1, 0, 0);
    assert_eq!(window.on_sample(&moved(0, 5, 0)), None);
    assert_eq!(window.on_sample(&moved(0, 5, 0)), Some(GlideState::Active));
}

#[test]
fn longest_window_keeps_all_samples_and_never_fills() {
    let mut window = RollingWindowAlgorithm::new(1, u64::MAX, 0);
    for t in [0, 1_000_000, 2_000_000] {
        assert_eq!(window.on_sample(&moved(t, 5, 0)), None);
    }
    assert_eq!(window.current_motion_ratio(), Some((3, 3)));
}

#[test]
fn lifting_deactivates_once() {
    let mut window = RollingWindowAlgorithm::new(1, 0, 0);
    assert_eq!(window.on_finger_up(), None);
    window.on_sample(&moved(0, 5, 0));
    window.on_sample(&moved(0, 5, 0));
    assert_eq!(window.on_finger_up(), Some(GlideState::Inactive));
    assert!(!window.is_active());
    assert_eq!(window.on_finger_up(), None);
    assert_eq!(window.current_motion_ratio(), None);
}

#[test]
fn resting_finger_never_fills_the_window() {
    let mut window = RollingWindowAlgorithm::new(2, 100, 0);
    for i in 0..100 {
        assert_eq!(window.on_sample(&moved(i * 7, 1, 1)), None);
    }
    assert!(!window.is_active());
}

#[test]
fn streak_activates_at_its_length() {
    let mut streak = ConsecutiveStreakAlgorithm::new(2, 16);
    streak.on_finger_down();
    for i in 0..15 {
        assert_eq!(streak.on_sample(&moved(i * 7, 2, 0)), None);
    }
    assert_eq!(streak.on_sample(&moved(105, 0, -2)), Some(GlideState::Active));
    assert!(streak.is_active());
    assert_eq!(streak.on_sample(&moved(112, 0, 0)), None);
    assert!(streak.is_active());
    assert_eq!(streak.on_finger_up(), Some(GlideState::Inactive));
    assert_eq!(streak.on_finger_up(), None);
    assert_eq!(streak.current_motion_ratio(), None);
}

#[test]
fn streak_is_broken_by_rest_and_by_contact() {
    let mut streak = ConsecutiveStreakAlgorithm::new(2, 3);
    for (dx, dy) in [(2, 0), (2, 0), (1, 1), (2, 0), (2, 0)] {
        assert_eq!(streak.on_sample(&moved(0, dx, dy)), None);
    }
    streak.on_finger_down();
    assert_eq!(streak.on_sample(&moved(0, 9, 9)), None);
    assert_eq!(streak.on_sample(&moved(0, 9, 9)), None);
    assert_eq!(streak.on_sample(&moved(0, 9, 9)), Some(GlideState::Active));
}

#[test]
fn streak_of_none_still_takes_motion() {
    let mut streak = ConsecutiveStreakAlgorithm::new(2, 0);
    assert_eq!(streak.on_sample(&moved(0, 0, 0)), None);
    assert_eq!(streak.on_sample(&moved(0, 2, 0)), Some(GlideState::Active));
}

#[test]
fn transitions_take_turns() {
    let mut streak = ConsecutiveStreakAlgorithm::new(1, 2);
    let mut changes = Vec::new();
    for _ in 0..3 {
        streak.on_finger_down();
        for i in 0..5 {
            changes.extend(streak.on_sample(&moved(i, 1, 0)));
        }
        changes.extend(streak.on_finger_up());
        changes.extend(streak.on_finger_up());
    }
    assert_eq!(
        changes,
        vec![
            GlideState::Active,
            GlideState::Inactive,
            GlideState::Active,
            GlideState::Inactive,
            GlideState::Active,
            GlideState::Inactive,
        ]
    );
}

#[test]
fn detector_ignores_positions_without_a_finger() {
    let mut detector = MotionDetector::new(2, 0, 0);
    assert_eq!(detector.position_update_at(at(0), Some(1), Some(2)), None);
    detector.finger_down();
    assert_eq!(detector.position_update_at(at(0), None, None), None);
    assert_eq!(detector.position_update_at(at(0), Some(1), None), None);
    assert_eq!(detector.position_update_at(at(0), Some(1), None), Some(GlideState::Active));
    assert_eq!(detector.position_update_at(at(0), Some(1), None), None);
    assert_eq!(detector.finger_up(), Some(GlideState::Inactive));
    assert_eq!(detector.finger_up(), None);
}

#[test]
fn detector_first_position_is_no_motion() {
    // Even with a threshold of zero one of two samples lacks motion.
    let mut detector = MotionDetector::new(0, 0, 51);
    detector.finger_down();
    assert_eq!(detector.position_update_at(at(0), Some(1), Some(1)), None);
    assert_eq!(detector.position_update_at(at(0), Some(1), Some(1)), None);
    assert_eq!(detector.position_update_at(at(0), Some(1), Some(1)), Some(GlideState::Active));
}

#[test]
fn detector_reads_the_clock() {
    let clock = Clock::start();
    // A window no longer than the margin takes only two samples that it holds together.
    let mut detector = MotionDetector::new(2, 20, 50);
    detector.finger_down();
    assert_eq!(detector.position_update(&clock, Some(0), None), None);
    let mut x = 0;
    let mut change = None;
    while change.is_none() && x < 40_000 {
        x += 10;
        change = detector.position_update(&clock, Some(x), None);
    }
    assert_eq!(change, Some(GlideState::Active));
}

#[test]
fn detector_agrees_with_sampler_and_window() {
    // No share of less than a hundred samples is exactly 41 percent.
    let mut detector = MotionDetector::new(3, 60, 41);
    let mut sampler = TouchpadSampler::new();
    let mut window = RollingWindowAlgorithm::new(3, 60, 41);
    let mut seed: u32 = 1;
    let mut all = Vec::new();
    for step in 0..2_000u64 {
        let mut batch = Vec::new();
        for _ in 0..3 {
            seed = seed.wrapping_mul(1_103_515_245).wrapping_add(12_345);
            let value = (seed >> 16) as i32 % 7;
            batch.push(match (seed >> 8) % 40 {
                0 => finger(0),
                1 => finger(1),
                n if n % 2 == 0 => abs(ABS_X, value),
                _ => abs(ABS_Y, value),
            });
        }
        assert!(detector.can_handle(&batch));
        let changes = detector.handle_events_at(&batch, at(step * 7));
        let mut expected = Vec::new();
        for event in sampler.process_events_at(&batch, at(step * 7)) {
            match event {
                TouchpadEvent::FingerDown => window.on_finger_down(),
                TouchpadEvent::FingerUp => expected.extend(window.on_finger_up()),
                TouchpadEvent::Position(s) => expected.extend(window.on_sample(&s)),
            }
        }
        assert_eq!(changes, expected);
        all.extend(changes);
    }
    assert!(all.len() > 4);
    for (i, change) in all.iter().enumerate() {
        let turn = if i % 2 == 0 { GlideState::Active } else { GlideState::Inactive };
        assert_eq!(*change, turn);
    }
}

#[test]
fn detector_handles_evdev_events() {
    let clock = Clock::start();
    let mut detector = MotionDetector::new(2, 20, 50);
    let down = InputEvent::new(EventType::KEY, Key::BTN_TOOL_FINGER.code(), 1);
    let up = InputEvent::new(EventType::KEY, Key::BTN_TOOL_FINGER.code(), 0);
    let x = |v| InputEvent::new(EventType::ABSOLUTE, AbsoluteAxisType::ABS_X.0, v);
    assert_eq!(detector.handle_events(&clock, &[down, x(10)]), Some(vec![]));
    let mut v = 10;
    let mut changes = Vec::new();
    while changes.is_empty() && v < 40_000 {
        v += 10;
        changes = detector.handle_events(&clock, &[x(v)]).unwrap();
    }
    assert_eq!(changes, vec![GlideState::Active]);
    assert_eq!(detector.handle_events(&clock, &[x(30)]), Some(vec![]));
    assert_eq!(detector.handle_events(&clock, &[up]), Some(vec![GlideState::Inactive]));
}

#[test]
fn detector_refuses_what_it_cannot_measure() {
    let clock = Clock::start();
    let down = InputEvent::new(EventType::KEY, Key::BTN_TOOL_FINGER.code(), 1);
    let x = |v| InputEvent::new(EventType::ABSOLUTE, AbsoluteAxisType::ABS_X.0, v);
    let mut detector = MotionDetector::new(2, 200, 50);
    assert_eq!(detector.handle_events(&clock, &[down, x(0)]), Some(vec![]));
    assert_eq!(detector.handle_events(&clock, &[x(46_341)]), None);
    assert_eq!(detector.handle_events(&clock, &[x(46_340)]), Some(vec![]));
    let mut detector = MotionDetector::new(46_341, 200, 50);
    assert_eq!(detector.handle_events(&clock, &[down, x(0)]), Some(vec![]));
    assert_eq!(detector.handle_events(&clock, &[x(1)]), None);
}
