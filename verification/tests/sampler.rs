use evdev::{AbsoluteAxisType, EventType, InputEvent, Key};
use glide::clock::{Clock, Instant};
use glide::input::{
    read_event, read_events, RawEvent, Touch, ABS_MT_POSITION_X, ABS_MT_POSITION_Y, ABS_X, ABS_Y,
    BTN_TOOL_FINGER, EV_ABS, EV_KEY,
};
use glide::sampler::{Sample, TouchpadEvent, TouchpadSampler};

fn finger(value: i32) -> RawEvent {
    RawEvent { kind: EV_KEY, code: BTN_TOOL_FINGER, value }
}

fn abs(code: u16, value: i32) -> RawEvent {
    RawEvent { kind: EV_ABS, code, value }
}

fn at(millis: u64) -> Instant {
    Instant::since_origin(millis / 1_000, (millis % 1_000) as u32 * 1_000_000)
}

fn sample(event: &TouchpadEvent) -> Sample {
    match event {
        TouchpadEvent::Position(s) => *s,
        _ => panic!("no position"),
    }
}

#[test]
fn codes_are_those_of_evdev() {
    assert_eq!(EV_KEY, EventType::KEY.0);
    assert_eq!(EV_ABS, EventType::ABSOLUTE.0);
    assert_eq!(BTN_TOOL_FINGER, Key::BTN_TOOL_FINGER.code());
    assert_eq!(ABS_X, AbsoluteAxisType::ABS_X.0);
    assert_eq!(ABS_Y, AbsoluteAxisType::ABS_Y.0);
    assert_eq!(ABS_MT_POSITION_X, AbsoluteAxisType::ABS_MT_POSITION_X.0);
    assert_eq!(ABS_MT_POSITION_Y, AbsoluteAxisType::ABS_MT_POSITION_Y.0);
}

#[test]
fn event_fields_are_read() {
    let event = InputEvent::new(EventType::ABSOLUTE, 0x35, -7);
    assert_eq!(read_event(&event), RawEvent { kind: 3, code: 0x35, value: -7 });
    let key = InputEvent::new(EventType::KEY, 0x145, 1);
    assert_eq!(
        read_events(&[key, event]),
        vec![
            RawEvent { kind: 1, code: 0x145, value: 1 },
            RawEvent { kind: 3, code: 0x35, value: -7 },
        ]
    );
}

#[test]
fn events_have_their_meaning() {
    assert_eq!(finger(1).touch(), Touch::Down);
    assert_eq!(finger(2).touch(), Touch::Down);
    assert_eq!(finger(0).touch(), Touch::Up);
    assert_eq!(abs(ABS_X, 4).touch(), Touch::X(4));
    assert_eq!(abs(ABS_MT_POSITION_X, 5).touch(), Touch::X(5));
    assert_eq!(abs(ABS_Y, 6).touch(), Touch::Y(6));
    assert_eq!(abs(ABS_MT_POSITION_Y, 7).touch(), Touch::Y(7));
    assert_eq!(abs(0x18, 8).touch(), Touch::Other);
    assert_eq!(RawEvent { kind: EV_KEY, code: 0x110, value: 1 }.touch(), Touch::Other);
    assert_eq!(RawEvent { kind: 2, code: ABS_X, value: 1 }.touch(), Touch::Other);
}

#[test]
fn first_position_after_contact_has_no_displacement() {
    let mut sampler = TouchpadSampler::new();
    let out = sampler.process_events_at(&vec![finger(1), abs(ABS_X, 100), abs(ABS_Y, 50)], at(5));
    assert_eq!(out.len(), 2);
    assert_eq!(out[0], TouchpadEvent::FingerDown);
    assert_eq!(
        sample(&out[1]),
        Sample { timestamp: at(5), x: 100, y: 50, dx: 0, dy: 0, displacement_sq: 0 }
    );
    assert!(sampler.finger_down);
}

#[test]
fn positions_are_measured_from_the_one_before() {
    let mut sampler = TouchpadSampler::new();
    sampler.process_events_at(&vec![finger(1), abs(ABS_X, 100), abs(ABS_Y, 50)], at(0));
    let out = sampler.process_events_at(&vec![abs(ABS_X, 103), abs(ABS_Y, 46)], at(7));
    assert_eq!(out.len(), 1);
    assert_eq!(
        sample(&out[0]),
        Sample { timestamp: at(7), x: 103, y: 46, dx: 3, dy: -4, displacement_sq: 25 }
    );
    // A coordinate that is not reported stays as it was, and the last of several counts.
    let out = sampler.process_events_at(&vec![abs(ABS_Y, 1), abs(ABS_MT_POSITION_Y, 48)], at(14));
    assert_eq!(
        sample(&out[0]),
        Sample { timestamp: at(14), x: 103, y: 48, dx: 0, dy: 2, displacement_sq: 4 }
    );
}

#[test]
fn missing_first_coordinate_is_zero() {
    let mut sampler = TouchpadSampler::new();
    let out = sampler.process_events_at(&vec![finger(1), abs(ABS_Y, 9)], at(0));
    let s = sample(&out[1]);
    assert_eq!((s.x, s.y), (0, 9));
    let out = sampler.process_events_at(&vec![abs(ABS_X, 4)], at(1));
    let s = sample(&out[0]);
    assert_eq!((s.x, s.y, s.dx, s.dy, s.displacement_sq), (4, 9, 4, 0, 16));
}

#[test]
fn axes_are_ignored_without_a_finger() {
    let mut sampler = TouchpadSampler::new();
    let out = sampler.process_events_at(&vec![abs(ABS_X, 100), abs(ABS_Y, 50)], at(0));
    assert!(out.is_empty());
    // Coordinates reported before the finger came down do not count.
    let out = sampler.process_events_at(&vec![abs(ABS_X, 100), finger(1)], at(1));
    assert_eq!(out, vec![TouchpadEvent::FingerDown]);
}

#[test]
fn lifting_forgets_the_position() {
    let mut sampler = TouchpadSampler::new();
    sampler.process_events_at(&vec![finger(1), abs(ABS_X, 100), abs(ABS_Y, 50)], at(0));
    let out = sampler.process_events_at(&vec![abs(ABS_X, 120), finger(0)], at(7));
    assert_eq!(out, vec![TouchpadEvent::FingerUp]);
    assert!(!sampler.finger_down);
    assert_eq!(sampler.last_pos, None);
    let out = sampler.process_events_at(&vec![finger(1), abs(ABS_X, 500)], at(14));
    assert_eq!(sample(&out[1]).dx, 0);
}

#[test]
fn coordinates_outlive_a_new_contact_in_one_batch() {
    let mut sampler = TouchpadSampler::new();
    let batch = vec![finger(1), abs(ABS_X, 10), finger(0), finger(1)];
    let out = sampler.process_events_at(&batch, at(0));
    assert_eq!(out.len(), 4);
    assert_eq!(sample(&out[3]).x, 10);
}

#[test]
fn distances_too_large_are_told_apart() {
    let mut sampler = TouchpadSampler::new();
    sampler.process_events_at(&vec![finger(1), abs(ABS_X, 0), abs(ABS_Y, 0)], at(0));
    assert!(sampler.can_process(&vec![abs(ABS_X, 46_340)]));
    assert!(!sampler.can_process(&vec![abs(ABS_X, 46_341)]));
    assert!(!sampler.can_process(&vec![abs(ABS_X, 40_000), abs(ABS_Y, -40_000)]));
    assert!(!sampler.can_process(&vec![abs(ABS_X, i32::MIN), abs(ABS_Y, i32::MIN)]));
    // Where a contact comes first, there is nothing to measure.
    assert!(sampler.can_process(&vec![finger(1), abs(ABS_X, 46_341)]));
}

#[test]
fn evdev_events_are_processed() {
    let clock = Clock::start();
    let mut sampler = TouchpadSampler::new();
    let out = sampler.process_events(
        &clock,
        &[
            InputEvent::new(EventType::KEY, Key::BTN_TOOL_FINGER.code(), 1),
            InputEvent::new(EventType::ABSOLUTE, AbsoluteAxisType::ABS_X.0, 12),
            InputEvent::new(EventType::ABSOLUTE, AbsoluteAxisType::ABS_MT_POSITION_Y.0, 34),
            InputEvent::new(EventType::SYNCHRONIZATION, 0, 0),
        ],
    );
    assert_eq!(out.len(), 2);
    assert_eq!(out[0], TouchpadEvent::FingerDown);
    let s = sample(&out[1]);
    assert_eq!((s.x, s.y), (12, 34));
    assert!(s.timestamp.is_before(&Instant::since_origin(60, 0)));
    let out = sampler.process_events(
        &clock,
        &[InputEvent::new(EventType::KEY, Key::BTN_TOOL_FINGER.code(), 0)],
    );
    assert_eq!(out, vec![TouchpadEvent::FingerUp]);
}

#[test]
fn plain_and_multi_touch_axes_are_interchangeable() {
    let batches = |x: u16, y: u16| {
        vec![
            vec![finger(1), abs(x, 10), abs(y, 20)],
            vec![abs(y, 24), abs(x, 13), abs(0x30, 9)],
            vec![abs(x, 11)],
            vec![finger(0), abs(x, 5)],
        ]
    };
    let plain = batches(ABS_X, ABS_Y);
    for (x, y) in [
        (ABS_MT_POSITION_X, ABS_MT_POSITION_Y),
        (ABS_MT_POSITION_X, ABS_Y),
        (ABS_X, ABS_MT_POSITION_Y),
    ] {
        let mut first = TouchpadSampler::new();
        let mut second = TouchpadSampler::new();
        let mut t = 0;
        for (a, b) in plain.iter().zip(batches(x, y).iter()) {
            t += 7;
            assert_eq!(first.can_process(a), second.can_process(b));
            assert_eq!(first.process_events_at(a, at(t)), second.process_events_at(b, at(t)));
            assert_eq!(first.finger_down, second.finger_down);
            assert_eq!(first.last_pos, second.last_pos);
        }
    }
}
