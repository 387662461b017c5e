use evdev::{AbsoluteAxisType, EventType, InputEvent, Key};
use glide::algorithm::{GlideState, RollingWindowAlgorithm};
use glide::clock::{Clock, Duration, Instant};
use glide::input::{RawEvent, ABS_X, BTN_TOOL_FINGER, EV_ABS, EV_KEY};
use glide::record::{Record, RecordWriter};
use glide::session::{on_fetch_error, FetchFailure, Report, Session};
use glide::streak::ConsecutiveStreakAlgorithm;

fn at(millis: u64) -> Instant {
    Instant::since_origin(millis / 1_000, (millis % 1_000) as u32 * 1_000_000)
}

fn finger(value: i32) -> RawEvent {
    RawEvent { kind: EV_KEY, code: BTN_TOOL_FINGER, value }
}

fn x(value: i32) -> RawEvent {
    RawEvent { kind: EV_ABS, code: ABS_X, value }
}

fn streak_session(min_streak: u32) -> Session<ConsecutiveStreakAlgorithm> {
    Session::new(ConsecutiveStreakAlgorithm::new(2, min_streak), 2)
}

#[test]
fn only_a_lost_device_ends_the_session() {
    assert_eq!(on_fetch_error(Some(19)), FetchFailure::Disconnected);
    assert_eq!(on_fetch_error(Some(11)), FetchFailure::Retry);
    assert_eq!(on_fetch_error(None), FetchFailure::Retry);
}

#[test]
fn contact_is_an_episode() {
    let mut session = streak_session(2);
    let reports = session.process_events_at(&vec![finger(1), x(10)], at(100)).unwrap();
    assert_eq!(reports.len(), 2);
    assert!(matches!(&reports[0], Report::FingerDown { episode_id: 0, .. }));
    assert!(matches!(
        &reports[1],
        Report::Sample { episode_id: Some(0), is_motion: false, active: false, change: None, .. }
    ));
    let reports = session.process_events_at(&vec![x(20)], at(107)).unwrap();
    assert!(matches!(
        &reports[0],
        Report::Sample { is_motion: true, active: false, change: None, motion_ratio: None, .. }
    ));
    let reports = session.process_events_at(&vec![x(30)], at(114)).unwrap();
    assert_eq!(reports[0].state_change(), Some(GlideState::Active));
    assert!(session.record_keyboard_presses(4));
    let reports = session.process_events_at(&vec![finger(0)], at(200)).unwrap();
    assert_eq!(reports.len(), 1);
    assert_eq!(reports[0].state_change(), Some(GlideState::Inactive));
    match &reports[0] {
        Report::FingerUp { at: up, was_active, summary: Some(summary), .. } => {
            assert_eq!(*up, at(200));
            assert!(*was_active);
            assert!(summary.activated);
            assert_eq!(summary.duration, Duration::from_millis(100));
            assert_eq!(summary.activation_latency, Some(Duration::from_millis(14)));
            assert_eq!(summary.total_samples, 3);
            assert_eq!(summary.motion_samples, 2);
            assert_eq!(summary.longest_motion_run, 2);
            assert_eq!(summary.displacements_sq, vec![0, 100, 100]);
            assert_eq!(summary.kb_presses_during, 4);
        }
        _ => panic!("no summary"),
    }
    let reports = session.process_events_at(&vec![finger(1)], at(300)).unwrap();
    assert!(matches!(&reports[0], Report::FingerDown { episode_id: 1, .. }));
}

#[test]
fn lifting_without_contact_has_no_summary() {
    let mut session = streak_session(2);
    let reports = session.process_events_at(&vec![finger(0), x(5)], at(0)).unwrap();
    assert_eq!(reports.len(), 1);
    assert!(matches!(
        &reports[0],
        Report::FingerUp { was_active: false, change: None, summary: None, .. }
    ));
}

#[test]
fn window_session_reports_the_ratio() {
    let mut session = Session::new(RollingWindowAlgorithm::new(2, 200, 50), 2);
    session.process_events_at(&vec![finger(1), x(10)], at(0)).unwrap();
    let reports = session.process_events_at(&vec![x(20)], at(10)).unwrap();
    assert!(matches!(&reports[0], Report::Sample { motion_ratio: Some((1, 2)), .. }));
}

#[test]
fn batches_that_cannot_be_measured_are_refused() {
    let mut session = streak_session(2);
    session.process_events_at(&vec![finger(1), x(0)], at(0)).unwrap();
    assert!(session.process_events_at(&vec![x(46_341)], at(1)).is_none());
    let reports = session.process_events_at(&vec![x(3)], at(2)).unwrap();
    match &reports[0] {
        Report::Sample { sample, .. } => assert_eq!(sample.dx, 3),
        _ => panic!("no sample"),
    }
}

#[test]
fn presses_that_do_not_fit_are_refused() {
    let mut session = streak_session(2);
    assert!(session.record_keyboard_presses(u32::MAX));
    session.process_events_at(&vec![finger(1)], at(0)).unwrap();
    assert!(session.record_keyboard_presses(u32::MAX));
    assert!(!session.record_keyboard_presses(1));
}

#[test]
fn session_takes_evdev_events() {
    let clock = Clock::start();
    let mut session = streak_session(1);
    let down = InputEvent::new(EventType::KEY, Key::BTN_TOOL_FINGER.code(), 1);
    let up = InputEvent::new(EventType::KEY, Key::BTN_TOOL_FINGER.code(), 0);
    let x = |v| InputEvent::new(EventType::ABSOLUTE, AbsoluteAxisType::ABS_X.0, v);
    let mut changes = Vec::new();
    for batch in [vec![down, x(1)], vec![x(9)], vec![x(10)], vec![up]] {
        for report in session.process_events(&clock, &batch).unwrap() {
            changes.extend(report.state_change());
        }
    }
    assert_eq!(changes, vec![GlideState::Active, GlideState::Inactive]);
}

#[test]
fn reports_become_records() {
    let writer = RecordWriter::new(at(50));
    assert_eq!(writer.ts(at(75)), Duration::from_millis(25));
    assert_eq!(writer.ts(at(20)), Duration::from_millis(0));
    let label = Some("intentional".to_string());
    let mut session = streak_session(1);
    let mut records = Vec::new();
    for (batch, t) in [(vec![finger(1), x(1)], 100), (vec![x(4)], 110), (vec![finger(0)], 130)] {
        for report in session.process_events_at(&batch, at(t)).unwrap() {
            records.extend(writer.records(report, &label, Some((2, 3))));
        }
    }
    assert_eq!(records.len(), 5);
    match &records[0] {
        Record::FingerDown { timestamp, episode_id } => {
            assert_eq!((*timestamp, *episode_id), (Duration::from_millis(50), 0));
        }
        _ => panic!("no contact"),
    }
    match &records[1] {
        Record::Sample { glide_state, is_motion, .. } => {
            assert_eq!((glide_state.as_str(), *is_motion), ("inactive", false));
        }
        _ => panic!("no sample"),
    }
    match &records[2] {
        Record::Sample {
            timestamp,
            episode_id,
            x,
            y,
            dx,
            dy,
            displacement_sq,
            is_motion,
            glide_state,
            window_motion_ratio,
            kb_presses_last_500ms,
            kb_presses_last_1000ms,
        } => {
            assert_eq!(*timestamp, Duration::from_millis(60));
            assert_eq!(*episode_id, 0);
            assert_eq!((*x, *y, *dx, *dy, *displacement_sq), (4, 0, 3, 0, 9));
            assert!(*is_motion);
            assert_eq!(glide_state, "active");
            assert_eq!(*window_motion_ratio, None);
            assert_eq!(*kb_presses_last_500ms, Some(2));
            assert_eq!(*kb_presses_last_1000ms, Some(3));
        }
        _ => panic!("no sample"),
    }
    match &records[3] {
        Record::FingerUp { timestamp, episode_id, was_active } => {
            assert_eq!((*timestamp, *episode_id), (Duration::from_millis(80), 0));
            assert!(*was_active);
        }
        _ => panic!("no lifting"),
    }
    match &records[4] {
        Record::EpisodeSummary { label, start, end, summary } => {
            assert_eq!(label.as_deref(), Some("intentional"));
            assert_eq!(*start, Duration::from_millis(50));
            assert_eq!(*end, Duration::from_millis(80));
            assert_eq!(summary.total_samples, 2);
        }
        _ => panic!("no summary"),
    }
}

#[test]
fn lifting_without_contact_makes_no_record() {
    let writer = RecordWriter::new(at(0));
    let mut session = streak_session(1);
    for report in session.process_events_at(&vec![finger(0)], at(1)).unwrap() {
        assert!(writer.records(report, &None, None).is_empty());
    }
}
