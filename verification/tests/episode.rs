use glide::clock::{Duration, Instant};
use glide::episode::EpisodeTracker;
use glide::sampler::Sample;

fn at(millis: u64) -> Instant {
    Instant::since_origin(millis / 1_000, (millis % 1_000) as u32 * 1_000_000)
}

fn moved(dx: i32, dy: i32) -> Sample {
    Sample { timestamp: at(0), x: 0, y: 0, dx, dy, displacement_sq: dx * dx + dy * dy }
}

#[test]
fn nothing_to_end_without_an_episode() {
    let mut tracker = EpisodeTracker::new(2);
    assert_eq!(tracker.current_episode_id(), None);
    assert!(tracker.end_episode(at(0)).is_none());
    // Samples are classified even so.
    assert!(tracker.record_sample(&moved(2, 0)));
    assert!(!tracker.record_sample(&moved(1, 1)));
    tracker.record_activation(at(0));
    tracker.record_keyboard_presses(3);
    assert!(tracker.end_episode(at(0)).is_none());
}

#[test]
fn summary_has_the_statistics_of_the_samples() {
    let mut tracker = EpisodeTracker::new(3);
    assert_eq!(tracker.begin_episode(at(1_000)), 0);
    assert_eq!(tracker.current_episode_id(), Some(0));
    for (dx, dy, motion) in [
        (3, 0, true),
        (0, 0, false),
        (3, 4, true),
        (0, -3, true),
        (2, 2, false),
        (5, 5, true),
    ] {
        assert_eq!(tracker.record_sample(&moved(dx, dy)), motion);
    }
    tracker.record_activation(at(1_120));
    tracker.record_keyboard_presses(2);
    tracker.record_keyboard_presses(5);
    let summary = tracker.end_episode(at(1_500)).unwrap();
    assert_eq!(summary.id, 0);
    assert_eq!(summary.start, at(1_000));
    assert_eq!(summary.end, at(1_500));
    assert_eq!(summary.duration, Duration::from_millis(500));
    assert_eq!(summary.total_samples, 6);
    assert_eq!(summary.motion_samples, 4);
    assert_eq!(summary.displacements_sq, vec![9, 0, 25, 9, 8, 50]);
    assert_eq!(summary.max_displacement_sq, 50);
    assert_eq!(summary.longest_motion_run, 2);
    assert!(summary.activated);
    assert_eq!(summary.activation_latency, Some(Duration::from_millis(120)));
    assert_eq!(summary.kb_presses_during, 7);
    assert_eq!(tracker.current_episode_id(), None);
}

#[test]
fn empty_episode_has_an_empty_summary() {
    let mut tracker = EpisodeTracker::new(3);
    tracker.begin_episode(at(10));
    let summary = tracker.end_episode(at(10)).unwrap();
    assert_eq!(summary.duration, Duration::from_millis(0));
    assert_eq!(summary.total_samples, 0);
    assert_eq!(summary.motion_samples, 0);
    assert!(summary.displacements_sq.is_empty());
    assert_eq!(summary.max_displacement_sq, 0);
    assert_eq!(summary.longest_motion_run, 0);
    assert!(!summary.activated);
    assert_eq!(summary.activation_latency, None);
}

#[test]
fn episode_ids_are_counted_up() {
    let mut tracker = EpisodeTracker::new(3);
    assert_eq!(tracker.begin_episode(at(0)), 0);
    tracker.record_sample(&moved(9, 9));
    // A new episode takes the place of one that has not ended.
    assert_eq!(tracker.begin_episode(at(5)), 1);
    let summary = tracker.end_episode(at(6)).unwrap();
    assert_eq!((summary.id, summary.total_samples), (1, 0));
    assert_eq!(tracker.begin_episode(at(7)), 2);
}

#[test]
fn later_activation_takes_the_place_of_an_earlier_one() {
    let mut tracker = EpisodeTracker::new(3);
    tracker.begin_episode(at(0));
    tracker.record_activation(at(10));
    tracker.record_activation(at(25));
    let summary = tracker.end_episode(at(100)).unwrap();
    assert_eq!(summary.activation_latency, Some(Duration::from_millis(25)));
}

#[test]
fn room_for_presses_is_limited() {
    let mut tracker = EpisodeTracker::new(3);
    assert!(tracker.has_press_room(u32::MAX));
    assert!(tracker.has_room(1_000));
    tracker.begin_episode(at(0));
    tracker.record_keyboard_presses(u32::MAX - 1);
    assert!(tracker.has_press_room(1));
    assert!(!tracker.has_press_room(2));
    assert!(!tracker.has_room(usize::MAX));
}

#[test]
fn summaries_can_be_cloned() {
    let mut tracker = EpisodeTracker::new(2);
    tracker.begin_episode(at(1_000));
    tracker.record_sample(&moved(3, 4));
    let summary = tracker.end_episode(at(1_500)).unwrap();
    let copy = summary.clone();
    assert_eq!(copy.id, summary.id);
    assert_eq!(copy.total_samples, 1);
    assert_eq!(copy.displacements_sq, vec![25]);
}
