//! A detector that goes from input events to activation in one step, over a rolling window.
use std::collections::VecDeque;

use vstd::prelude::*;

use crate::algorithm::{
    after_events, transition, transitions, GlideState, RollingWindowAlgorithm, WindowModel,
    MAX_MOTION_THRESHOLD,
};
use crate::clock::{cutoff, millis, Clock, Duration, Instant, EARLIEST_NANOS};
use crate::input::{raw_events, read_events, RawEvent};
use crate::sampler::{
    contacts, delta, distance_sq, is_contact, is_down_at, is_last_horizontal, is_last_vertical,
    is_near, law_last_contact_decides, lemma_components_fit, lemma_scan_by_index, next_position,
    norm_sq, position, sample, scan, SamplerState, TouchpadEvent, TouchpadSampler,
};
use crate::window::{
    count_motion, drop_stale, fills_window, fresh, is_filled, law_reaching_and_exceeding,
    law_window_is_judged_by_counts, lemma_fresh_again, marks, motion_count, percentage,
    reaches_ratio,
};

verus! {

/// What a motion detector keeps.
pub struct DetectorModel {
    pub finger_down: bool,
    pub last_pos: Option<(i32, i32)>,
    /// The activity, the settings and the samples.
    pub window: WindowModel,
}

impl DetectorModel {
    /// The model after the finger came down.
    pub open spec fn after_finger_down(self) -> DetectorModel {
        DetectorModel {
            finger_down: true,
            last_pos: None,
            window: WindowModel { samples: Seq::empty(), ..self.window },
        }
    }

    /// The model after the finger was lifted.
    pub open spec fn after_finger_up(self) -> DetectorModel {
        DetectorModel {
            finger_down: false,
            last_pos: None,
            window: WindowModel { active: false, samples: Seq::empty(), ..self.window },
        }
    }

    /// Whether a report of coordinates is taken in: the finger is down, there is no activity yet,
    /// and at least one coordinate is there.
    pub open spec fn takes_in(self, x: Option<i32>, y: Option<i32>) -> bool {
        self.finger_down && !self.window.active && (x is Some || y is Some)
    }

    /// Whether the squares of the distance that is taken in and of the threshold that it is held
    /// against can be represented.
    pub open spec fn can_measure(self, x: Option<i32>, y: Option<i32>) -> bool {
        self.takes_in(x, y) && self.last_pos is Some ==> is_near(self.last_pos, x, y)
            && self.window.threshold_sq <= i32::MAX
    }

    /// Whether a report of coordinates is motion; the first one after the finger came down is not.
    pub open spec fn is_motion(self, x: Option<i32>, y: Option<i32>) -> bool {
        let d = delta(self.last_pos, position(self.last_pos, x, y));
        self.last_pos is Some && norm_sq(d.0, d.1) >= self.window.threshold_sq
    }

    /// The window after a sample that is taken in: the stale ones are out, and if it is filled
    /// then, the percentage of samples with motion that is asked for activates.
    pub open spec fn window_after(self, at: int, is_motion: bool) -> WindowModel {
        let samples = self.window.window_with(at, is_motion);
        WindowModel {
            active: is_filled(samples, at, self.window.window) && reaches_ratio(
                samples,
                self.window.ratio,
            ),
            samples,
            ..self.window
        }
    }

    /// The model after a report of coordinates at `now`.
    pub open spec fn after_position(
        self,
        now: int,
        x: Option<i32>,
        y: Option<i32>,
    ) -> DetectorModel {
        if self.takes_in(x, y) {
            DetectorModel {
                finger_down: true,
                last_pos: Some(position(self.last_pos, x, y)),
                window: self.window_after(now, self.is_motion(x, y)),
            }
        } else {
            self
        }
    }

    /// The model after the contacts of a batch.
    pub open spec fn after_contacts(self, events: Seq<RawEvent>) -> DetectorModel {
        let s = scan(self.finger_down, events);
        DetectorModel {
            finger_down: s.finger_down,
            last_pos: if s.contact_changed {
                None
            } else {
                self.last_pos
            },
            window: after_events::<RollingWindowAlgorithm>(self.window, contacts(events)),
        }
    }

    /// Whether what a batch reports can be measured.
    pub open spec fn can_handle(self, events: Seq<RawEvent>) -> bool {
        let s = scan(self.finger_down, events);
        self.after_contacts(events).can_measure(s.x, s.y)
    }

    /// The model after a batch that was read at `now`: the contacts first, then the coordinates.
    pub open spec fn after_batch(self, events: Seq<RawEvent>, now: int) -> DetectorModel {
        let s = scan(self.finger_down, events);
        self.after_contacts(events).after_position(now, s.x, s.y)
    }

    /// The transitions over a batch that was read at `now`, in order.
    pub open spec fn batch_transitions(self, events: Seq<RawEvent>, now: int) -> Seq<GlideState> {
        let earlier = transitions::<RollingWindowAlgorithm>(self.window, contacts(events));
        match transition(
            self.after_contacts(events).window.active,
            self.after_batch(events, now).window.active,
        ) {
            Some(change) => earlier.push(change),
            None => earlier,
        }
    }
}

/// Detects sustained touchpad motion using a rolling window of timestamped samples.
pub struct MotionDetector {
    finger_down: bool,
    is_active: bool,
    last_pos: Option<(i32, i32)>,
    samples: VecDeque<(Instant, bool)>,
    motion_threshold: u16,
    activation_window_ms: u64,
    activation_ratio: usize,
}

impl View for MotionDetector {
    type V = DetectorModel;

    closed spec fn view(&self) -> DetectorModel {
        DetectorModel {
            finger_down: self.finger_down,
            last_pos: self.last_pos,
            window: WindowModel {
                active: self.is_active,
                threshold_sq: self.motion_threshold * self.motion_threshold,
                window: millis(self.activation_window_ms as int),
                ratio: self.activation_ratio as int,
                samples: marks(self.samples@),
            },
        }
    }
}

impl MotionDetector {
    /// An inactive detector without a finger.
    pub fn new(threshold: u16, window_ms: u64, ratio: u16) -> (r: Self)
        ensures
            r@ == (DetectorModel {
                finger_down: false,
                last_pos: None,
                window: WindowModel {
                    active: false,
                    threshold_sq: threshold * threshold,
                    window: millis(window_ms as int),
                    ratio: ratio as int,
                    samples: Seq::empty(),
                },
            }),
    {
        let r = MotionDetector {
            finger_down: false,
            is_active: false,
            last_pos: None,
            samples: VecDeque::with_capacity(64),
            motion_threshold: threshold,
            activation_window_ms: window_ms,
            activation_ratio: ratio as usize,
        };
        assert(marks(r.samples@) == Seq::<(int, bool)>::empty());
        r
    }

    /// Forgets the position and the samples.
    fn reset(&mut self)
        ensures
            final(self)@ == (DetectorModel {
                last_pos: None,
                window: WindowModel { samples: Seq::empty(), ..old(self)@.window },
                ..old(self)@
            }),
    {
        self.last_pos = None;
        self.samples.clear();
        assert(marks(self.samples@) == Seq::<(int, bool)>::empty());
    }

    /// Takes note that the finger came down.
    pub fn finger_down(&mut self)
        ensures
            final(self)@ == old(self)@.after_finger_down(),
    {
        self.finger_down = true;
        self.reset();
    }

    /// Takes note that the finger was lifted.
    pub fn finger_up(&mut self) -> (change: Option<GlideState>)
        ensures
            final(self)@ == old(self)@.after_finger_up(),
            change == transition(old(self)@.window.active, false),
    {
        self.finger_down = false;
        self.reset();
        if self.is_active {
            self.is_active = false;
            Some(GlideState::Inactive)
        } else {
            None
        }
    }

    /// Takes in the coordinates that were reported at `now`.
    pub fn position_update_at(&mut self, now: Instant, x: Option<i32>, y: Option<i32>) -> (change:
        Option<GlideState>)
        requires
            old(self)@.can_measure(x, y),
        ensures
            final(self)@ == old(self)@.after_position(now@, x, y),
            change == transition(old(self)@.window.active, final(self)@.window.active),
    {
        if !self.finger_down || self.is_active {
            return None;
        }
        if x.is_none() && y.is_none() {
            return None;
        }
        let pos = next_position(self.last_pos, x, y);
        let is_motion = match self.last_pos {
            None => false,
            Some(last) => {
                proof {
                    let d = delta(self.last_pos, pos);
                    lemma_components_fit(d.0, d.1);
                }
                let dist_sq: i32 = distance_sq(pos.0 - last.0, pos.1 - last.1);
                let threshold: i32 = self.motion_threshold as i32;
                proof {
                    assert(0 <= threshold * threshold) by (nonlinear_arith);
                }
                dist_sq >= threshold * threshold
            },
        };
        self.last_pos = Some(pos);

        let ghost before = self.samples@;
        self.samples.push_back((now, is_motion));
        assert(marks(self.samples@) == marks(before).push((now@, is_motion)));

        let oldest_kept = now.cutoff(Duration::from_millis(self.activation_window_ms));
        drop_stale(&mut self.samples, oldest_kept);
        let total: usize = self.samples.len();
        let percent: usize = if total > 0 {
            percentage(count_motion(&self.samples), total)
        } else {
            0
        };
        proof {
            if total > 0 {
                law_reaching_and_exceeding(marks(self.samples@), self.activation_ratio as int);
            }
        }
        if fills_window(&self.samples, now, self.activation_window_ms) && percent
            >= self.activation_ratio {
            self.is_active = true;
            Some(GlideState::Active)
        } else {
            None
        }
    }

    /// Takes in the coordinates that are reported now.
    pub fn position_update(&mut self, clock: &Clock, x: Option<i32>, y: Option<i32>) -> (change:
        Option<GlideState>)
        requires
            old(self)@.can_measure(x, y),
        ensures
            exists|now: int|
                0 <= now && clock.shows(now) && final(self)@ == #[trigger] old(
                    self,
                )@.after_position(now, x, y),
            change == transition(old(self)@.window.active, final(self)@.window.active),
    {
        let now = clock.now();
        self.position_update_at(now, x, y)
    }

    /// Takes in the contacts of a batch. Returns the transitions, and the last coordinates that
    /// were reported while the finger was down.
    fn take_contacts(&mut self, events: &Vec<RawEvent>) -> (r: (
        Vec<GlideState>,
        Option<i32>,
        Option<i32>,
    ))
        ensures
            final(self)@ == old(self)@.after_contacts(events@),
            r.0@ == transitions::<RollingWindowAlgorithm>(old(self)@.window, contacts(events@)),
            r.1 == scan(old(self)@.finger_down, events@).x,
            r.2 == scan(old(self)@.finger_down, events@).y,
    {
        let ghost before = self@;
        let mut finger = TouchpadSampler { finger_down: self.finger_down, last_pos: self.last_pos };
        let (touched, x, y) = finger.take_contacts(events);
        let mut changes: Vec<GlideState> = Vec::new();
        let mut i: usize = 0;
        proof {
            law_last_contact_decides(
                SamplerState { finger_down: before.finger_down, last_pos: before.last_pos },
                events@,
            );
        }
        while i < touched.len()
            invariant
                i <= touched.len(),
                touched@ == contacts(events@),
                forall|j: int|
                    0 <= j < touched@.len() ==> (#[trigger] touched@[j] == TouchpadEvent::FingerDown
                        || touched@[j] == TouchpadEvent::FingerUp),
                self@.window == after_events::<RollingWindowAlgorithm>(
                    before.window,
                    touched@.take(i as int),
                ),
                changes@ == transitions::<RollingWindowAlgorithm>(
                    before.window,
                    touched@.take(i as int),
                ),
                i == 0 ==> self@ == before,
                i > 0 ==> self@.last_pos is None && self@.finger_down == (touched@[i - 1]
                    == TouchpadEvent::FingerDown),
            decreases touched.len() - i,
        {
            proof {
                let next = touched@.take(i as int + 1);
                assert(next.drop_last() == touched@.take(i as int));
                assert(next.last() == touched@[i as int]);
            }
            match touched[i] {
                TouchpadEvent::FingerDown => {
                    self.finger_down();
                },
                TouchpadEvent::FingerUp => {
                    match self.finger_up() {
                        Some(change) => {
                            changes.push(change);
                        },
                        None => {},
                    }
                },
                TouchpadEvent::Position(_) => {},
            }
            i = i + 1;
        }
        assert(touched@.take(touched.len() as int) == touched@);
        (changes, x, y)
    }

    /// Takes in a batch of events that was read at `now`. Returns the transitions, in order.
    pub fn handle_events_at(&mut self, events: &Vec<RawEvent>, now: Instant) -> (changes: Vec<
        GlideState,
    >)
        requires
            old(self)@.can_handle(events@),
        ensures
            final(self)@ == old(self)@.after_batch(events@, now@),
            changes@ == old(self)@.batch_transitions(events@, now@),
    {
        let (mut changes, x, y) = self.take_contacts(events);
        match self.position_update_at(now, x, y) {
            Some(change) => {
                changes.push(change);
            },
            None => {},
        }
        changes
    }

    /// Whether what a batch reports can be measured, as `handle_events_at` asks.
    pub fn can_handle(&self, events: &Vec<RawEvent>) -> (r: bool)
        ensures
            r == self@.can_handle(events@),
    {
        let ahead = TouchpadSampler { finger_down: self.finger_down, last_pos: self.last_pos };
        let mut finger = ahead;
        let (touched, x, y) = finger.take_contacts(events);
        let mut active = self.is_active;
        let mut i: usize = 0;
        proof {
            law_last_contact_decides(ahead@, events@);
            let t = self.motion_threshold as int;
            assert(t * t <= 2_147_483_647 <==> t <= 46_340) by (nonlinear_arith)
                requires
                    0 <= t,
            ;
        }
        while i < touched.len()
            invariant
                i <= touched.len(),
                active == after_events::<RollingWindowAlgorithm>(
                    self@.window,
                    touched@.take(i as int),
                ).active,
                forall|j: int|
                    0 <= j < touched@.len() ==> (#[trigger] touched@[j] == TouchpadEvent::FingerDown
                        || touched@[j] == TouchpadEvent::FingerUp),
            decreases touched.len() - i,
        {
            proof {
                let next = touched@.take(i as int + 1);
                assert(next.drop_last() == touched@.take(i as int));
                assert(next.last() == touched@[i as int]);
            }
            match touched[i] {
                TouchpadEvent::FingerUp => {
                    active = false;
                },
                _ => {},
            }
            i = i + 1;
        }
        assert(touched@.take(touched.len() as int) == touched@);
        if !finger.finger_down || active || (x.is_none() && y.is_none()) || finger.last_pos.is_none() {
            return true;
        }
        self.motion_threshold <= MAX_MOTION_THRESHOLD && ahead.can_process(events)
    }

    /// Takes in a batch of evdev events. Returns the transitions, in order. Where the distance
    /// that the batch reports, or the threshold that it is held against, is too large for its
    /// square to be represented, nothing is taken in and nothing returned.
    pub fn handle_events(&mut self, clock: &Clock, events: &[evdev::InputEvent]) -> (changes:
        Option<Vec<GlideState>>)
        ensures
            changes is Some <==> old(self)@.can_handle(raw_events(events@)),
            changes matches Some(changes) ==> exists|now: int|
                0 <= now && clock.shows(now) && changes@ == #[trigger] old(self)@.batch_transitions(
                    raw_events(events@),
                    now,
                ) && final(self)@ == old(self)@.after_batch(raw_events(events@), now),
            changes is None ==> final(self)@ == old(self)@,
    {
        let raw = read_events(events);
        if !self.can_handle(&raw) {
            return None;
        }
        let now = clock.now();
        Some(self.handle_events_at(&raw, now))
    }
}

/// Whether a detector agrees with a sampler and a rolling window algorithm behind it: on the
/// finger and the window, and on the position as long as there is no activity.
pub open spec fn agrees(
    detector: DetectorModel,
    sampler: SamplerState,
    window: WindowModel,
) -> bool {
    &&& detector.finger_down == sampler.finger_down
    &&& detector.window == window
    &&& !window.active ==> detector.last_pos == sampler.last_pos
}

/// Whether a batch tells a detector from a sampler and a rolling window algorithm behind it. With a
/// threshold of zero, only the algorithm counts the place where a finger comes down as motion. And
/// if the share of samples with motion is exactly the ratio, only the detector activates.
pub open spec fn tells_apart(detector: DetectorModel, events: Seq<RawEvent>, now: int) -> bool {
    let s = scan(detector.finger_down, events);
    let mid = detector.after_contacts(events);
    let samples = mid.window.window_with(now, mid.is_motion(s.x, s.y));
    &&& mid.takes_in(s.x, s.y)
    &&& {
        ||| mid.last_pos is None && mid.window.threshold_sq <= 0
        ||| is_filled(samples, now, mid.window.window) && motion_count(samples) * 100
            == mid.window.ratio * samples.len()
    }
}

/// A detector does over a batch what a sampler does with a rolling window algorithm behind it: they
/// go on agreeing and report the same transitions, unless the batch tells them apart.
pub proof fn law_detector_is_sampler_and_window(
    detector: DetectorModel,
    sampler: SamplerState,
    window: WindowModel,
    events: Seq<RawEvent>,
    now: Instant,
)
    requires
        agrees(detector, sampler, window),
        sampler.can_measure(events),
        !tells_apart(detector, events, now@),
    ensures
        agrees(
            detector.after_batch(events, now@),
            sampler.after(events),
            after_events::<RollingWindowAlgorithm>(window, sampler.output(events, now)),
        ),
        detector.batch_transitions(events, now@) == transitions::<RollingWindowAlgorithm>(
            window,
            sampler.output(events, now),
        ),
{
    law_last_contact_decides(sampler, events);
    let s = scan(sampler.finger_down, events);
    let out = sampler.output(events, now);
    let base = sampler.base(events);
    lemma_activity_over_contacts(window, contacts(events));
    if sampler.reports_position(events) {
        let mid = detector.after_contacts(events);
        let measured = sample(base, s.x, s.y, now);
        assert(out.drop_last() == contacts(events));
        assert(out.last() == TouchpadEvent::Position(measured));
        let d = delta(base, position(base, s.x, s.y));
        lemma_components_fit(d.0, d.1);
        assert(mid.window == after_events::<RollingWindowAlgorithm>(window, contacts(events)));
        if !mid.window.active {
            assert(mid.last_pos == base);
            assert(measured.dx as int == d.0 && measured.dy as int == d.1);
            assert(norm_sq(0, 0) == 0) by (nonlinear_arith);
            assert(measured.is_motion(mid.window.threshold_sq) == mid.is_motion(s.x, s.y));
            let samples = mid.window.window_with(now@, mid.is_motion(s.x, s.y));
            if samples.len() > 0 {
                law_reaching_and_exceeding(samples, mid.window.ratio);
            }
        }
    }
}

/// Over a batch a detector reports activations and deactivations in turn, a deactivation first if
/// it was active, and it is active after the batch exactly if that many turns leave it so.
pub proof fn law_detector_takes_turns(detector: DetectorModel, events: Seq<RawEvent>, now: int)
    ensures
        forall|i: int|
            0 <= i < detector.batch_transitions(events, now).len()
                ==> #[trigger] detector.batch_transitions(events, now)[i] == if (i % 2 == 0)
                == detector.window.active {
                GlideState::Inactive
            } else {
                GlideState::Active
            },
        detector.after_batch(events, now).window.active == ((detector.batch_transitions(
            events,
            now,
        ).len() % 2 == 0) == detector.window.active),
{
    law_last_contact_decides(
        SamplerState { finger_down: detector.finger_down, last_pos: detector.last_pos },
        events,
    );
    lemma_transitions_over_contacts(detector.window, contacts(events));
}

/// Over contacts alone, the only transition is the end of an activity.
proof fn lemma_transitions_over_contacts(window: WindowModel, touched: Seq<TouchpadEvent>)
    requires
        forall|i: int|
            0 <= i < touched.len() ==> (#[trigger] touched[i] == TouchpadEvent::FingerDown
                || touched[i] == TouchpadEvent::FingerUp),
    ensures
        transitions::<RollingWindowAlgorithm>(window, touched) == if window.active
            && !after_events::<RollingWindowAlgorithm>(window, touched).active {
            seq![GlideState::Inactive]
        } else {
            Seq::empty()
        },
        after_events::<RollingWindowAlgorithm>(window, touched).active ==> window.active,
    decreases touched.len(),
{
    if touched.len() > 0 {
        assert forall|i: int| 0 <= i < touched.drop_last().len() implies (
        #[trigger] touched.drop_last()[i] == TouchpadEvent::FingerDown || touched.drop_last()[i]
            == TouchpadEvent::FingerUp) by {
            assert(touched.drop_last()[i] == touched[i]);
        }
        lemma_transitions_over_contacts(window, touched.drop_last());
        assert(touched.last() == touched[touched.len() - 1]);
    }
}

/// Over contacts alone, an algorithm that is active without any contact, or after some, was active
/// before.
proof fn lemma_activity_over_contacts(window: WindowModel, touched: Seq<TouchpadEvent>)
    requires
        forall|i: int|
            0 <= i < touched.len() ==> (#[trigger] touched[i] == TouchpadEvent::FingerDown
                || touched[i] == TouchpadEvent::FingerUp),
    ensures
        after_events::<RollingWindowAlgorithm>(window, touched).active ==> window.active,
        after_events::<RollingWindowAlgorithm>(window, touched).threshold_sq
            == window.threshold_sq,
        touched.len() == 0 ==> after_events::<RollingWindowAlgorithm>(window, touched) == window,
    decreases touched.len(),
{
    if touched.len() > 0 {
        assert forall|i: int| 0 <= i < touched.drop_last().len() implies (
        #[trigger] touched.drop_last()[i] == TouchpadEvent::FingerDown || touched.drop_last()[i]
            == TouchpadEvent::FingerUp) by {
            assert(touched.drop_last()[i] == touched[i]);
        }
        lemma_activity_over_contacts(window, touched.drop_last());
    }
}

/// The model after a series of reports of coordinates, each with the time at which it came.
pub open spec fn after_reports(
    detector: DetectorModel,
    reports: Seq<(int, Option<i32>, Option<i32>)>,
) -> DetectorModel
    decreases reports.len(),
{
    if reports.len() == 0 {
        detector
    } else {
        let (at, x, y) = reports.last();
        after_reports(detector, reports.drop_last()).after_position(at, x, y)
    }
}

/// Whether `path` is where the finger is after each report: a coordinate that was not reported
/// stays as it was, and is zero in the beginning.
pub open spec fn is_path(
    path: Seq<(i32, i32)>,
    reports: Seq<(int, Option<i32>, Option<i32>)>,
) -> bool {
    &&& path.len() == reports.len()
    &&& forall|k: int|
        0 <= k < path.len() ==> (#[trigger] path[k]).0 == match reports[k].1 {
            Some(x) => x as int,
            None => if k > 0 {
                path[k - 1].0 as int
            } else {
                0
            },
        }
    &&& forall|k: int|
        0 <= k < path.len() ==> (#[trigger] path[k]).1 == match reports[k].2 {
            Some(y) => y as int,
            None => if k > 0 {
                path[k - 1].1 as int
            } else {
                0
            },
        }
}

/// Whether the finger moved from the place before to the one at `k` at least as far as the square
/// root of `threshold_sq`; to the first place it did not move.
pub open spec fn is_moved(path: Seq<(i32, i32)>, k: int, threshold_sq: int) -> bool {
    k > 0 && (path[k].0 - path[k - 1].0) * (path[k].0 - path[k - 1].0) + (path[k].1 - path[k - 1].1)
        * (path[k].1 - path[k - 1].1) >= threshold_sq
}

spec fn report_marks(
    reports: Seq<(int, Option<i32>, Option<i32>)>,
    path: Seq<(i32, i32)>,
    threshold_sq: int,
    n: nat,
) -> Seq<(int, bool)> {
    Seq::new(n, |k: int| (reports[k].0, is_moved(path, k, threshold_sq)))
}

proof fn lemma_counts_of_reports(
    reports: Seq<(int, Option<i32>, Option<i32>)>,
    path: Seq<(i32, i32)>,
    threshold_sq: int,
    n: nat,
    now: int,
    window: int,
)
    ensures
        report_marks(reports, path, threshold_sq, n).filter(
            |s: (int, bool)| now - s.0 <= window,
        ).len() == Seq::new(n, |k: int| k).filter(|k: int| now - reports[k].0 <= window).len(),
        report_marks(reports, path, threshold_sq, n).filter(
            |s: (int, bool)| now - s.0 <= window && s.1,
        ).len() == Seq::new(n, |k: int| k).filter(
            |k: int| now - reports[k].0 <= window && is_moved(path, k, threshold_sq),
        ).len(),
    decreases n,
{
    reveal(Seq::filter);
    if n > 0 {
        let m = (n - 1) as nat;
        lemma_counts_of_reports(reports, path, threshold_sq, m, now, window);
        assert(report_marks(reports, path, threshold_sq, n).drop_last() == report_marks(
            reports,
            path,
            threshold_sq,
            m,
        ));
        assert(Seq::new(n, |k: int| k).drop_last() == Seq::new(m, |k: int| k));
    }
}

/// While there is no activity, the window of a detector holds what is recent of all reports.
proof fn lemma_window_follows_reports(
    detector: DetectorModel,
    reports: Seq<(int, Option<i32>, Option<i32>)>,
    path: Seq<(i32, i32)>,
)
    requires
        detector.finger_down,
        detector.last_pos is None,
        !detector.window.active,
        detector.window.samples.len() == 0,
        0 <= detector.window.window,
        reports.len() > 0,
        forall|i: int, j: int|
            0 <= i <= j < reports.len() ==> (#[trigger] reports[i]).0 <= (#[trigger] reports[j]).0,
        forall|i: int|
            0 <= i < reports.len() ==> ((#[trigger] reports[i]).1 is Some || reports[i].2 is Some),
        reports[0].0 - detector.window.window >= EARLIEST_NANOS,
        is_path(path, reports),
        !after_reports(detector, reports.drop_last()).window.active,
    ensures
        ({
            let after = after_reports(detector, reports);
            let now = reports.last().0;
            let w = detector.window;
            let held = fresh(
                report_marks(reports, path, w.threshold_sq, reports.len()),
                now - w.window,
            );
            &&& after.finger_down
            &&& after.last_pos == Some(path.last())
            &&& after.window == (WindowModel {
                active: is_filled(held, now, w.window) && reaches_ratio(held, w.ratio),
                samples: held,
                ..w
            })
        }),
    decreases reports.len(),
{
    let w = detector.window;
    let rest = reports.drop_last();
    let n = reports.len() as int;
    let (now, x, y) = reports.last();
    let before = after_reports(detector, rest);
    let all = report_marks(reports, path, w.threshold_sq, reports.len());
    let earlier = report_marks(rest, path.drop_last(), w.threshold_sq, rest.len());
    assert(reports[n - 1] == reports.last());
    assert(reports[0].0 <= reports[n - 1].0);
    assert(path.last() == path[n - 1]);
    if rest.len() == 0 {
        assert(before == detector);
        assert(position(None, x, y) == path[0]);
        assert(all == w.samples.push((now, false)));
    } else {
        let tail = path.drop_last();
        assert(rest.last() == reports[n - 2]);
        assert(reports[0].0 <= reports[n - 2].0 <= reports[n - 1].0);
        assert forall|i: int, j: int| 0 <= i <= j < rest.len() implies (#[trigger] rest[i]).0 <= (
        #[trigger] rest[j]).0 by {
            assert(reports[i].0 <= reports[j].0);
        }
        assert forall|i: int| 0 <= i < rest.len() implies ((#[trigger] rest[i]).1 is Some
            || rest[i].2 is Some) by {
            assert(reports[i].1 is Some || reports[i].2 is Some);
        }
        assert(is_path(tail, rest)) by {
            assert forall|k: int| 0 <= k < tail.len() implies (#[trigger] tail[k]).0 == match rest[k].1 {
                Some(x) => x as int,
                None => if k > 0 {
                    tail[k - 1].0 as int
                } else {
                    0
                },
            } by {
                assert(tail[k] == path[k]);
            }
            assert forall|k: int| 0 <= k < tail.len() implies (#[trigger] tail[k]).1 == match rest[k].2 {
                Some(y) => y as int,
                None => if k > 0 {
                    tail[k - 1].1 as int
                } else {
                    0
                },
            } by {
                assert(tail[k] == path[k]);
            }
        }
        assert(!after_reports(detector, rest.drop_last()).window.active);
        lemma_window_follows_reports(detector, rest, tail);
        assert(tail.last() == path[n - 2]);
        assert(before.last_pos == Some(path[n - 2]));
        assert(position(before.last_pos, x, y) == path[n - 1]);
        assert(before.is_motion(x, y) == is_moved(path, n - 1, w.threshold_sq));
        assert(all == earlier.push((now, is_moved(path, n - 1, w.threshold_sq)))) by {
            assert forall|k: int| 0 <= k < n - 1 implies all[k] == earlier[k] by {
                assert(tail[k] == path[k]);
                if k > 0 {
                    assert(tail[k - 1] == path[k - 1]);
                }
            }
        }
        lemma_fresh_again(
            earlier,
            rest.last().0 - w.window,
            (now, is_moved(path, n - 1, w.threshold_sq)),
            now - w.window,
        );
    }
}

/// When a report activates. Over reports of coordinates in order since a finger came down, and
/// without activity yet, the last one activates exactly if those that are no older than the window
/// are at least two, one of them is at least as old as the window less 20 milliseconds, and those
/// among them with which the finger moved at least as far as the threshold are at least as many as
/// the ratio asks for, in percent.
pub proof fn law_ratio_of_recent_reports_activates(
    detector: DetectorModel,
    reports: Seq<(int, Option<i32>, Option<i32>)>,
    path: Seq<(i32, i32)>,
)
    requires
        detector.finger_down,
        detector.last_pos is None,
        !detector.window.active,
        detector.window.samples.len() == 0,
        0 <= detector.window.window,
        reports.len() > 0,
        forall|i: int, j: int|
            0 <= i <= j < reports.len() ==> (#[trigger] reports[i]).0 <= (#[trigger] reports[j]).0,
        forall|i: int|
            0 <= i < reports.len() ==> ((#[trigger] reports[i]).1 is Some || reports[i].2 is Some),
        reports[0].0 - detector.window.window >= EARLIEST_NANOS,
        is_path(path, reports),
        !after_reports(detector, reports.drop_last()).window.active,
    ensures
        ({
            let after = after_reports(detector, reports);
            let now = reports.last().0;
            let w = detector.window;
            let total = Seq::new(reports.len(), |k: int| k).filter(
                |k: int| now - reports[k].0 <= w.window,
            ).len();
            let moving = Seq::new(reports.len(), |k: int| k).filter(
                |k: int| now - reports[k].0 <= w.window && is_moved(path, k, w.threshold_sq),
            ).len();
            &&& after.window.active <==> total >= 2 && 100 * moving >= w.ratio * total && exists|
                i: int,
            |
                0 <= i < reports.len() && w.window - 20_000_000 <= now - (#[trigger] reports[i]).0
                    <= w.window
            &&& after.finger_down
            &&& after.last_pos == Some(path.last())
            &&& after.window.ratio == w.ratio
            &&& after.window.window == w.window
            &&& after.window.threshold_sq == w.threshold_sq
        }),
{
    let w = detector.window;
    let now = reports.last().0;
    let all = report_marks(reports, path, w.threshold_sq, reports.len());
    lemma_window_follows_reports(detector, reports, path);
    assert forall|i: int, j: int| 0 <= i <= j < all.len() implies all[i].0 <= all[j].0 by {
        assert(reports[i].0 <= reports[j].0);
    }
    law_window_is_judged_by_counts(all, now, w.window, w.ratio);
    lemma_counts_of_reports(reports, path, w.threshold_sq, reports.len(), now, w.window);
    if exists|i: int|
        0 <= i < all.len() && w.window - 20_000_000 <= now - (#[trigger] all[i]).0 <= w.window {
        let i = choose|i: int|
            0 <= i < all.len() && w.window - 20_000_000 <= now - (#[trigger] all[i]).0 <= w.window;
        assert(all[i].0 == reports[i].0);
    }
    if exists|i: int|
        0 <= i < reports.len() && w.window - 20_000_000 <= now - (#[trigger] reports[i]).0
            <= w.window {
        let i = choose|i: int|
            0 <= i < reports.len() && w.window - 20_000_000 <= now - (#[trigger] reports[i]).0
                <= w.window;
        assert(all[i].0 == reports[i].0);
    }
}

/// Without a finger on the pad, without coordinates, or once there is activity, a report changes
/// nothing. Any other can be measured exactly if there is no position before, or the squares of the
/// distance from it and of the threshold can be represented.
pub proof fn law_detector_ignores_reports(
    detector: DetectorModel,
    now: int,
    x: Option<i32>,
    y: Option<i32>,
)
    ensures
        ({
            let ignored = !detector.finger_down || detector.window.active || (x is None && y is None);
            &&& ignored ==> detector.after_position(now, x, y) == detector && detector.can_measure(
                x,
                y,
            )
            &&& !ignored && detector.last_pos is None ==> detector.can_measure(x, y)
            &&& !ignored ==> (detector.last_pos matches Some(last) ==> {
                let dx = if x is Some {
                    x->0 - last.0
                } else {
                    0
                };
                let dy = if y is Some {
                    y->0 - last.1
                } else {
                    0
                };
                detector.can_measure(x, y) <==> dx * dx + dy * dy <= 2_147_483_647
                    && detector.window.threshold_sq <= 2_147_483_647
            })
        }),
{
}

/// A contact makes a detector forget the position and the samples. Lifting the finger ends the
/// activity besides, and coming down leaves it as it is. The settings stay.
pub proof fn law_contact_empties_detector(detector: DetectorModel)
    ensures
        ({
            let down = detector.after_finger_down();
            let up = detector.after_finger_up();
            let w = detector.window;
            &&& down.finger_down && !up.finger_down
            &&& down.last_pos is None && up.last_pos is None
            &&& down.window.samples.len() == 0 && up.window.samples.len() == 0
            &&& down.window.active == w.active && !up.window.active
            &&& down.window.ratio == w.ratio && up.window.ratio == w.ratio
            &&& down.window.window == w.window && up.window.window == w.window
            &&& down.window.threshold_sq == w.threshold_sq && up.window.threshold_sq
                == w.threshold_sq
        }),
{
}

/// The contacts of a batch come first: the last event of the finger button says where the finger
/// is, any of them makes the detector forget the position and the samples, and one that lifts the
/// finger ends the activity. Without any nothing changes.
pub proof fn law_detector_takes_contacts_first(detector: DetectorModel, events: Seq<RawEvent>)
    ensures
        ({
            let mid = detector.after_contacts(events);
            let w = detector.window;
            let touched = exists|k: int| 0 <= k < events.len() && is_contact(#[trigger] events[k]);
            let lifted = exists|k: int|
                0 <= k < events.len() && is_contact(#[trigger] events[k]) && events[k].value == 0;
            &&& mid.finger_down == is_down_at(detector.finger_down, events, events.len() as int)
            &&& !touched ==> mid == detector
            &&& touched ==> mid.last_pos is None && mid.window.samples.len() == 0
            &&& mid.window.active <==> w.active && !lifted
            &&& mid.window.ratio == w.ratio
            &&& mid.window.window == w.window
            &&& mid.window.threshold_sq == w.threshold_sq
        }),
{
    lemma_scan_by_index(detector.finger_down, events);
    lemma_window_over_batch_contacts(detector.window, events);
}

proof fn lemma_window_over_batch_contacts(window: WindowModel, events: Seq<RawEvent>)
    ensures
        ({
            let after = after_events::<RollingWindowAlgorithm>(window, contacts(events));
            let touched = exists|k: int| 0 <= k < events.len() && is_contact(#[trigger] events[k]);
            let lifted = exists|k: int|
                0 <= k < events.len() && is_contact(#[trigger] events[k]) && events[k].value == 0;
            &&& !touched ==> after == window
            &&& touched ==> after.samples.len() == 0
            &&& after.active <==> window.active && !lifted
            &&& after.ratio == window.ratio
            &&& after.window == window.window
            &&& after.threshold_sq == window.threshold_sq
        }),
    decreases events.len(),
{
    if events.len() > 0 {
        let rest = events.drop_last();
        let n = events.len() as int;
        lemma_window_over_batch_contacts(window, rest);
        assert(events[n - 1] == events.last());
        assert(forall|k: int| 0 <= k < n - 1 ==> #[trigger] rest[k] == events[k]);
        assert(forall|k: int| 0 <= k < n - 1 ==> rest[k] == #[trigger] events[k]);
        if is_contact(events.last()) {
            assert(contacts(events).drop_last() == contacts(rest));
        }
        if exists|k: int| 0 <= k < n && is_contact(#[trigger] events[k]) {
            let k = choose|k: int| 0 <= k < n && is_contact(#[trigger] events[k]);
            if k < n - 1 {
                assert(is_contact(rest[k]));
            }
        }
        if exists|k: int| 0 <= k < n && is_contact(#[trigger] events[k]) && events[k].value == 0 {
            let k = choose|k: int|
                0 <= k < n && is_contact(#[trigger] events[k]) && events[k].value == 0;
            if k < n - 1 {
                assert(is_contact(rest[k]) && rest[k].value == 0);
            }
        }
        if exists|k: int| 0 <= k < n - 1 && is_contact(#[trigger] rest[k]) {
            let k = choose|k: int| 0 <= k < n - 1 && is_contact(#[trigger] rest[k]);
            assert(is_contact(events[k]));
        }
        if exists|k: int| 0 <= k < n - 1 && is_contact(#[trigger] rest[k]) && rest[k].value == 0 {
            let k = choose|k: int|
                0 <= k < n - 1 && is_contact(#[trigger] rest[k]) && rest[k].value == 0;
            assert(is_contact(events[k]) && events[k].value == 0);
        }
    }
}

/// After its contacts, a batch reports the last coordinate of each axis that came while the finger
/// was down, and none for an axis without one. What the detector does is what it does on that
/// report, and the batch can be handled exactly if that report can be measured.
pub proof fn law_detector_takes_last_coordinates(
    detector: DetectorModel,
    events: Seq<RawEvent>,
    now: int,
    x: Option<i32>,
    y: Option<i32>,
)
    requires
        forall|i: int| #[trigger]
            is_last_horizontal(detector.finger_down, events, i) ==> x == Some(events[i].value),
        forall|i: int| #[trigger]
            is_last_vertical(detector.finger_down, events, i) ==> y == Some(events[i].value),
        x is Some ==> exists|i: int| is_last_horizontal(detector.finger_down, events, i),
        y is Some ==> exists|i: int| is_last_vertical(detector.finger_down, events, i),
    ensures
        detector.after_batch(events, now) == detector.after_contacts(events).after_position(
            now,
            x,
            y,
        ),
        detector.can_handle(events) == detector.after_contacts(events).can_measure(x, y),
{
    lemma_scan_by_index(detector.finger_down, events);
}

/// Over a batch a detector reports that the activity ends exactly if its contacts end one, and then
/// that an activity begins exactly if its coordinates begin one.
pub proof fn law_detector_reports_what_changes(
    detector: DetectorModel,
    events: Seq<RawEvent>,
    now: int,
)
    ensures
        ({
            let mid = detector.after_contacts(events).window.active;
            let after = detector.after_batch(events, now).window.active;
            let ended: Seq<GlideState> = if detector.window.active && !mid {
                seq![GlideState::Inactive]
            } else {
                Seq::empty()
            };
            let begun: Seq<GlideState> = if !mid && after {
                seq![GlideState::Active]
            } else {
                Seq::empty()
            };
            detector.batch_transitions(events, now) == ended + begun
        }),
{
    law_last_contact_decides(
        SamplerState { finger_down: detector.finger_down, last_pos: detector.last_pos },
        events,
    );
    lemma_transitions_over_contacts(detector.window, contacts(events));
}

} // verus!
