//! A session: the sampler, an activation algorithm and the episode tracker at work together on the
//! events of a touchpad.
use vstd::prelude::*;

use crate::algorithm::{
    after_event, after_events, law_lifting_releases, law_series_join, law_transitions_alternate,
    transition, transitions, ActivationAlgorithm, GlideState, MAX_MOTION_THRESHOLD,
};
use crate::clock::{elapsed, Clock, Instant};
use crate::episode::{law_ids_grow, EpisodeSummary, EpisodeTracker, TrackerModel};
use crate::input::{raw_events, read_events, RawEvent};
use crate::keyboard::ENODEV;
use crate::sampler::{
    contacts, delta, is_contact, law_contacts_are_button_events, law_last_contact_decides,
    lemma_components_fit, position, scan, Sample, SamplerState, TouchpadEvent, TouchpadSampler,
};

verus! {

/// What an error of reading the touchpad means.
#[derive(Clone, Copy, Debug, PartialEq, Eq, Structural)]
pub enum FetchFailure {
    /// The device is gone, and so is the session.
    Disconnected,
    /// The read may be tried again.
    Retry,
}

/// Tells from the error code, if there is one, what an error of reading the touchpad means.
pub fn on_fetch_error(code: Option<i32>) -> (failure: FetchFailure)
    ensures
        failure == if code == Some(ENODEV) {
            FetchFailure::Disconnected
        } else {
            FetchFailure::Retry
        },
{
    match code {
        Some(code) => if code == ENODEV {
            FetchFailure::Disconnected
        } else {
            FetchFailure::Retry
        },
        None => FetchFailure::Retry,
    }
}

/// What a touchpad event led to.
#[derive(Debug)]
pub enum Report {
    FingerDown { at: Instant, episode_id: u64 },
    FingerUp {
        at: Instant,
        was_active: bool,
        change: Option<GlideState>,
        /// The summary of the episode that ended, if there was one.
        summary: Option<EpisodeSummary>,
    },
    Sample {
        sample: Sample,
        episode_id: Option<u64>,
        is_motion: bool,
        /// Whether there is activity after the sample.
        active: bool,
        change: Option<GlideState>,
        /// The number of samples with motion in the rolling window, and of all samples in it.
        motion_ratio: Option<(usize, usize)>,
    },
}

impl Report {
    /// The transition that the event led to, if there is one.
    pub open spec fn transition(self) -> Option<GlideState> {
        match self {
            Report::FingerDown { .. } => None,
            Report::FingerUp { change, .. } => change,
            Report::Sample { change, .. } => change,
        }
    }

    /// The transition that the event led to, if there is one.
    pub fn state_change(&self) -> (change: Option<GlideState>)
        ensures
            change == self.transition(),
    {
        match self {
            Report::FingerDown { .. } => None,
            Report::FingerUp { change, .. } => *change,
            Report::Sample { change, .. } => *change,
        }
    }
}

/// What a session keeps beside the sampler: what its algorithm keeps, and the episodes.
pub struct SessionModel<M> {
    pub algorithm: M,
    pub tracker: TrackerModel,
}

/// The model of a session after a touchpad event at `now`. A finger that comes down begins an
/// episode, one that is lifted ends it; a sample is recorded, and so is the activation that it
/// may bring about.
pub open spec fn after_touch<A: ActivationAlgorithm>(
    model: SessionModel<A::Model>,
    event: TouchpadEvent,
    now: Instant,
) -> SessionModel<A::Model> {
    let algorithm = after_event::<A>(model.algorithm, event);
    SessionModel {
        algorithm,
        tracker: match event {
            TouchpadEvent::FingerDown => model.tracker.after_begin(now),
            TouchpadEvent::FingerUp => model.tracker.after_end(),
            TouchpadEvent::Position(sample) => if !A::active(model.algorithm) && A::active(
                algorithm,
            ) {
                model.tracker.after_sample(sample).after_activation(sample.timestamp)
            } else {
                model.tracker.after_sample(sample)
            },
        },
    }
}

/// The model of a session after a series of touchpad events at `now`.
pub open spec fn after_touches<A: ActivationAlgorithm>(
    model: SessionModel<A::Model>,
    events: Seq<TouchpadEvent>,
    now: Instant,
) -> SessionModel<A::Model>
    decreases events.len(),
{
    if events.len() == 0 {
        model
    } else {
        after_touch::<A>(after_touches::<A>(model, events.drop_last(), now), events.last(), now)
    }
}

/// Whether `report` tells what a touchpad event at `now` led to.
pub open spec fn tells<A: ActivationAlgorithm>(
    report: Report,
    model: SessionModel<A::Model>,
    event: TouchpadEvent,
    now: Instant,
) -> bool {
    let after = after_touch::<A>(model, event, now);
    let change = transition(A::active(model.algorithm), A::active(after.algorithm));
    match event {
        TouchpadEvent::FingerDown => report == (Report::FingerDown {
            at: now,
            episode_id: model.tracker.next_id as u64,
        }),
        TouchpadEvent::FingerUp => {
            &&& report is FingerUp
            &&& report->FingerUp_at == now
            &&& report->was_active == A::active(model.algorithm)
            &&& report->FingerUp_change == change
            &&& match model.tracker.current {
                Some(ep) => report->summary matches Some(s) && s.summarizes(
                    ep,
                    now,
                    model.tracker.threshold_sq,
                ),
                None => report->summary is None,
            }
        },
        TouchpadEvent::Position(sample) => {
            &&& report is Sample
            &&& report->sample == sample
            &&& report->Sample_episode_id == match model.tracker.current {
                Some(ep) => Some(ep.id),
                None => None,
            }
            &&& report->is_motion == sample.is_motion(model.tracker.threshold_sq)
            &&& report->active == A::active(after.algorithm)
            &&& report->Sample_change == change
            &&& match report->motion_ratio {
                Some((motion, total)) => A::motion_ratio(after.algorithm) == Some(
                    (motion as nat, total as nat),
                ),
                None => A::motion_ratio(after.algorithm) is None,
            }
        },
    }
}

/// Whether `reports` tell what a series of touchpad events at `now` led to, one by one.
pub open spec fn tell_all<A: ActivationAlgorithm>(
    reports: Seq<Report>,
    model: SessionModel<A::Model>,
    events: Seq<TouchpadEvent>,
    now: Instant,
) -> bool {
    &&& reports.len() == events.len()
    &&& forall|i: int|
        0 <= i < events.len() ==> tells::<A>(
            #[trigger] reports[i],
            after_touches::<A>(model, events.take(i), now),
            events[i],
            now,
        )
}

/// The sampler, an activation algorithm and the episode tracker.
pub struct Session<A: ActivationAlgorithm> {
    sampler: TouchpadSampler,
    algorithm: A,
    tracker: EpisodeTracker,
}

impl<A: ActivationAlgorithm> Session<A> {
    /// What the sampler of the session knows.
    pub closed spec fn sampler(&self) -> SamplerState {
        self.sampler@
    }

    /// What the session keeps beside.
    pub closed spec fn model(&self) -> SessionModel<A::Model> {
        SessionModel { algorithm: self.algorithm.model(), tracker: self.tracker@ }
    }

    /// Whether the statistics of the episode in progress are those of its samples, and there is
    /// an episode in progress exactly if the finger is down.
    pub closed spec fn wf(&self) -> bool {
        &&& self.tracker.wf()
        &&& self.sampler@.finger_down <==> self.tracker@.current is Some
    }

    /// Whether a batch can be processed: its distance can be measured, and the counters have room
    /// for it.
    pub open spec fn can_process(&self, events: Seq<RawEvent>) -> bool {
        let tracker = self.model().tracker;
        &&& self.sampler().can_measure(events)
        &&& tracker.next_id + contacts(events).len() <= u64::MAX
        &&& tracker.current matches Some(ep) ==> ep.samples.len() < u64::MAX
    }

    /// A session without a finger and without an episode.
    pub fn new(algorithm: A, motion_threshold: u16) -> (r: Self)
        requires
            motion_threshold <= MAX_MOTION_THRESHOLD,
        ensures
            r.wf(),
            r.sampler() == (SamplerState { finger_down: false, last_pos: None }),
            r.model() == (SessionModel {
                algorithm: algorithm.model(),
                tracker: TrackerModel {
                    next_id: 0,
                    threshold_sq: motion_threshold * motion_threshold,
                    current: None,
                },
            }),
    {
        Session {
            sampler: TouchpadSampler::new(),
            algorithm,
            tracker: EpisodeTracker::new(motion_threshold),
        }
    }

    /// Takes in a touchpad event at `now`.
    fn on_touch(&mut self, event: &TouchpadEvent, now: Instant) -> (report: Report)
        requires
            old(self).tracker.wf(),
            event is FingerDown ==> old(self).tracker@.next_id < u64::MAX,
            event matches TouchpadEvent::Position(sample) ==> sample.is_measurable() && (old(
                self,
            ).tracker@.current matches Some(ep) ==> ep.samples.len() < u64::MAX),
        ensures
            final(self).tracker.wf(),
            final(self).sampler@ == old(self).sampler@,
            final(self).model() == after_touch::<A>(old(self).model(), *event, now),
            tells::<A>(report, old(self).model(), *event, now),
    {
        match event {
            TouchpadEvent::FingerDown => {
                proof {
                    A::activity(self.algorithm.model(), arbitrary());
                }
                self.algorithm.on_finger_down();
                let episode_id: u64 = self.tracker.begin_episode(now);
                Report::FingerDown { at: now, episode_id }
            },
            TouchpadEvent::FingerUp => {
                let was_active = self.algorithm.is_active();
                let change = self.algorithm.on_finger_up();
                let summary = self.tracker.end_episode(now);
                Report::FingerUp { at: now, was_active, change, summary }
            },
            TouchpadEvent::Position(sample) => {
                proof {
                    A::activity(self.algorithm.model(), *sample);
                }
                let episode_id = self.tracker.current_episode_id();
                let is_motion = self.tracker.record_sample(sample);
                let change = self.algorithm.on_sample(sample);
                if change.is_some() {
                    self.tracker.record_activation(sample.timestamp);
                }
                Report::Sample {
                    sample: *sample,
                    episode_id,
                    is_motion,
                    active: self.algorithm.is_active(),
                    change,
                    motion_ratio: self.algorithm.current_motion_ratio(),
                }
            },
        }
    }

    /// Takes in a batch of events that was read at `now`. Returns what each touchpad event in it
    /// led to. Where the batch cannot be processed, nothing is taken in and nothing returned.
    pub fn process_events_at(&mut self, events: &Vec<RawEvent>, now: Instant) -> (reports: Option<
        Vec<Report>,
    >)
        requires
            old(self).wf(),
        ensures
            final(self).wf(),
            reports is Some <==> old(self).can_process(events@),
            reports matches Some(reports) ==> {
                let touched = old(self).sampler().output(events@, now);
                &&& final(self).sampler() == old(self).sampler().after(events@)
                &&& final(self).model() == after_touches::<A>(old(self).model(), touched, now)
                &&& tell_all::<A>(reports@, old(self).model(), touched, now)
            },
            reports is None ==> final(self).sampler() == old(self).sampler()
                && final(self).model() == old(self).model(),
    {
        let ghost sampler = self.sampler@;
        let ghost start = self.model();
        let ghost touched = sampler.output(events@, now);
        if !self.sampler.can_process(events) {
            return None;
        }
        let mut trial = self.sampler;
        let (met, _x, _y) = trial.take_contacts(events);
        if !self.tracker.has_room(met.len()) {
            return None;
        }
        let batch = self.sampler.process_events_at(events, now);
        let mut reports: Vec<Report> = Vec::new();
        let mut i: usize = 0;
        proof {
            law_last_contact_decides(sampler, events@);
            lemma_output_is_measurable(sampler, events@, now);
        }
        while i < batch.len()
            invariant
                i <= batch.len(),
                batch@ == touched,
                touched == sampler.output(events@, now),
                met@ == contacts(events@),
                met@.len() <= touched.len() <= met@.len() + 1,
                touched.take(met@.len() as int) == met@,
                touched.len() > met@.len() ==> touched.last() is Position,
                forall|j: int|
                    0 <= j < met@.len() ==> (#[trigger] met@[j] == TouchpadEvent::FingerDown
                        || met@[j] == TouchpadEvent::FingerUp),
                forall|j: int|
                    0 <= j < touched.len() && #[trigger] touched[j] is Position
                        ==> touched[j]->0.is_measurable(),
                self.tracker.wf(),
                start.tracker.next_id + met@.len() <= u64::MAX,
                start.tracker.current matches Some(ep) ==> ep.samples.len() < u64::MAX,
                self.sampler@ == sampler.after(events@),
                self.model() == after_touches::<A>(start, touched.take(i as int), now),
                reports@.len() == i,
                forall|j: int|
                    0 <= j < i ==> tells::<A>(
                        #[trigger] reports@[j],
                        after_touches::<A>(start, touched.take(j), now),
                        touched[j],
                        now,
                    ),
            decreases batch.len() - i,
        {
            proof {
                let next = touched.take(i as int + 1);
                assert(next.drop_last() == touched.take(i as int));
                assert(next.last() == touched[i as int]);
                let so_far: Seq<TouchpadEvent> = touched.take(i as int);
                assert forall|j: int| 0 <= j < so_far.len() implies (#[trigger] so_far[j]
                    == TouchpadEvent::FingerDown || so_far[j] == TouchpadEvent::FingerUp) by {
                    assert(met@[j] == touched.take(met@.len() as int)[j]);
                }
                lemma_tracker_over_contacts::<A>(start, so_far, now);
                if i < met@.len() {
                    assert(met@[i as int] == touched[i as int]);
                }
            }
            reports.push(self.on_touch(&batch[i], now));
            i = i + 1;
        }
        proof {
            assert(touched.take(batch.len() as int) == touched);
            lemma_episode_follows_finger::<A>(sampler, start, events@, now);
        }
        Some(reports)
    }

    /// Takes in a batch of evdev events. Returns what each touchpad event in it led to. Where the
    /// batch cannot be processed, nothing is taken in and nothing returned.
    pub fn process_events(&mut self, clock: &Clock, events: &[evdev::InputEvent]) -> (reports:
        Option<Vec<Report>>)
        requires
            old(self).wf(),
        ensures
            final(self).wf(),
            reports is Some <==> old(self).can_process(raw_events(events@)),
            reports matches Some(reports) ==> {
                &&& final(self).sampler() == old(self).sampler().after(raw_events(events@))
                &&& exists|now: Instant|
                    {
                        let touched = #[trigger] old(self).sampler().output(
                            raw_events(events@),
                            now,
                        );
                        &&& 0 <= now@
                        &&& clock.shows(now@)
                        &&& final(self).model() == after_touches::<A>(
                            old(self).model(),
                            touched,
                            now,
                        )
                        &&& tell_all::<A>(reports@, old(self).model(), touched, now)
                    }
            },
            reports is None ==> final(self).sampler() == old(self).sampler()
                && final(self).model() == old(self).model(),
    {
        let raw = read_events(events);
        let now = clock.now();
        self.process_events_at(&raw, now)
    }

    /// Takes in `count` key presses. Returns whether there was room for them; where there was
    /// none, nothing is taken in.
    pub fn record_keyboard_presses(&mut self, count: u32) -> (recorded: bool)
        requires
            old(self).wf(),
        ensures
            final(self).wf(),
            final(self).sampler() == old(self).sampler(),
            recorded <==> (old(self).model().tracker.current matches Some(ep) ==> ep.kb_presses
                + count <= u32::MAX),
            final(self).model() == if recorded {
                SessionModel {
                    tracker: old(self).model().tracker.after_presses(count as int),
                    ..old(self).model()
                }
            } else {
                old(self).model()
            },
    {
        if !self.tracker.has_press_room(count) {
            return false;
        }
        self.tracker.record_keyboard_presses(count);
        true
    }
}

/// Over contacts, at most one episode begins with each, and the last contact decides whether one
/// is in progress; it has no samples yet.
proof fn lemma_tracker_over_contacts<A: ActivationAlgorithm>(
    model: SessionModel<A::Model>,
    touched: Seq<TouchpadEvent>,
    now: Instant,
)
    requires
        forall|i: int|
            0 <= i < touched.len() ==> (#[trigger] touched[i] == TouchpadEvent::FingerDown
                || touched[i] == TouchpadEvent::FingerUp),
    ensures
        ({
            let after = after_touches::<A>(model, touched, now);
            &&& model.tracker.next_id <= after.tracker.next_id <= model.tracker.next_id
                + touched.len()
            &&& touched.len() == 0 ==> after == model
            &&& touched.len() > 0 ==> (after.tracker.current is Some <==> touched.last()
                == TouchpadEvent::FingerDown)
            &&& touched.len() > 0 ==> (after.tracker.current matches Some(ep) ==> ep.samples.len()
                == 0)
        }),
    decreases touched.len(),
{
    if touched.len() > 0 {
        let rest = touched.drop_last();
        assert forall|i: int| 0 <= i < rest.len() implies (#[trigger] rest[i]
            == TouchpadEvent::FingerDown || rest[i] == TouchpadEvent::FingerUp) by {
            assert(rest[i] == touched[i]);
        }
        lemma_tracker_over_contacts::<A>(model, rest, now);
    }
}

/// The distance of a position that comes out of a measurable batch can be represented.
proof fn lemma_output_is_measurable(sampler: SamplerState, events: Seq<RawEvent>, now: Instant)
    requires
        sampler.can_measure(events),
    ensures
        forall|i: int|
            0 <= i < sampler.output(events, now).len() && #[trigger] sampler.output(
                events,
                now,
            )[i] is Position ==> sampler.output(events, now)[i]->0.is_measurable(),
{
    law_last_contact_decides(sampler, events);
    let s = scan(sampler.finger_down, events);
    let base = sampler.base(events);
    if sampler.reports_position(events) {
        let d = delta(base, position(base, s.x, s.y));
        lemma_components_fit(d.0, d.1);
    }
}

/// If an episode is in progress exactly if the finger is down, then so it is after a batch.
proof fn lemma_episode_follows_finger<A: ActivationAlgorithm>(
    sampler: SamplerState,
    model: SessionModel<A::Model>,
    events: Seq<RawEvent>,
    now: Instant,
)
    requires
        sampler.finger_down <==> model.tracker.current is Some,
    ensures
        sampler.after(events).finger_down <==> after_touches::<A>(
            model,
            sampler.output(events, now),
            now,
        ).tracker.current is Some,
{
    law_last_contact_decides(sampler, events);
    lemma_tracker_over_contacts::<A>(model, contacts(events), now);
    let touched = sampler.output(events, now);
    if sampler.reports_position(events) {
        assert(touched.drop_last() == contacts(events));
    }
}

/// In every state of a session there is an episode in progress exactly if the finger is down.
pub proof fn law_episode_follows_finger<A: ActivationAlgorithm>(session: Session<A>)
    requires
        session.wf(),
    ensures
        session.sampler().finger_down <==> session.model().tracker.current is Some,
        session.model().tracker.current matches Some(ep) ==> ep.id
            < session.model().tracker.next_id,
{
    law_ids_grow(session.tracker);
}

/// The transitions that reports carry, in order.
pub open spec fn reported(reports: Seq<Report>) -> Seq<GlideState>
    decreases reports.len(),
{
    if reports.len() == 0 {
        Seq::empty()
    } else {
        match reports.last().transition() {
            Some(change) => reported(reports.drop_last()).push(change),
            None => reported(reports.drop_last()),
        }
    }
}

/// The reports carry exactly the transitions of the algorithm: nothing else makes one, and none is
/// lost.
pub proof fn law_reports_carry_transitions<A: ActivationAlgorithm>(
    reports: Seq<Report>,
    model: SessionModel<A::Model>,
    events: Seq<TouchpadEvent>,
    now: Instant,
)
    requires
        tell_all::<A>(reports, model, events, now),
    ensures
        after_touches::<A>(model, events, now).algorithm == after_events::<A>(
            model.algorithm,
            events,
        ),
        reported(reports) == transitions::<A>(model.algorithm, events),
    decreases events.len(),
{
    if events.len() > 0 {
        let last = events.len() - 1;
        let rest = events.drop_last();
        assert(events.take(last) == rest);
        assert(tell_all::<A>(reports.drop_last(), model, rest, now)) by {
            assert forall|i: int| 0 <= i < rest.len() implies tells::<A>(
                #[trigger] reports.drop_last()[i],
                after_touches::<A>(model, rest.take(i), now),
                rest[i],
                now,
            ) by {
                assert(rest.take(i) == events.take(i));
                assert(reports.drop_last()[i] == reports[i]);
            }
        }
        law_reports_carry_transitions::<A>(reports.drop_last(), model, rest, now);
        let before = after_touches::<A>(model, rest, now);
        assert(tells::<A>(reports[last], before, events[last], now));
        A::activity(before.algorithm, arbitrary());
    }
}

/// What the sampler knows after a series of batches, each with the time at which it was read.
pub open spec fn sampler_after(
    sampler: SamplerState,
    batches: Seq<(Seq<RawEvent>, Instant)>,
) -> SamplerState
    decreases batches.len(),
{
    if batches.len() == 0 {
        sampler
    } else {
        sampler_after(sampler, batches.drop_last()).after(batches.last().0)
    }
}

/// The model of a session after a series of batches.
pub open spec fn model_after<A: ActivationAlgorithm>(
    sampler: SamplerState,
    model: SessionModel<A::Model>,
    batches: Seq<(Seq<RawEvent>, Instant)>,
) -> SessionModel<A::Model>
    decreases batches.len(),
{
    if batches.len() == 0 {
        model
    } else {
        let (events, now) = batches.last();
        after_touches::<A>(
            model_after::<A>(sampler, model, batches.drop_last()),
            sampler_after(sampler, batches.drop_last()).output(events, now),
            now,
        )
    }
}

/// The touchpad events that a series of batches yields, in order.
pub open spec fn touches(
    sampler: SamplerState,
    batches: Seq<(Seq<RawEvent>, Instant)>,
) -> Seq<TouchpadEvent>
    decreases batches.len(),
{
    if batches.len() == 0 {
        Seq::empty()
    } else {
        let (events, now) = batches.last();
        touches(sampler, batches.drop_last()) + sampler_after(
            sampler,
            batches.drop_last(),
        ).output(events, now)
    }
}

/// The transitions that the reports on a series of batches carry, in order.
pub open spec fn all_reported(reports: Seq<Seq<Report>>) -> Seq<GlideState>
    decreases reports.len(),
{
    if reports.len() == 0 {
        Seq::empty()
    } else {
        all_reported(reports.drop_last()) + reported(reports.last())
    }
}

/// Whether `reports` are those on a series of batches, one by one.
pub open spec fn tell_session<A: ActivationAlgorithm>(
    reports: Seq<Seq<Report>>,
    sampler: SamplerState,
    model: SessionModel<A::Model>,
    batches: Seq<(Seq<RawEvent>, Instant)>,
) -> bool {
    &&& reports.len() == batches.len()
    &&& forall|k: int|
        0 <= k < batches.len() ==> tell_all::<A>(
            #[trigger] reports[k],
            model_after::<A>(sampler, model, batches.take(k)),
            sampler_after(sampler, batches.take(k)).output(batches[k].0, batches[k].1),
            batches[k].1,
        )
}

/// Over a whole session, the reports carry the transitions of the algorithm over all touchpad
/// events, however these were cut into batches.
pub proof fn law_session_carries_transitions<A: ActivationAlgorithm>(
    reports: Seq<Seq<Report>>,
    sampler: SamplerState,
    model: SessionModel<A::Model>,
    batches: Seq<(Seq<RawEvent>, Instant)>,
)
    requires
        tell_session::<A>(reports, sampler, model, batches),
    ensures
        model_after::<A>(sampler, model, batches).algorithm == after_events::<A>(
            model.algorithm,
            touches(sampler, batches),
        ),
        all_reported(reports) == transitions::<A>(model.algorithm, touches(sampler, batches)),
    decreases batches.len(),
{
    if batches.len() > 0 {
        let last = batches.len() - 1;
        let rest = batches.drop_last();
        assert(batches.take(last) == rest);
        assert(tell_session::<A>(reports.drop_last(), sampler, model, rest)) by {
            assert forall|k: int| 0 <= k < rest.len() implies tell_all::<A>(
                #[trigger] reports.drop_last()[k],
                model_after::<A>(sampler, model, rest.take(k)),
                sampler_after(sampler, rest.take(k)).output(rest[k].0, rest[k].1),
                rest[k].1,
            ) by {
                assert(rest.take(k) == batches.take(k));
                assert(reports.drop_last()[k] == reports[k]);
            }
        }
        law_session_carries_transitions::<A>(reports.drop_last(), sampler, model, rest);
        let (events, now) = batches.last();
        let output = sampler_after(sampler, rest).output(events, now);
        assert(reports[last] == reports.last());
        law_reports_carry_transitions::<A>(
            reports[last],
            model_after::<A>(sampler, model, rest),
            output,
            now,
        );
        law_series_join::<A>(model.algorithm, touches(sampler, rest), output);
    }
}

/// Over a whole session that starts inactive, activations and deactivations take turns, an
/// activation first: kanata is asked to press and to release in turn. If the last touchpad event is
/// the finger being lifted, there were as many deactivations as activations.
pub proof fn law_session_takes_turns<A: ActivationAlgorithm>(
    reports: Seq<Seq<Report>>,
    sampler: SamplerState,
    model: SessionModel<A::Model>,
    batches: Seq<(Seq<RawEvent>, Instant)>,
)
    requires
        tell_session::<A>(reports, sampler, model, batches),
        !A::active(model.algorithm),
    ensures
        forall|i: int|
            0 <= i < all_reported(reports).len() ==> #[trigger] all_reported(reports)[i] == if i % 2
                == 0 {
                GlideState::Active
            } else {
                GlideState::Inactive
            },
        touches(sampler, batches).len() > 0 && touches(sampler, batches).last() is FingerUp
            ==> all_reported(reports).len() % 2 == 0,
{
    law_session_carries_transitions::<A>(reports, sampler, model, batches);
    law_transitions_alternate::<A>(model.algorithm, touches(sampler, batches));
    if touches(sampler, batches).len() > 0 && touches(sampler, batches).last() is FingerUp {
        law_lifting_releases::<A>(model.algorithm, touches(sampler, batches));
    }
}

/// The model of a session after a finger came down at `down`, and after each of some samples that
/// came at the time that stands with it.
pub open spec fn after_contact<A: ActivationAlgorithm>(
    model: SessionModel<A::Model>,
    down: Instant,
    samples: Seq<(Sample, Instant)>,
) -> SessionModel<A::Model>
    decreases samples.len(),
{
    if samples.len() == 0 {
        after_touch::<A>(model, TouchpadEvent::FingerDown, down)
    } else {
        after_touch::<A>(
            after_contact::<A>(model, down, samples.drop_last()),
            TouchpadEvent::Position(samples.last().0),
            samples.last().1,
        )
    }
}

/// An episode is what happens from the finger coming down to its being lifted: it has the samples
/// in between and no others, and it activated exactly if there is activity.
pub proof fn law_episode_is_one_contact<A: ActivationAlgorithm>(
    model: SessionModel<A::Model>,
    down: Instant,
    samples: Seq<(Sample, Instant)>,
)
    requires
        !A::active(model.algorithm),
    ensures
        ({
            let after = after_contact::<A>(model, down, samples);
            &&& after.tracker.threshold_sq == model.tracker.threshold_sq
            &&& after.tracker.next_id == model.tracker.next_id + 1
            &&& after.tracker.current matches Some(ep) && ep.id == model.tracker.next_id as u64
                && ep.start == down && ep.samples == samples.map_values(
                |s: (Sample, Instant)| s.0,
            ) && (ep.activation is Some <==> A::active(after.algorithm))
        }),
    decreases samples.len(),
{
    if samples.len() == 0 {
        A::activity(model.algorithm, arbitrary());
        assert(samples.map_values(|s: (Sample, Instant)| s.0) == Seq::<Sample>::empty());
    } else {
        let rest = samples.drop_last();
        law_episode_is_one_contact::<A>(model, down, rest);
        let before = after_contact::<A>(model, down, rest);
        A::activity(before.algorithm, samples.last().0);
        assert(samples.map_values(|s: (Sample, Instant)| s.0) == rest.map_values(
            |s: (Sample, Instant)| s.0,
        ).push(samples.last().0));
    }
}

/// When the finger is lifted, the report says the same of the activity three times over: there was
/// activity, it ends now, and the episode activated; each holds exactly if the others do.
pub proof fn law_lifting_reports_activity<A: ActivationAlgorithm>(
    model: SessionModel<A::Model>,
    down: Instant,
    samples: Seq<(Sample, Instant)>,
    up: Instant,
    report: Report,
)
    requires
        !A::active(model.algorithm),
        tells::<A>(
            report,
            after_contact::<A>(model, down, samples),
            TouchpadEvent::FingerUp,
            up,
        ),
    ensures
        report->summary is Some,
        report->was_active <==> report.transition() == Some(GlideState::Inactive),
        report->was_active <==> report->summary->0.activated,
        report->summary->0.total_samples == samples.len(),
        report->summary->0.duration@ == elapsed(up@, down@),
{
    law_episode_is_one_contact::<A>(model, down, samples);
    A::activity(after_contact::<A>(model, down, samples).algorithm, arbitrary());
}

/// What each touchpad event does to a session. A finger that comes down begins an episode of its
/// own, one that is lifted ends it, and a sample is added to it; the episode activates at the time
/// of the sample that makes the algorithm active. The algorithm is told of every event.
pub proof fn law_touch_moves_session<A: ActivationAlgorithm>(
    model: SessionModel<A::Model>,
    event: TouchpadEvent,
    now: Instant,
)
    ensures
        ({
            let after = after_touch::<A>(model, event, now);
            let tracker = after.tracker;
            &&& tracker.threshold_sq == model.tracker.threshold_sq
            &&& event is FingerDown ==> {
                &&& after.algorithm == A::after_finger_down(model.algorithm)
                &&& tracker.next_id == model.tracker.next_id + 1
                &&& tracker.current is Some
                &&& tracker.current->0.id == model.tracker.next_id as u64
                &&& tracker.current->0.start == now
                &&& tracker.current->0.samples.len() == 0
                &&& tracker.current->0.activation is None
                &&& tracker.current->0.kb_presses == 0
            }
            &&& event is FingerUp ==> {
                &&& after.algorithm == A::after_finger_up(model.algorithm)
                &&& tracker.next_id == model.tracker.next_id
                &&& tracker.current is None
            }
            &&& event matches TouchpadEvent::Position(sample) ==> {
                &&& after.algorithm == A::after_sample(model.algorithm, sample)
                &&& tracker.next_id == model.tracker.next_id
                &&& model.tracker.current is None ==> tracker.current is None
                &&& model.tracker.current matches Some(ep) ==> {
                    &&& tracker.current is Some
                    &&& tracker.current->0.id == ep.id
                    &&& tracker.current->0.start == ep.start
                    &&& tracker.current->0.kb_presses == ep.kb_presses
                    &&& tracker.current->0.samples.len() == ep.samples.len() + 1
                    &&& tracker.current->0.samples.last() == sample
                    &&& tracker.current->0.samples.drop_last() == ep.samples
                    &&& !A::active(model.algorithm) && A::active(after.algorithm)
                        ==> tracker.current->0.activation == Some(sample.timestamp)
                    &&& A::active(model.algorithm) || !A::active(after.algorithm)
                        ==> tracker.current->0.activation == ep.activation
                }
            }
        }),
{
    if let TouchpadEvent::Position(sample) = event {
        if let Some(ep) = model.tracker.current {
            assert(ep.samples.push(sample).drop_last() == ep.samples);
        }
    }
}

/// Touchpad events may come in any portions: a session does over two series in a row what it does
/// over the first and then over the second, and over none nothing.
pub proof fn law_touches_join<A: ActivationAlgorithm>(
    model: SessionModel<A::Model>,
    first: Seq<TouchpadEvent>,
    second: Seq<TouchpadEvent>,
    event: TouchpadEvent,
    now: Instant,
)
    ensures
        after_touches::<A>(model, first + second, now) == after_touches::<A>(
            after_touches::<A>(model, first, now),
            second,
            now,
        ),
        after_touches::<A>(model, Seq::empty(), now) == model,
        after_touches::<A>(model, seq![event], now) == after_touch::<A>(model, event, now),
    decreases second.len(),
{
    if second.len() == 0 {
        assert(first + second == first);
    } else {
        law_touches_join::<A>(model, first, second.drop_last(), event, now);
        assert((first + second).drop_last() == first + second.drop_last());
        assert((first + second).last() == second.last());
    }
    reveal_with_fuel(after_touches, 2);
    assert(seq![event].drop_last() == Seq::<TouchpadEvent>::empty());
}

/// There is one report for each touchpad event, in order and of its kind.
pub proof fn law_one_report_for_each_event<A: ActivationAlgorithm>(
    reports: Seq<Report>,
    model: SessionModel<A::Model>,
    events: Seq<TouchpadEvent>,
    now: Instant,
)
    requires
        tell_all::<A>(reports, model, events, now),
    ensures
        reports.len() == events.len(),
        forall|i: int|
            0 <= i < events.len() ==> {
                &&& (#[trigger] reports[i]) is FingerDown <==> events[i] is FingerDown
                &&& reports[i] is FingerUp <==> events[i] is FingerUp
                &&& reports[i] is Sample <==> events[i] is Position
                &&& events[i] matches TouchpadEvent::Position(sample) ==> reports[i]->sample
                    == sample
            },
        forall|i: int|
            0 <= i < events.len() ==> tells::<A>(
                #[trigger] reports[i],
                after_touches::<A>(model, events.take(i), now),
                events[i],
                now,
            ),
{
    assert forall|i: int| 0 <= i < events.len() implies {
        &&& (#[trigger] reports[i]) is FingerDown <==> events[i] is FingerDown
        &&& reports[i] is FingerUp <==> events[i] is FingerUp
        &&& reports[i] is Sample <==> events[i] is Position
        &&& events[i] matches TouchpadEvent::Position(sample) ==> reports[i]->sample == sample
    } by {
        assert(tells::<A>(
            reports[i],
            after_touches::<A>(model, events.take(i), now),
            events[i],
            now,
        ));
    }
}

/// What a report says. That a finger came down: when, and the ID of the episode that begins. That it
/// was lifted: when, whether there was activity, that this ends, and the summary of the episode. Of
/// a sample: the sample, its episode, whether it moved at least as far as the threshold, whether
/// there is activity after it, whether it brought that about, and the counts of the window.
pub proof fn law_report_tells_event<A: ActivationAlgorithm>(
    report: Report,
    model: SessionModel<A::Model>,
    event: TouchpadEvent,
    now: Instant,
)
    requires
        tells::<A>(report, model, event, now),
    ensures
        event is FingerDown ==> {
            &&& report is FingerDown
            &&& report->FingerDown_at == now
            &&& report->FingerDown_episode_id == model.tracker.next_id as u64
        },
        event is FingerUp ==> {
            &&& report is FingerUp
            &&& report->FingerUp_at == now
            &&& report->was_active == A::active(model.algorithm)
            &&& report->was_active ==> report->FingerUp_change == Some(GlideState::Inactive)
            &&& !report->was_active ==> report->FingerUp_change is None
            &&& report->summary is Some <==> model.tracker.current is Some
            &&& model.tracker.current matches Some(ep) ==> report->summary->0.id == ep.id
                && report->summary->0.start == ep.start && report->summary->0.end == now
                && report->summary->0.total_samples == ep.samples.len()
                && report->summary->0.kb_presses_during == ep.kb_presses
                && report->summary->0.activated == (ep.activation is Some)
                && report->summary->0.summarizes(ep, now, model.tracker.threshold_sq)
        },
        event matches TouchpadEvent::Position(sample) ==> {
            let active = A::active(A::after_sample(model.algorithm, sample));
            &&& report is Sample
            &&& report->sample == sample
            &&& report->Sample_episode_id is Some <==> model.tracker.current is Some
            &&& model.tracker.current matches Some(ep) ==> report->Sample_episode_id == Some(ep.id)
            &&& report->is_motion <==> sample.dx * sample.dx + sample.dy * sample.dy
                >= model.tracker.threshold_sq
            &&& report->active == active
            &&& active && !A::active(model.algorithm) ==> report->Sample_change == Some(
                GlideState::Active,
            )
            &&& active == A::active(model.algorithm) ==> report->Sample_change is None
            &&& report->motion_ratio is Some <==> A::motion_ratio(
                A::after_sample(model.algorithm, sample),
            ) is Some
            &&& report->motion_ratio matches Some((motion, total)) ==> A::motion_ratio(
                A::after_sample(model.algorithm, sample),
            ) == Some((motion as nat, total as nat))
        },
        report.transition() == match report {
            Report::FingerDown { .. } => None,
            Report::FingerUp { change, .. } => change,
            Report::Sample { change, .. } => change,
        },
{
    A::activity(model.algorithm, arbitrary());
}

/// An episode activates when the algorithm does: its activation has the time of the sample before
/// which there was no activity and after which there is.
pub proof fn law_episode_activates_with_algorithm<A: ActivationAlgorithm>(
    model: SessionModel<A::Model>,
    down: Instant,
    samples: Seq<(Sample, Instant)>,
)
    requires
        !A::active(model.algorithm),
        A::active(after_contact::<A>(model, down, samples).algorithm),
    ensures
        after_contact::<A>(model, down, samples).tracker.current is Some,
        exists|k: int|
            0 <= k < samples.len() && !A::active(
                after_contact::<A>(model, down, samples.take(k)).algorithm,
            ) && A::active(after_contact::<A>(model, down, samples.take(k + 1)).algorithm)
                && after_contact::<A>(model, down, samples).tracker.current->0.activation == Some(
                (#[trigger] samples[k]).0.timestamp,
            ),
    decreases samples.len(),
{
    let n = samples.len() as int;
    if n == 0 {
        A::activity(model.algorithm, arbitrary());
    } else {
        let rest = samples.drop_last();
        let before = after_contact::<A>(model, down, rest);
        law_episode_is_one_contact::<A>(model, down, rest);
        law_episode_is_one_contact::<A>(model, down, samples);
        assert(samples.take(n) == samples);
        assert(samples.take(n - 1) == rest);
        if A::active(before.algorithm) {
            law_episode_activates_with_algorithm::<A>(model, down, rest);
            let k = choose|k: int|
                0 <= k < rest.len() && !A::active(
                    after_contact::<A>(model, down, rest.take(k)).algorithm,
                ) && A::active(after_contact::<A>(model, down, rest.take(k + 1)).algorithm)
                    && after_contact::<A>(model, down, rest).tracker.current->0.activation == Some(
                    (#[trigger] rest[k]).0.timestamp,
            );
            assert(rest[k] == samples[k]);
            assert(rest.take(k) == samples.take(k));
            assert(rest.take(k + 1) == samples.take(k + 1));
        } else {
            assert(samples[n - 1] == samples.last());
            assert(after_contact::<A>(model, down, samples).tracker.current->0.activation == Some(
                samples[n - 1].0.timestamp,
            ));
        }
    }
}

/// What a session refuses: exactly a batch whose distance cannot be measured, that has more events
/// of the finger button than there are IDs left, or that comes when no more samples can be counted.
pub proof fn law_what_a_session_refuses<A: ActivationAlgorithm>(
    session: Session<A>,
    events: Seq<RawEvent>,
)
    ensures
        session.can_process(events) <==> {
            &&& session.sampler().can_measure(events)
            &&& session.model().tracker.next_id + events.filter(
                |e: RawEvent| e.kind == 1 && e.code == 325,
            ).len() <= u64::MAX
            &&& session.model().tracker.current is Some
                ==> session.model().tracker.current->0.samples.len() < u64::MAX
        },
{
    law_contacts_are_button_events(events);
    lemma_button_events(events);
}

proof fn lemma_button_events(events: Seq<RawEvent>)
    ensures
        events.filter(|e: RawEvent| is_contact(e)).len() == events.filter(
            |e: RawEvent| e.kind == 1 && e.code == 325,
        ).len(),
    decreases events.len(),
{
    reveal(Seq::filter);
    if events.len() > 0 {
        lemma_button_events(events.drop_last());
    }
}

} // verus!
