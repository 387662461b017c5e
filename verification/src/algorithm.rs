//! Deciding from position samples when the touchpad is being used intentionally.
use std::collections::VecDeque;

use vstd::prelude::*;

use crate::clock::{cutoff, millis, Duration, Instant, EARLIEST_NANOS};
use crate::sampler::{distance_sq, Sample, TouchpadEvent};
use crate::window::{
    count_motion, drop_stale, exceeds_ratio, fills_window, fresh, in_order, is_filled, is_more_than,
    law_motion_percent, law_window_is_judged_by_counts, lemma_fresh_again, lemma_fresh_is_suffix,
    marks, motion_count, motion_percent, percentage, MARGIN_MS,
};

verus! {

/// State transitions emitted by an activation algorithm.
#[derive(Clone, Copy, Debug, PartialEq, Eq, Structural)]
pub enum GlideState {
    Active,
    Inactive,
}

/// The largest motion threshold whose square can be represented.
pub const MAX_MOTION_THRESHOLD: u16 = 46_340;

/// The transition between two states of activity, if there is one.
pub open spec fn transition(was_active: bool, is_active: bool) -> Option<GlideState> {
    if was_active == is_active {
        None
    } else if is_active {
        Some(GlideState::Active)
    } else {
        Some(GlideState::Inactive)
    }
}

/// An activation algorithm consumes touchpad events and decides
/// when the touchpad is being intentionally used.
///
/// What an algorithm keeps is described by a model, and what each event does to it by a function
/// on models. Every event reports the transition between the activity before and after it.
pub trait ActivationAlgorithm: Sized {
    /// What the algorithm keeps.
    type Model;

    /// The model of this algorithm in its present state.
    spec fn model(&self) -> Self::Model;

    /// Whether the touchpad is being used intentionally.
    spec fn active(model: Self::Model) -> bool;

    /// The number of samples with motion in the rolling window, and of all samples in it, if
    /// there is a window that holds any.
    spec fn motion_ratio(model: Self::Model) -> Option<(nat, nat)>;

    /// The model after the finger came down.
    spec fn after_finger_down(model: Self::Model) -> Self::Model;

    /// The model after the finger was lifted.
    spec fn after_finger_up(model: Self::Model) -> Self::Model;

    /// The model after a sample.
    spec fn after_sample(model: Self::Model, sample: Sample) -> Self::Model;

    /// A finger that comes down does not change the activity, a finger that is lifted ends it, and
    /// a sample does not end it.
    proof fn activity(model: Self::Model, sample: Sample)
        ensures
            Self::active(Self::after_finger_down(model)) == Self::active(model),
            !Self::active(Self::after_finger_up(model)),
            Self::active(model) ==> Self::active(Self::after_sample(model, sample)),
    ;

    /// Takes note that the finger came down.
    fn on_finger_down(&mut self)
        ensures
            final(self).model() == Self::after_finger_down(old(self).model()),
    ;

    /// Takes note that the finger was lifted.
    fn on_finger_up(&mut self) -> (change: Option<GlideState>)
        ensures
            final(self).model() == Self::after_finger_up(old(self).model()),
            change == transition(
                Self::active(old(self).model()),
                Self::active(final(self).model()),
            ),
    ;

    /// Takes in a sample.
    fn on_sample(&mut self, sample: &Sample) -> (change: Option<GlideState>)
        requires
            Self::active(old(self).model()) || sample.is_measurable(),
        ensures
            final(self).model() == Self::after_sample(old(self).model(), *sample),
            change == transition(
                Self::active(old(self).model()),
                Self::active(final(self).model()),
            ),
    ;

    /// Current motion ratio in the rolling window, if applicable: the number of samples with
    /// motion, and the number of all samples.
    fn current_motion_ratio(&self) -> (ratio: Option<(usize, usize)>)
        ensures
            match ratio {
                Some((motion, total)) => Self::motion_ratio(self.model()) == Some(
                    (motion as nat, total as nat),
                ),
                None => Self::motion_ratio(self.model()) is None,
            },
    ;

    /// Whether the touchpad is being used intentionally.
    fn is_active(&self) -> (r: bool)
        ensures
            r == Self::active(self.model()),
    ;
}

/// What a rolling window algorithm keeps.
pub struct WindowModel {
    pub active: bool,
    /// The square of the distance from which a sample counts as motion.
    pub threshold_sq: int,
    /// The length of the window in nanoseconds.
    pub window: int,
    /// The percentage that the share of samples with motion is held against.
    pub ratio: int,
    /// When each sample of the window was taken, and whether it has motion.
    pub samples: Seq<(int, bool)>,
}

impl WindowModel {
    /// The samples of the window once one more is in and the stale ones are out.
    pub open spec fn window_with(self, at: int, is_motion: bool) -> Seq<(int, bool)> {
        fresh(self.samples.push((at, is_motion)), cutoff(at, self.window))
    }

    /// The model after a sample. An active algorithm ignores it. Otherwise the window takes it in
    /// and lets go of what is stale, and if it is filled then, more than the percentage of samples
    /// with motion activates.
    pub open spec fn with_sample(self, at: int, is_motion: bool) -> WindowModel {
        if self.active {
            self
        } else {
            let samples = self.window_with(at, is_motion);
            WindowModel {
                active: is_filled(samples, at, self.window) && exceeds_ratio(samples, self.ratio),
                samples,
                ..self
            }
        }
    }
}

/// Rolling window algorithm: counts motion-positive samples within a time
/// window and activates when the ratio exceeds a threshold.
pub struct RollingWindowAlgorithm {
    is_active: bool,
    motion_threshold_sq: i32,
    activation_window_ms: u64,
    activation_ratio: usize,
    samples: VecDeque<(Instant, bool)>,
}

impl View for RollingWindowAlgorithm {
    type V = WindowModel;

    closed spec fn view(&self) -> WindowModel {
        WindowModel {
            active: self.is_active,
            threshold_sq: self.motion_threshold_sq as int,
            window: millis(self.activation_window_ms as int),
            ratio: self.activation_ratio as int,
            samples: marks(self.samples@),
        }
    }
}

impl RollingWindowAlgorithm {
    /// An inactive algorithm with an empty window.
    pub fn new(motion_threshold: u16, window_ms: u64, ratio: u16) -> (r: Self)
        requires
            motion_threshold <= MAX_MOTION_THRESHOLD,
        ensures
            r@ == (WindowModel {
                active: false,
                threshold_sq: motion_threshold * motion_threshold,
                window: millis(window_ms as int),
                ratio: ratio as int,
                samples: Seq::empty(),
            }),
    {
        let t: i32 = motion_threshold as i32;
        proof {
            assert(0 <= t * t <= 46_340 * 46_340) by (nonlinear_arith)
                requires
                    0 <= t <= 46_340,
            ;
        }
        let r = RollingWindowAlgorithm {
            is_active: false,
            motion_threshold_sq: t * t,
            activation_window_ms: window_ms,
            activation_ratio: ratio as usize,
            samples: VecDeque::with_capacity(64),
        };
        assert(marks(r.samples@) == Seq::<(int, bool)>::empty());
        r
    }

    /// Forgets the samples.
    fn reset(&mut self)
        ensures
            final(self)@ == (WindowModel { samples: Seq::empty(), ..old(self)@ }),
    {
        self.samples.clear();
        assert(marks(self.samples@) == Seq::<(int, bool)>::empty());
    }

    /// Drops the samples that are stale at `now`. Returns the number of those that are left, of
    /// those among them with motion, and the percentage of these.
    fn evict_and_ratio(&mut self, now: Instant) -> (r: (usize, usize, usize))
        ensures
            final(self)@ == (WindowModel {
                samples: fresh(old(self)@.samples, cutoff(now@, old(self)@.window)),
                ..old(self)@
            }),
            r.0 == final(self)@.samples.len(),
            r.1 == motion_count(final(self)@.samples),
            r.2 == motion_percent(final(self)@.samples),
            final(self).activation_window_ms == old(self).activation_window_ms,
            final(self).activation_ratio == old(self).activation_ratio,
            final(self).samples@.len() > 0 ==> final(self).samples@[0].0@ >= cutoff(
                now@,
                old(self)@.window,
            ),
    {
        let oldest_kept = now.cutoff(Duration::from_millis(self.activation_window_ms));
        drop_stale(&mut self.samples, oldest_kept);
        let total: usize = self.samples.len();
        let motion: usize = count_motion(&self.samples);
        let percent: usize = if total > 0 {
            percentage(motion, total)
        } else {
            0
        };
        (total, motion, percent)
    }

    /// Drops the samples that are stale at `now`, and tells whether those that are left fill the
    /// window and exceed the ratio.
    fn check_activation(&mut self, now: Instant) -> (r: bool)
        ensures
            final(self)@ == (WindowModel {
                samples: fresh(old(self)@.samples, cutoff(now@, old(self)@.window)),
                ..old(self)@
            }),
            r == (is_filled(final(self)@.samples, now@, final(self)@.window) && exceeds_ratio(
                final(self)@.samples,
                final(self)@.ratio,
            )),
    {
        let (total, motion, _percent) = self.evict_and_ratio(now);
        fills_window(&self.samples, now, self.activation_window_ms) && is_more_than(
            motion,
            total,
            self.activation_ratio,
        )
    }
}

impl ActivationAlgorithm for RollingWindowAlgorithm {
    type Model = WindowModel;

    open spec fn model(&self) -> WindowModel {
        self@
    }

    open spec fn active(model: WindowModel) -> bool {
        model.active
    }

    open spec fn motion_ratio(model: WindowModel) -> Option<(nat, nat)> {
        if model.samples.len() > 0 {
            Some((motion_count(model.samples), model.samples.len()))
        } else {
            None
        }
    }

    open spec fn after_finger_down(model: WindowModel) -> WindowModel {
        WindowModel { samples: Seq::empty(), ..model }
    }

    open spec fn after_finger_up(model: WindowModel) -> WindowModel {
        WindowModel { active: false, samples: Seq::empty(), ..model }
    }

    open spec fn after_sample(model: WindowModel, sample: Sample) -> WindowModel {
        model.with_sample(sample.timestamp@, sample.is_motion(model.threshold_sq))
    }

    proof fn activity(model: WindowModel, sample: Sample) {
    }

    fn on_finger_down(&mut self) {
        self.reset();
    }

    fn on_finger_up(&mut self) -> (change: Option<GlideState>) {
        self.reset();
        if self.is_active {
            self.is_active = false;
            Some(GlideState::Inactive)
        } else {
            None
        }
    }

    fn on_sample(&mut self, sample: &Sample) -> (change: Option<GlideState>) {
        if self.is_active {
            return None;
        }
        let dist_sq: i32 = distance_sq(sample.dx, sample.dy);
        let is_motion = dist_sq >= self.motion_threshold_sq;
        let ghost before = self.samples@;
        self.samples.push_back((sample.timestamp, is_motion));
        assert(marks(self.samples@) == marks(before).push((sample.timestamp@, is_motion)));

        if self.check_activation(sample.timestamp) {
            self.is_active = true;
            Some(GlideState::Active)
        } else {
            None
        }
    }

    fn current_motion_ratio(&self) -> (ratio: Option<(usize, usize)>) {
        let total: usize = self.samples.len();
        if total == 0 {
            return None;
        }
        Some((count_motion(&self.samples), total))
    }

    fn is_active(&self) -> (r: bool) {
        self.is_active
    }
}

/// The model of an algorithm after a touchpad event.
pub open spec fn after_event<A: ActivationAlgorithm>(
    model: A::Model,
    event: TouchpadEvent,
) -> A::Model {
    match event {
        TouchpadEvent::FingerDown => A::after_finger_down(model),
        TouchpadEvent::FingerUp => A::after_finger_up(model),
        TouchpadEvent::Position(sample) => A::after_sample(model, sample),
    }
}

/// The model of an algorithm after a series of touchpad events.
pub open spec fn after_events<A: ActivationAlgorithm>(
    model: A::Model,
    events: Seq<TouchpadEvent>,
) -> A::Model
    decreases events.len(),
{
    if events.len() == 0 {
        model
    } else {
        after_event::<A>(after_events::<A>(model, events.drop_last()), events.last())
    }
}

/// The samples as touchpad events.
pub open spec fn positions(samples: Seq<Sample>) -> Seq<TouchpadEvent> {
    samples.map_values(|s: Sample| TouchpadEvent::Position(s))
}

/// The transitions that an algorithm reports over a series of touchpad events, in order.
pub open spec fn transitions<A: ActivationAlgorithm>(
    model: A::Model,
    events: Seq<TouchpadEvent>,
) -> Seq<GlideState>
    decreases events.len(),
{
    if events.len() == 0 {
        Seq::empty()
    } else {
        let earlier = transitions::<A>(model, events.drop_last());
        let before = after_events::<A>(model, events.drop_last());
        match transition(A::active(before), A::active(after_event::<A>(before, events.last()))) {
            Some(change) => earlier.push(change),
            None => earlier,
        }
    }
}

/// Events may come in any portions: the model after, and the transitions over, two series in a row
/// are those over the first, and then those over the second.
pub proof fn law_series_join<A: ActivationAlgorithm>(
    model: A::Model,
    first: Seq<TouchpadEvent>,
    second: Seq<TouchpadEvent>,
)
    ensures
        after_events::<A>(model, first + second) == after_events::<A>(
            after_events::<A>(model, first),
            second,
        ),
        transitions::<A>(model, first + second) == transitions::<A>(model, first) + transitions::<
            A,
        >(after_events::<A>(model, first), second),
    decreases second.len(),
{
    if second.len() == 0 {
        assert(first + second == first);
        assert(transitions::<A>(model, first) + Seq::<GlideState>::empty() == transitions::<A>(
            model,
            first,
        ));
    } else {
        law_series_join::<A>(model, first, second.drop_last());
        assert((first + second).drop_last() == first + second.drop_last());
        assert((first + second).last() == second.last());
    }
}

/// An algorithm that starts inactive reports activations and deactivations in turn, an activation
/// first, and is active exactly if the last that it reported is an activation.
pub proof fn law_transitions_alternate<A: ActivationAlgorithm>(
    model: A::Model,
    events: Seq<TouchpadEvent>,
)
    requires
        !A::active(model),
    ensures
        forall|i: int|
            0 <= i < transitions::<A>(model, events).len() ==> #[trigger] transitions::<A>(
                model,
                events,
            )[i] == if i % 2 == 0 {
                GlideState::Active
            } else {
                GlideState::Inactive
            },
        A::active(after_events::<A>(model, events)) == (transitions::<A>(model, events).len() % 2
            == 1),
    decreases events.len(),
{
    if events.len() > 0 {
        law_transitions_alternate::<A>(model, events.drop_last());
    }
}

/// Lifting the finger always leaves an algorithm inactive, and reports a deactivation exactly if
/// it was active: whatever was activated has then been deactivated.
pub proof fn law_lifting_releases<A: ActivationAlgorithm>(
    model: A::Model,
    events: Seq<TouchpadEvent>,
)
    requires
        !A::active(model),
        events.len() > 0,
        events.last() is FingerUp,
    ensures
        !A::active(after_events::<A>(model, events)),
        transitions::<A>(model, events).len() % 2 == 0,
        A::active(after_events::<A>(model, events.drop_last())) ==> transitions::<A>(
            model,
            events,
        ) == transitions::<A>(model, events.drop_last()).push(GlideState::Inactive),
        !A::active(after_events::<A>(model, events.drop_last())) ==> transitions::<A>(
            model,
            events,
        ) == transitions::<A>(model, events.drop_last()),
{
    law_transitions_alternate::<A>(model, events);
    law_transitions_alternate::<A>(model, events.drop_last());
    A::activity(after_events::<A>(model, events.drop_last()), arbitrary());
}

/// A resting finger never activates: without a sample with motion there is no activation.
pub proof fn law_rest_never_fills_window(model: WindowModel, samples: Seq<Sample>)
    requires
        !model.active,
        model.samples.len() == 0,
        model.ratio >= 0,
        forall|i: int|
            0 <= i < samples.len() ==> !(#[trigger] samples[i]).is_motion(model.threshold_sq),
    ensures
        !after_events::<RollingWindowAlgorithm>(model, positions(samples)).active,
        ({
            let after = after_events::<RollingWindowAlgorithm>(model, positions(samples));
            &&& after.ratio == model.ratio
            &&& after.threshold_sq == model.threshold_sq
            &&& forall|i: int| 0 <= i < after.samples.len() ==> !(#[trigger] after.samples[i]).1
        }),
    decreases samples.len(),
{
    if samples.len() > 0 {
        let rest = samples.drop_last();
        assert forall|i: int| 0 <= i < rest.len() implies !(#[trigger] rest[i]).is_motion(
            model.threshold_sq,
        ) by {
            assert(rest[i] == samples[i]);
        }
        law_rest_never_fills_window(model, rest);
        assert(positions(samples).drop_last() == positions(rest));
        let before = after_events::<RollingWindowAlgorithm>(model, positions(rest));
        let last = samples.last();
        let all = before.samples.push((last.timestamp@, false));
        let k = lemma_fresh_is_suffix(all, cutoff(last.timestamp@, before.window));
        assert forall|i: int| 0 <= i < all.skip(k).len() implies !(#[trigger] all.skip(k)[i]).1 by {
            assert(all.skip(k)[i] == all[i + k]);
        }
        law_motion_percent(all.skip(k), model.ratio);
    }
}

/// A brief touch never activates: there is no activation before the window is filled up to the
/// margin, counted from the first sample.
pub proof fn law_brief_touch_never_activates(
    model: WindowModel,
    samples: Seq<Sample>,
    start: int,
    end: int,
)
    requires
        !model.active,
        model.samples.len() == 0,
        end - start + millis(MARGIN_MS as int) < model.window,
        start <= end,
        forall|i: int|
            0 <= i < samples.len() ==> start <= (#[trigger] samples[i]).timestamp@ <= end,
    ensures
        !after_events::<RollingWindowAlgorithm>(model, positions(samples)).active,
        ({
            let after = after_events::<RollingWindowAlgorithm>(model, positions(samples));
            &&& after.window == model.window
            &&& forall|i: int| 0 <= i < after.samples.len() ==> start <= (#[trigger] after.samples[i]).0
        }),
    decreases samples.len(),
{
    if samples.len() > 0 {
        let rest = samples.drop_last();
        assert forall|i: int| 0 <= i < rest.len() implies start <= (#[trigger] rest[i]).timestamp@
            <= end by {
            assert(rest[i] == samples[i]);
        }
        law_brief_touch_never_activates(model, rest, start, end);
        assert(positions(samples).drop_last() == positions(rest));
        let before = after_events::<RollingWindowAlgorithm>(model, positions(rest));
        let last = samples.last();
        let all = before.samples.push(
            (last.timestamp@, last.is_motion(before.threshold_sq)),
        );
        let k = lemma_fresh_is_suffix(all, cutoff(last.timestamp@, before.window));
        assert forall|i: int| 0 <= i < all.skip(k).len() implies start <= (#[trigger] all.skip(
            k,
        )[i]).0 by {
            assert(all.skip(k)[i] == all[i + k]);
        }
    }
}

/// When each of the samples was taken, and whether it has motion.
pub open spec fn sample_marks(samples: Seq<Sample>, threshold_sq: int) -> Seq<(int, bool)> {
    samples.map_values(|s: Sample| (s.timestamp@, s.is_motion(threshold_sq)))
}

/// While the finger stays down and there is no activation, the window holds what is recent of all
/// samples, whatever it has let go of on the way.
pub proof fn law_window_follows_samples(model: WindowModel, samples: Seq<Sample>)
    requires
        !model.active,
        model.samples.len() == 0,
        0 <= model.window,
        samples.len() > 0,
        in_order(sample_marks(samples, model.threshold_sq)),
        samples[0].timestamp@ - model.window >= EARLIEST_NANOS,
    ensures
        ({
            let after = after_events::<RollingWindowAlgorithm>(model, positions(samples));
            &&& after == (WindowModel { active: after.active, samples: after.samples, ..model })
            &&& !after.active ==> after.samples == fresh(
                sample_marks(samples, model.threshold_sq),
                cutoff(samples.last().timestamp@, model.window),
            )
        }),
    decreases samples.len(),
{
    let all = sample_marks(samples, model.threshold_sq);
    let rest = samples.drop_last();
    let last = samples.last();
    let before = after_events::<RollingWindowAlgorithm>(model, positions(rest));
    assert(positions(samples).drop_last() == positions(rest));
    assert(all == sample_marks(rest, model.threshold_sq).push(
        (last.timestamp@, last.is_motion(model.threshold_sq)),
    ));
    if rest.len() == 0 {
        assert(model.samples == sample_marks(rest, model.threshold_sq));
    } else {
        assert forall|i: int, j: int| 0 <= i <= j < rest.len() implies sample_marks(
            rest,
            model.threshold_sq,
        )[i].0 <= sample_marks(rest, model.threshold_sq)[j].0 by {
            assert(all[i].0 <= all[j].0);
        }
        assert(rest[0] == samples[0]);
        law_window_follows_samples(model, rest);
        assert(all[0].0 <= all[rest.len() - 1].0 <= all[rest.len() as int].0);
        lemma_fresh_again(
            sample_marks(rest, model.threshold_sq),
            cutoff(rest.last().timestamp@, model.window),
            (last.timestamp@, last.is_motion(model.threshold_sq)),
            cutoff(last.timestamp@, model.window),
        );
    }
}

/// Sustained motion activates: if every sample has motion, no sample follows another by more than
/// the margin, and the last comes at least the length of the window after the first, then the
/// algorithm is active.
pub proof fn law_sustained_motion_activates(model: WindowModel, samples: Seq<Sample>)
    requires
        !model.active,
        model.samples.len() == 0,
        millis(MARGIN_MS as int) <= model.window,
        model.ratio < 100,
        samples.len() > 0,
        in_order(sample_marks(samples, model.threshold_sq)),
        samples[0].timestamp@ - model.window >= EARLIEST_NANOS,
        forall|i: int|
            0 <= i < samples.len() ==> (#[trigger] samples[i]).is_motion(model.threshold_sq),
        forall|i: int|
            0 < i < samples.len() ==> (#[trigger] samples[i]).timestamp@ - samples[i
                - 1].timestamp@ <= millis(MARGIN_MS as int),
        samples.last().timestamp@ - samples[0].timestamp@ >= model.window,
    ensures
        after_events::<RollingWindowAlgorithm>(model, positions(samples)).active,
{
    let after = after_events::<RollingWindowAlgorithm>(model, positions(samples));
    let all = sample_marks(samples, model.threshold_sq);
    let now = samples.last().timestamp@;
    let start = cutoff(now, model.window);
    law_window_follows_samples(model, samples);
    assert(all[0].0 <= all[samples.len() - 1].0);
    if !after.active {
        let k = lemma_fresh_is_suffix(all, start);
        let window = all.skip(k);
        assert(all[samples.len() - 1].0 == now);
        assert(k < samples.len());
        assert(window[0].0 == samples[k].timestamp@);
        if k > 0 {
            assert(all[k - 1].0 == samples[k - 1].timestamp@);
        }
        assert forall|i: int| 0 <= i < window.len() implies (#[trigger] window[i]).1 by {
            assert(samples[i + k].is_motion(model.threshold_sq));
        }
        law_motion_percent(window, model.ratio);
        if k == samples.len() - 1 {
            assert(samples.len() > 1);
            assert(samples[k].timestamp@ - samples[k - 1].timestamp@ <= millis(MARGIN_MS as int));
        }
        assert(is_filled(window, now, model.window) && exceeds_ratio(window, model.ratio));
        // The last sample was judged by this very window.
        let rest = samples.drop_last();
        assert(positions(samples).drop_last() == positions(rest));
    }
}

/// The marks of samples are counted as the samples are.
proof fn lemma_counts_of_samples(samples: Seq<Sample>, threshold_sq: int, now: int, window: int)
    ensures
        sample_marks(samples, threshold_sq).filter(|s: (int, bool)| now - s.0 <= window).len()
            == samples.filter(|s: Sample| now - s.timestamp@ <= window).len(),
        sample_marks(samples, threshold_sq).filter(
            |s: (int, bool)| now - s.0 <= window && s.1,
        ).len() == samples.filter(
            |s: Sample|
                now - s.timestamp@ <= window && s.dx * s.dx + s.dy * s.dy >= threshold_sq,
        ).len(),
    decreases samples.len(),
{
    reveal(Seq::filter);
    if samples.len() > 0 {
        lemma_counts_of_samples(samples.drop_last(), threshold_sq, now, window);
        assert(sample_marks(samples, threshold_sq).drop_last() == sample_marks(
            samples.drop_last(),
            threshold_sq,
        ));
    }
}

/// When a sample activates. Over samples in order while the finger is down and there is no activity
/// yet, the last one activates exactly if those that are no older than the window are at least two,
/// one of them is at least as old as the window less 20 milliseconds, and those among them that
/// moved at least as far as the threshold are more than the ratio asks for, in percent. The counts
/// are those that the algorithm tells of its window.
pub proof fn law_ratio_of_recent_samples_activates(model: WindowModel, samples: Seq<Sample>)
    requires
        !model.active,
        model.samples.len() == 0,
        0 <= model.window,
        samples.len() > 0,
        forall|i: int, j: int|
            0 <= i <= j < samples.len() ==> (#[trigger] samples[i]).timestamp@ <= (
            #[trigger] samples[j]).timestamp@,
        samples[0].timestamp@ - model.window >= EARLIEST_NANOS,
        !after_events::<RollingWindowAlgorithm>(model, positions(samples.drop_last())).active,
    ensures
        ({
            let after = after_events::<RollingWindowAlgorithm>(model, positions(samples));
            let now = samples.last().timestamp@;
            let total = samples.filter(|s: Sample| now - s.timestamp@ <= model.window).len();
            let moving = samples.filter(
                |s: Sample|
                    now - s.timestamp@ <= model.window && s.dx * s.dx + s.dy * s.dy
                        >= model.threshold_sq,
            ).len();
            &&& after.active <==> total >= 2 && 100 * moving > model.ratio * total && exists|i: int|
                0 <= i < samples.len() && model.window - 20_000_000 <= now - (
                #[trigger] samples[i]).timestamp@ <= model.window
            &&& RollingWindowAlgorithm::active(after) == after.active
            &&& RollingWindowAlgorithm::motion_ratio(after) == Some((moving, total))
        }),
{
    let all = sample_marks(samples, model.threshold_sq);
    let rest = samples.drop_last();
    let last = samples.last();
    let now = last.timestamp@;
    let mark = (now, last.is_motion(model.threshold_sq));
    let before = after_events::<RollingWindowAlgorithm>(model, positions(rest));
    let after = after_events::<RollingWindowAlgorithm>(model, positions(samples));
    assert forall|i: int, j: int| 0 <= i <= j < all.len() implies all[i].0 <= all[j].0 by {
        assert(samples[i].timestamp@ <= samples[j].timestamp@);
    }
    assert(samples[0].timestamp@ <= samples[samples.len() - 1].timestamp@);
    assert(positions(samples).drop_last() == positions(rest));
    assert(positions(samples).last() == TouchpadEvent::Position(last));
    assert(all == sample_marks(rest, model.threshold_sq).push(mark));
    law_window_follows_samples(model, samples);
    if rest.len() == 0 {
        assert(before == model);
        assert(model.samples == sample_marks(rest, model.threshold_sq));
    } else {
        assert forall|i: int, j: int| 0 <= i <= j < rest.len() implies sample_marks(
            rest,
            model.threshold_sq,
        )[i].0 <= sample_marks(rest, model.threshold_sq)[j].0 by {
            assert(all[i].0 <= all[j].0);
        }
        assert(rest[0] == samples[0]);
        law_window_follows_samples(model, rest);
        assert(all[0].0 <= all[rest.len() - 1].0 <= all[rest.len() as int].0);
        lemma_fresh_again(
            sample_marks(rest, model.threshold_sq),
            cutoff(rest.last().timestamp@, model.window),
            mark,
            cutoff(now, model.window),
        );
    }
    assert(after.samples == fresh(all, now - model.window));
    law_window_is_judged_by_counts(all, now, model.window, model.ratio);
    lemma_counts_of_samples(samples, model.threshold_sq, now, model.window);
    if exists|i: int|
        0 <= i < all.len() && model.window - 20_000_000 <= now - (#[trigger] all[i]).0
            <= model.window {
        let i = choose|i: int|
            0 <= i < all.len() && model.window - 20_000_000 <= now - (#[trigger] all[i]).0
                <= model.window;
        assert(all[i].0 == samples[i].timestamp@);
    }
    if exists|i: int|
        0 <= i < samples.len() && model.window - 20_000_000 <= now - (
        #[trigger] samples[i]).timestamp@ <= model.window {
        let i = choose|i: int|
            0 <= i < samples.len() && model.window - 20_000_000 <= now - (
            #[trigger] samples[i]).timestamp@ <= model.window;
        assert(all[i].0 == samples[i].timestamp@);
    }
    let total = samples.filter(|s: Sample| now - s.timestamp@ <= model.window).len();
    assert(total > 0) by {
        let k = lemma_fresh_is_suffix(all, now - model.window);
        assert(all[all.len() - 1].0 == now);
        assert(k < all.len());
    }
}

/// A contact empties the window: whatever came before it, none of it counts afterwards. Lifting the
/// finger ends the activity besides, and coming down leaves it as it is. The settings stay, and
/// while there is activity samples change nothing.
pub proof fn law_contact_empties_window(model: WindowModel, sample: Sample)
    ensures
        ({
            let down = RollingWindowAlgorithm::after_finger_down(model);
            let up = RollingWindowAlgorithm::after_finger_up(model);
            let moved = RollingWindowAlgorithm::after_sample(model, sample);
            &&& down.samples.len() == 0 && up.samples.len() == 0
            &&& down.active == model.active && !up.active
            &&& down.ratio == model.ratio && up.ratio == model.ratio && moved.ratio == model.ratio
            &&& down.window == model.window && up.window == model.window && moved.window
                == model.window
            &&& down.threshold_sq == model.threshold_sq && up.threshold_sq == model.threshold_sq
                && moved.threshold_sq == model.threshold_sq
            &&& model.active ==> moved == model
            &&& RollingWindowAlgorithm::active(model) == model.active
            &&& model.samples.len() == 0 ==> RollingWindowAlgorithm::motion_ratio(model) is None
        }),
{
}

/// A transition is reported exactly if the activity changes, and tells to what.
pub proof fn law_transition_is_change(was_active: bool, is_active: bool)
    ensures
        transition(was_active, is_active) is None <==> was_active == is_active,
        transition(was_active, is_active) == Some(GlideState::Active) <==> !was_active && is_active,
        transition(was_active, is_active) == Some(GlideState::Inactive) <==> was_active
            && !is_active,
{
}

/// Each touchpad event reaches the algorithm as what it is, and the transition over it is the one
/// that the algorithm makes of it; nothing happens without an event.
pub proof fn law_events_reach_algorithm<A: ActivationAlgorithm>(
    model: A::Model,
    event: TouchpadEvent,
)
    ensures
        after_events::<A>(model, Seq::empty()) == model,
        transitions::<A>(model, Seq::empty()).len() == 0,
        ({
            let after = after_events::<A>(model, seq![event]);
            &&& event is FingerDown ==> after == A::after_finger_down(model)
            &&& event is FingerUp ==> after == A::after_finger_up(model)
            &&& event matches TouchpadEvent::Position(sample) ==> after == A::after_sample(
                model,
                sample,
            )
            &&& A::active(model) == A::active(after) ==> transitions::<A>(model, seq![event]).len()
                == 0
            &&& A::active(model) && !A::active(after) ==> transitions::<A>(model, seq![event])
                == seq![GlideState::Inactive]
            &&& !A::active(model) && A::active(after) ==> transitions::<A>(model, seq![event])
                == seq![GlideState::Active]
        }),
{
    reveal_with_fuel(after_events, 2);
    reveal_with_fuel(transitions, 2);
    assert(seq![event].drop_last() == Seq::<TouchpadEvent>::empty());
}

/// The largest motion threshold is the largest whose square is a 32-bit number.
pub proof fn law_largest_threshold(threshold: u16)
    ensures
        threshold <= MAX_MOTION_THRESHOLD <==> threshold * threshold <= 2_147_483_647,
{
    let t = threshold as int;
    assert(t <= 46_340 <==> t * t <= 2_147_483_647) by (nonlinear_arith)
        requires
            0 <= t,
    ;
}

} // verus!
