//! Activation by a streak of samples with motion.
use vstd::prelude::*;

use crate::algorithm::{
    after_events, positions, ActivationAlgorithm, GlideState, MAX_MOTION_THRESHOLD,
};
use crate::runs::{has_run, is_run, lemma_has_run_step, lemma_trailing_run, trailing_run};
use crate::sampler::{distance_sq, Sample};

verus! {

/// What a consecutive streak algorithm keeps.
pub struct StreakModel {
    pub active: bool,
    /// The square of the distance from which a sample counts as motion.
    pub threshold_sq: int,
    /// The number of consecutive samples with motion that it takes.
    pub min_streak: int,
    /// The number of consecutive samples with motion up to now.
    pub streak: int,
}

impl StreakModel {
    /// The model after a sample. An active algorithm ignores it. Otherwise a sample with motion
    /// makes the streak longer, and one without ends it.
    pub open spec fn with_sample(self, is_motion: bool) -> StreakModel {
        if self.active {
            self
        } else if is_motion {
            StreakModel {
                active: self.streak + 1 >= self.min_streak,
                streak: self.streak + 1,
                ..self
            }
        } else {
            StreakModel { streak: 0, ..self }
        }
    }
}

/// Consecutive streak algorithm: activates once a number of samples in a row are motion-positive.
pub struct ConsecutiveStreakAlgorithm {
    is_active: bool,
    motion_threshold_sq: i32,
    min_streak: u32,
    streak: u32,
}

impl View for ConsecutiveStreakAlgorithm {
    type V = StreakModel;

    closed spec fn view(&self) -> StreakModel {
        StreakModel {
            active: self.is_active,
            threshold_sq: self.motion_threshold_sq as int,
            min_streak: self.min_streak as int,
            streak: self.streak as int,
        }
    }
}

impl ConsecutiveStreakAlgorithm {
    #[verifier::type_invariant]
    spec fn is_counting(self) -> bool {
        self.is_active || self.streak == 0 || self.streak < self.min_streak
    }

    /// An inactive algorithm with no streak.
    pub fn new(motion_threshold: u16, min_streak: u32) -> (r: Self)
        requires
            motion_threshold <= MAX_MOTION_THRESHOLD,
        ensures
            r@ == (StreakModel {
                active: false,
                threshold_sq: motion_threshold * motion_threshold,
                min_streak: min_streak as int,
                streak: 0,
            }),
    {
        let t: i32 = motion_threshold as i32;
        proof {
            assert(0 <= t * t <= 46_340 * 46_340) by (nonlinear_arith)
                requires
                    0 <= t <= 46_340,
            ;
        }
        ConsecutiveStreakAlgorithm {
            is_active: false,
            motion_threshold_sq: t * t,
            min_streak,
            streak: 0,
        }
    }
}

impl ActivationAlgorithm for ConsecutiveStreakAlgorithm {
    type Model = StreakModel;

    open spec fn model(&self) -> StreakModel {
        self@
    }

    open spec fn active(model: StreakModel) -> bool {
        model.active
    }

    open spec fn motion_ratio(model: StreakModel) -> Option<(nat, nat)> {
        None
    }

    open spec fn after_finger_down(model: StreakModel) -> StreakModel {
        StreakModel { streak: 0, ..model }
    }

    open spec fn after_finger_up(model: StreakModel) -> StreakModel {
        StreakModel { active: false, streak: 0, ..model }
    }

    open spec fn after_sample(model: StreakModel, sample: Sample) -> StreakModel {
        model.with_sample(sample.is_motion(model.threshold_sq))
    }

    proof fn activity(model: StreakModel, sample: Sample) {
    }

    fn on_finger_down(&mut self) {
        self.streak = 0;
    }

    fn on_finger_up(&mut self) -> (change: Option<GlideState>) {
        self.streak = 0;
        if self.is_active {
            self.is_active = false;
            Some(GlideState::Inactive)
        } else {
            None
        }
    }

    fn on_sample(&mut self, sample: &Sample) -> (change: Option<GlideState>) {
        proof {
            use_type_invariant(&*self);
        }
        if self.is_active {
            return None;
        }
        let dist_sq: i32 = distance_sq(sample.dx, sample.dy);
        if dist_sq < self.motion_threshold_sq {
            self.streak = 0;
            return None;
        }
        let streak: u32 = self.streak + 1;
        if streak >= self.min_streak {
            self.is_active = true;
            self.streak = streak;
            Some(GlideState::Active)
        } else {
            self.streak = streak;
            None
        }
    }

    fn current_motion_ratio(&self) -> (ratio: Option<(usize, usize)>) {
        None
    }

    fn is_active(&self) -> (r: bool) {
        self.is_active
    }
}

/// Which of the samples count as motion.
pub open spec fn motion_flags(samples: Seq<Sample>, threshold_sq: int) -> Seq<bool> {
    samples.map_values(|s: Sample| s.is_motion(threshold_sq))
}

/// The number of consecutive samples with motion that activate: at least one is needed.
pub open spec fn needed_streak(model: StreakModel) -> int {
    if model.min_streak >= 1 {
        model.min_streak
    } else {
        1
    }
}

/// While the finger stays down, the algorithm is active exactly if at some time enough consecutive
/// samples had motion; until then its streak is the number of samples with motion since the last
/// one without.
pub proof fn law_streak_activates(model: StreakModel, samples: Seq<Sample>)
    requires
        !model.active,
        model.streak == 0,
    ensures
        ({
            let after = after_events::<ConsecutiveStreakAlgorithm>(model, positions(samples));
            let flags = motion_flags(samples, model.threshold_sq);
            &&& after.active <==> has_run(flags, needed_streak(model))
            &&& !after.active ==> after.streak == trailing_run(flags)
            &&& after.threshold_sq == model.threshold_sq
            &&& after.min_streak == model.min_streak
        }),
    decreases samples.len(),
{
    let flags = motion_flags(samples, model.threshold_sq);
    if samples.len() == 0 {
        assert(!has_run(flags, needed_streak(model)));
    } else {
        let rest = samples.drop_last();
        law_streak_activates(model, rest);
        assert(positions(samples).drop_last() == positions(rest));
        assert(flags.drop_last() == motion_flags(rest, model.threshold_sq));
        lemma_has_run_step(flags, needed_streak(model));
        lemma_trailing_run(flags.drop_last());
    }
}

/// A resting finger never activates: without a sample with motion there is no activation.
pub proof fn law_rest_never_activates(model: StreakModel, samples: Seq<Sample>)
    requires
        !model.active,
        model.streak == 0,
        forall|i: int| 0 <= i < samples.len() ==> !(#[trigger] samples[i]).is_motion(model.threshold_sq),
    ensures
        !after_events::<ConsecutiveStreakAlgorithm>(model, positions(samples)).active,
{
    law_streak_activates(model, samples);
    let flags = motion_flags(samples, model.threshold_sq);
    if has_run(flags, needed_streak(model)) {
        let start = choose|start: int| is_run(flags, start, needed_streak(model));
        assert(flags[start]);
        assert(!samples[start].is_motion(model.threshold_sq));
    }
}

/// Whether each of the `n` samples from `start` on moved at least as far as the square root of
/// `threshold_sq`.
pub open spec fn moves_throughout(
    samples: Seq<Sample>,
    start: int,
    n: int,
    threshold_sq: int,
) -> bool {
    &&& 0 <= start
    &&& 0 <= n
    &&& start + n <= samples.len()
    &&& forall|i: int|
        start <= i < start + n ==> (#[trigger] samples[i]).dx * samples[i].dx + samples[i].dy
            * samples[i].dy >= threshold_sq
}

/// A run of motion flags is a stretch of samples that moved.
pub proof fn lemma_run_moves(samples: Seq<Sample>, start: int, n: int, threshold_sq: int)
    ensures
        is_run(motion_flags(samples, threshold_sq), start, n) <==> moves_throughout(
            samples,
            start,
            n,
            threshold_sq,
        ),
{
    let flags = motion_flags(samples, threshold_sq);
    assert(forall|i: int|
        0 <= i < samples.len() ==> #[trigger] flags[i] == samples[i].is_motion(threshold_sq));
    if is_run(flags, start, n) {
        assert forall|i: int| start <= i < start + n implies (#[trigger] samples[i]).dx
            * samples[i].dx + samples[i].dy * samples[i].dy >= threshold_sq by {
            assert(flags[i]);
        }
    }
    if moves_throughout(samples, start, n, threshold_sq) {
        assert forall|i: int| start <= i < start + n implies #[trigger] flags[i] by {
            assert(samples[i].is_motion(threshold_sq));
        }
    }
}

/// While the finger stays down, the algorithm is active exactly if somewhere as many consecutive
/// samples as it takes, and at least one, all moved at least as far as the threshold.
pub proof fn law_streak_is_consecutive_motion(model: StreakModel, samples: Seq<Sample>)
    requires
        !model.active,
        model.streak == 0,
    ensures
        model.min_streak >= 1 ==> (after_events::<ConsecutiveStreakAlgorithm>(
            model,
            positions(samples),
        ).active <==> exists|start: int|
            moves_throughout(samples, start, model.min_streak, model.threshold_sq)),
        model.min_streak < 1 ==> (after_events::<ConsecutiveStreakAlgorithm>(
            model,
            positions(samples),
        ).active <==> exists|start: int| moves_throughout(samples, start, 1, model.threshold_sq)),
{
    law_streak_activates(model, samples);
    let flags = motion_flags(samples, model.threshold_sq);
    let least = needed_streak(model);
    if has_run(flags, least) {
        let start = choose|start: int| is_run(flags, start, least);
        lemma_run_moves(samples, start, least, model.threshold_sq);
    }
    if exists|start: int| moves_throughout(samples, start, least, model.threshold_sq) {
        let start = choose|start: int| moves_throughout(samples, start, least, model.threshold_sq);
        lemma_run_moves(samples, start, least, model.threshold_sq);
    }
}

/// A contact starts a streak anew: whatever came before it, none of it counts afterwards. Lifting
/// the finger ends the activity besides, and coming down leaves it as it is. The settings stay, and
/// while there is activity samples change nothing.
pub proof fn law_contact_ends_streak(model: StreakModel, sample: Sample)
    ensures
        ({
            let down = ConsecutiveStreakAlgorithm::after_finger_down(model);
            let up = ConsecutiveStreakAlgorithm::after_finger_up(model);
            let moved = ConsecutiveStreakAlgorithm::after_sample(model, sample);
            &&& down.streak == 0 && up.streak == 0
            &&& down.active == model.active && !up.active
            &&& down.min_streak == model.min_streak && up.min_streak == model.min_streak
                && moved.min_streak == model.min_streak
            &&& down.threshold_sq == model.threshold_sq && up.threshold_sq == model.threshold_sq
                && moved.threshold_sq == model.threshold_sq
            &&& model.active ==> moved == model
            &&& ConsecutiveStreakAlgorithm::active(model) == model.active
            &&& ConsecutiveStreakAlgorithm::motion_ratio(model) is None
        }),
{
}

} // verus!
