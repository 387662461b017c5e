//! Episodes: what happens between a finger coming down and being lifted, and its statistics.
use vstd::prelude::*;

use crate::algorithm::{after_events, positions, MAX_MOTION_THRESHOLD};
use crate::clock::{elapsed, Duration, Instant};
use crate::runs::{
    count_set, has_run, is_run, law_longest_run, law_run_lengths, longest_run, trailing_run,
};
use crate::sampler::{distance_sq, Sample};
use crate::streak::{
    law_streak_activates, lemma_run_moves, motion_flags, moves_throughout, needed_streak,
    ConsecutiveStreakAlgorithm, StreakModel,
};

verus! {

/// Summary statistics for a completed touch episode.
#[derive(Debug, Clone)]
pub struct EpisodeSummary {
    pub id: u64,
    pub start: Instant,
    pub end: Instant,
    pub duration: Duration,
    pub total_samples: u64,
    pub motion_samples: u64,
    /// The squares of the distances that the samples carry, in order.
    pub displacements_sq: Vec<i32>,
    /// The largest of these squares, or zero if there is none.
    pub max_displacement_sq: i32,
    pub longest_motion_run: u64,
    pub activated: bool,
    /// Time from episode start to activation, if it activated.
    pub activation_latency: Option<Duration>,
    /// Keyboard key presses observed during this episode.
    pub kb_presses_during: u32,
}

/// What has happened in an episode up to now.
pub struct EpisodeModel {
    pub id: u64,
    pub start: Instant,
    /// The samples, in order.
    pub samples: Seq<Sample>,
    /// When the activation algorithm triggered last, if it did.
    pub activation: Option<Instant>,
    pub kb_presses: int,
}

/// What an episode tracker keeps.
pub struct TrackerModel {
    pub next_id: int,
    /// The square of the distance from which a sample counts as motion.
    pub threshold_sq: int,
    /// The episode in progress.
    pub current: Option<EpisodeModel>,
}

/// The largest square of a distance that the samples carry, and at least zero.
pub open spec fn max_displacement_sq(samples: Seq<Sample>) -> int
    decreases samples.len(),
{
    if samples.len() == 0 {
        0
    } else if samples.last().displacement_sq > max_displacement_sq(samples.drop_last()) {
        samples.last().displacement_sq as int
    } else {
        max_displacement_sq(samples.drop_last())
    }
}

/// The squares of the distances that the samples carry, in order.
pub open spec fn displacements_sq(samples: Seq<Sample>) -> Seq<i32> {
    samples.map_values(|s: Sample| s.displacement_sq)
}

impl EpisodeModel {
    /// Which of the samples count as motion.
    pub open spec fn flags(self, threshold_sq: int) -> Seq<bool> {
        motion_flags(self.samples, threshold_sq)
    }
}

impl TrackerModel {
    /// The model after an episode began at `now`; one in progress is given up.
    pub open spec fn after_begin(self, now: Instant) -> TrackerModel {
        TrackerModel {
            next_id: self.next_id + 1,
            current: Some(
                EpisodeModel {
                    id: self.next_id as u64,
                    start: now,
                    samples: Seq::empty(),
                    activation: None,
                    kb_presses: 0,
                },
            ),
            ..self
        }
    }

    /// The model after a sample.
    pub open spec fn after_sample(self, sample: Sample) -> TrackerModel {
        match self.current {
            Some(ep) => TrackerModel {
                current: Some(EpisodeModel { samples: ep.samples.push(sample), ..ep }),
                ..self
            },
            None => self,
        }
    }

    /// The model after the activation algorithm triggered at `now`.
    pub open spec fn after_activation(self, now: Instant) -> TrackerModel {
        match self.current {
            Some(ep) => TrackerModel {
                current: Some(EpisodeModel { activation: Some(now), ..ep }),
                ..self
            },
            None => self,
        }
    }

    /// The model after `count` key presses.
    pub open spec fn after_presses(self, count: int) -> TrackerModel {
        match self.current {
            Some(ep) => TrackerModel {
                current: Some(EpisodeModel { kb_presses: ep.kb_presses + count, ..ep }),
                ..self
            },
            None => self,
        }
    }

    /// The model after the episode ended.
    pub open spec fn after_end(self) -> TrackerModel {
        TrackerModel { current: None, ..self }
    }
}

impl EpisodeSummary {
    /// Whether this is the summary of `episode` if it ends at `end`.
    pub open spec fn summarizes(
        self,
        episode: EpisodeModel,
        end: Instant,
        threshold_sq: int,
    ) -> bool {
        &&& self.id == episode.id
        &&& self.start == episode.start
        &&& self.end == end
        &&& self.duration@ == elapsed(end@, episode.start@)
        &&& self.total_samples == episode.samples.len()
        &&& self.motion_samples == count_set(episode.flags(threshold_sq))
        &&& self.displacements_sq@ == displacements_sq(episode.samples)
        &&& self.max_displacement_sq == max_displacement_sq(episode.samples)
        &&& self.longest_motion_run == longest_run(episode.flags(threshold_sq))
        &&& self.activated == (episode.activation is Some)
        &&& match episode.activation {
            Some(at) => self.activation_latency matches Some(latency) && latency@ == elapsed(
                at@,
                episode.start@,
            ),
            None => self.activation_latency is None,
        }
        &&& self.kb_presses_during == episode.kb_presses
    }
}

/// Tracks the state of a single in-progress episode.
struct EpisodeState {
    id: u64,
    start: Instant,
    total_samples: u64,
    motion_samples: u64,
    displacements_sq: Vec<i32>,
    max_displacement_sq: i32,
    current_motion_run: u64,
    longest_motion_run: u64,
    activation_time: Option<Instant>,
    kb_presses_during: u32,
    history: Ghost<Seq<Sample>>,
}

impl EpisodeState {
    spec fn model(self) -> EpisodeModel {
        EpisodeModel {
            id: self.id,
            start: self.start,
            samples: self.history@,
            activation: self.activation_time,
            kb_presses: self.kb_presses_during as int,
        }
    }

    /// Whether the statistics are those of the samples.
    spec fn wf(self, threshold_sq: int) -> bool {
        let flags = motion_flags(self.history@, threshold_sq);
        &&& self.total_samples == self.history@.len()
        &&& self.motion_samples == count_set(flags)
        &&& self.displacements_sq@ == displacements_sq(self.history@)
        &&& self.max_displacement_sq == max_displacement_sq(self.history@)
        &&& self.current_motion_run == trailing_run(flags)
        &&& self.longest_motion_run == longest_run(flags)
    }
}

/// Segments touchpad interactions into episodes and accumulates per-episode stats.
pub struct EpisodeTracker {
    next_id: u64,
    current: Option<EpisodeState>,
    motion_threshold_sq: i32,
}

impl View for EpisodeTracker {
    type V = TrackerModel;

    closed spec fn view(&self) -> TrackerModel {
        TrackerModel {
            next_id: self.next_id as int,
            threshold_sq: self.motion_threshold_sq as int,
            current: match self.current {
                Some(ep) => Some(ep.model()),
                None => None,
            },
        }
    }
}

impl EpisodeTracker {
    /// Whether the statistics of the episode in progress are those of its samples, and its ID is
    /// one that was given out.
    pub closed spec fn wf(&self) -> bool {
        self.current matches Some(ep) ==> ep.wf(self.motion_threshold_sq as int) && ep.id
            < self.next_id
    }

    /// A tracker without an episode. The first one will have the ID 0.
    pub fn new(motion_threshold: u16) -> (r: Self)
        requires
            motion_threshold <= MAX_MOTION_THRESHOLD,
        ensures
            r.wf(),
            r@ == (TrackerModel {
                next_id: 0,
                threshold_sq: motion_threshold * motion_threshold,
                current: None,
            }),
    {
        let t: i32 = motion_threshold as i32;
        proof {
            assert(0 <= t * t <= 46_340 * 46_340) by (nonlinear_arith)
                requires
                    0 <= t <= 46_340,
            ;
        }
        EpisodeTracker { next_id: 0, current: None, motion_threshold_sq: t * t }
    }

    /// Start a new episode. Returns the episode ID.
    pub fn begin_episode(&mut self, now: Instant) -> (id: u64)
        requires
            old(self)@.next_id < u64::MAX,
        ensures
            final(self).wf(),
            id == old(self)@.next_id,
            final(self)@ == old(self)@.after_begin(now),
    {
        let id: u64 = self.next_id;
        self.next_id = self.next_id + 1;
        self.current = Some(
            EpisodeState {
                id,
                start: now,
                total_samples: 0,
                motion_samples: 0,
                displacements_sq: Vec::new(),
                max_displacement_sq: 0,
                current_motion_run: 0,
                longest_motion_run: 0,
                activation_time: None,
                kb_presses_during: 0,
                history: Ghost(Seq::empty()),
            },
        );
        assert(motion_flags(Seq::<Sample>::empty(), self.motion_threshold_sq as int) == Seq::<
            bool,
        >::empty());
        assert(displacements_sq(Seq::<Sample>::empty()) == Seq::<i32>::empty());
        id
    }

    /// Record a position sample into the current episode.
    /// Returns whether this sample was classified as motion.
    pub fn record_sample(&mut self, sample: &Sample) -> (is_motion: bool)
        requires
            old(self).wf(),
            sample.is_measurable(),
            old(self)@.current matches Some(ep) ==> ep.samples.len() < u64::MAX,
        ensures
            final(self).wf(),
            is_motion == sample.is_motion(old(self)@.threshold_sq),
            final(self)@ == old(self)@.after_sample(*sample),
    {
        let dist_sq: i32 = distance_sq(sample.dx, sample.dy);
        let is_motion = dist_sq >= self.motion_threshold_sq;
        let ghost threshold_sq = self.motion_threshold_sq as int;
        if let Some(ep) = &mut self.current {
            let ghost before = ep.history@;
            let ghost after = before.push(*sample);
            proof {
                assert(motion_flags(after, threshold_sq) == motion_flags(before, threshold_sq).push(
                    is_motion,
                ));
                assert(motion_flags(after, threshold_sq).drop_last() == motion_flags(
                    before,
                    threshold_sq,
                ));
                assert(displacements_sq(after) == displacements_sq(before).push(
                    sample.displacement_sq,
                ));
                assert(after.drop_last() == before);
                law_run_lengths(motion_flags(before, threshold_sq));
            }
            ep.history = Ghost(after);
            ep.total_samples = ep.total_samples + 1;
            ep.displacements_sq.push(sample.displacement_sq);
            if sample.displacement_sq > ep.max_displacement_sq {
                ep.max_displacement_sq = sample.displacement_sq;
            }
            if is_motion {
                ep.motion_samples = ep.motion_samples + 1;
                ep.current_motion_run = ep.current_motion_run + 1;
                if ep.current_motion_run > ep.longest_motion_run {
                    ep.longest_motion_run = ep.current_motion_run;
                }
            } else {
                ep.current_motion_run = 0;
            }
        }
        is_motion
    }

    /// Record that the activation algorithm triggered during this episode.
    pub fn record_activation(&mut self, now: Instant)
        requires
            old(self).wf(),
        ensures
            final(self).wf(),
            final(self)@ == old(self)@.after_activation(now),
    {
        if let Some(ep) = &mut self.current {
            ep.activation_time = Some(now);
        }
    }

    /// Record keyboard presses observed during this episode.
    pub fn record_keyboard_presses(&mut self, count: u32)
        requires
            old(self).wf(),
            old(self)@.current matches Some(ep) ==> ep.kb_presses + count <= u32::MAX,
        ensures
            final(self).wf(),
            final(self)@ == old(self)@.after_presses(count as int),
    {
        if let Some(ep) = &mut self.current {
            ep.kb_presses_during = ep.kb_presses_during + count;
        }
    }

    /// End the current episode and return its summary.
    pub fn end_episode(&mut self, now: Instant) -> (summary: Option<EpisodeSummary>)
        requires
            old(self).wf(),
        ensures
            final(self).wf(),
            final(self)@ == old(self)@.after_end(),
            match old(self)@.current {
                Some(ep) => summary matches Some(s) && s.summarizes(
                    ep,
                    now,
                    old(self)@.threshold_sq,
                ),
                None => summary is None,
            },
    {
        match self.current.take() {
            None => None,
            Some(ep) => {
                let activation_latency = match ep.activation_time {
                    Some(at) => Some(at.duration_since(ep.start)),
                    None => None,
                };
                Some(
                    EpisodeSummary {
                        id: ep.id,
                        start: ep.start,
                        end: now,
                        duration: now.duration_since(ep.start),
                        total_samples: ep.total_samples,
                        motion_samples: ep.motion_samples,
                        displacements_sq: ep.displacements_sq,
                        max_displacement_sq: ep.max_displacement_sq,
                        longest_motion_run: ep.longest_motion_run,
                        activated: ep.activation_time.is_some(),
                        activation_latency,
                        kb_presses_during: ep.kb_presses_during,
                    },
                )
            },
        }
    }

    /// Whether `begin` more episodes can begin, and the one in progress has room for one more
    /// sample.
    pub fn has_room(&self, begin: usize) -> (r: bool)
        requires
            self.wf(),
        ensures
            r <==> self@.next_id + begin <= u64::MAX && (self@.current matches Some(ep)
                ==> ep.samples.len() < u64::MAX),
    {
        if begin as u64 > u64::MAX - self.next_id {
            return false;
        }
        match &self.current {
            Some(ep) => ep.total_samples < u64::MAX,
            None => true,
        }
    }

    /// Whether the episode in progress has room for `count` more key presses.
    pub fn has_press_room(&self, count: u32) -> (r: bool)
        ensures
            r <==> (self@.current matches Some(ep) ==> ep.kb_presses + count <= u32::MAX),
    {
        match &self.current {
            Some(ep) => count <= u32::MAX - ep.kb_presses_during,
            None => true,
        }
    }

    /// Get the current episode ID, if one is active.
    pub fn current_episode_id(&self) -> (id: Option<u64>)
        ensures
            match self@.current {
                Some(ep) => id == Some(ep.id),
                None => id is None,
            },
    {
        match &self.current {
            Some(ep) => Some(ep.id),
            None => None,
        }
    }
}

/// The ID of the episode in progress is never given out again: the next one is larger.
pub proof fn law_ids_grow(tracker: EpisodeTracker)
    requires
        tracker.wf(),
    ensures
        tracker@.current matches Some(ep) ==> ep.id < tracker@.next_id,
{
}

/// The largest square of a distance is at least as large as each, and is one of them or zero.
pub proof fn law_max_displacement(samples: Seq<Sample>)
    ensures
        forall|i: int|
            0 <= i < samples.len() ==> (#[trigger] samples[i]).displacement_sq
                <= max_displacement_sq(samples),
        max_displacement_sq(samples) == 0 || exists|i: int|
            0 <= i < samples.len() && (#[trigger] samples[i]).displacement_sq
                == max_displacement_sq(samples),
        max_displacement_sq(samples) >= 0,
    decreases samples.len(),
{
    if samples.len() > 0 {
        let rest = samples.drop_last();
        let last = samples.len() - 1;
        law_max_displacement(rest);
        assert forall|i: int| 0 <= i < samples.len() implies (#[trigger] samples[i]).displacement_sq
            <= max_displacement_sq(samples) by {
            if i < last {
                assert(rest[i] == samples[i]);
            }
        }
        if samples[last].displacement_sq <= max_displacement_sq(rest) && max_displacement_sq(rest)
            != 0 {
            let i = choose|i: int|
                0 <= i < rest.len() && (#[trigger] rest[i]).displacement_sq == max_displacement_sq(
                    rest,
                );
            assert(samples[i] == rest[i]);
        }
    }
}

/// The figures of a summary fit together: the longest run of motion is no longer than there are
/// samples with motion, these are no more than all samples, and each sample has its distance. Some
/// motion makes some run.
pub proof fn law_summary_is_consistent(
    summary: EpisodeSummary,
    episode: EpisodeModel,
    end: Instant,
    threshold_sq: int,
)
    requires
        summary.summarizes(episode, end, threshold_sq),
    ensures
        summary.longest_motion_run <= summary.motion_samples <= summary.total_samples,
        summary.motion_samples > 0 ==> summary.longest_motion_run > 0,
        summary.displacements_sq@.len() == summary.total_samples,
        0 <= summary.max_displacement_sq,
        forall|i: int|
            0 <= i < summary.displacements_sq@.len() ==> #[trigger] summary.displacements_sq@[i]
                <= summary.max_displacement_sq,
        summary.activated == (summary.activation_latency is Some),
        episode.activation matches Some(at) && at@ <= end@ ==> summary.activation_latency->0@
            <= summary.duration@,
{
    law_run_lengths(episode.flags(threshold_sq));
    law_max_displacement(episode.samples);
    assert forall|i: int| 0 <= i < summary.displacements_sq@.len() implies
        #[trigger] summary.displacements_sq@[i] <= summary.max_displacement_sq by {
        assert(episode.samples[i].displacement_sq == summary.displacements_sq@[i]);
    }
}

/// The longest run of motion tells whether the streak algorithm activated during the episode:
/// exactly if it is at least as long as the streak that activates.
pub proof fn law_longest_run_tells_activation(
    summary: EpisodeSummary,
    episode: EpisodeModel,
    end: Instant,
    model: StreakModel,
)
    requires
        summary.summarizes(episode, end, model.threshold_sq),
        !model.active,
        model.streak == 0,
    ensures
        after_events::<ConsecutiveStreakAlgorithm>(model, positions(episode.samples)).active <==>
            summary.longest_motion_run >= needed_streak(model),
{
    let flags = episode.flags(model.threshold_sq);
    law_streak_activates(model, episode.samples);
    law_longest_run(flags);
    let longest = longest_run(flags);
    if longest >= needed_streak(model) {
        let start = choose|start: int| is_run(flags, start, longest);
        assert(is_run(flags, start, needed_streak(model)));
    }
}

/// The samples with motion in a summary are those that moved at least as far as the threshold, each
/// counted once, and all samples are counted.
pub proof fn law_summary_counts_motion(
    summary: EpisodeSummary,
    episode: EpisodeModel,
    end: Instant,
    threshold_sq: int,
)
    requires
        summary.summarizes(episode, end, threshold_sq),
    ensures
        summary.total_samples == episode.samples.len(),
        summary.motion_samples == episode.samples.filter(
            |s: Sample| s.dx * s.dx + s.dy * s.dy >= threshold_sq,
        ).len(),
{
    lemma_count_of_motion(episode.samples, threshold_sq);
}

proof fn lemma_count_of_motion(samples: Seq<Sample>, threshold_sq: int)
    ensures
        count_set(motion_flags(samples, threshold_sq)) == samples.filter(
            |s: Sample| s.dx * s.dx + s.dy * s.dy >= threshold_sq,
        ).len(),
    decreases samples.len(),
{
    reveal(Seq::filter);
    if samples.len() > 0 {
        lemma_count_of_motion(samples.drop_last(), threshold_sq);
        assert(motion_flags(samples, threshold_sq).drop_last() == motion_flags(
            samples.drop_last(),
            threshold_sq,
        ));
    }
}

/// The longest run of motion in a summary is the length of a stretch of samples that all moved at
/// least as far as the threshold, and no such stretch is longer.
pub proof fn law_summary_has_longest_run(
    summary: EpisodeSummary,
    episode: EpisodeModel,
    end: Instant,
    threshold_sq: int,
)
    requires
        summary.summarizes(episode, end, threshold_sq),
    ensures
        exists|start: int|
            moves_throughout(
                episode.samples,
                start,
                summary.longest_motion_run as int,
                threshold_sq,
            ),
        forall|start: int, n: int| #[trigger]
            moves_throughout(episode.samples, start, n, threshold_sq) ==> n
                <= summary.longest_motion_run,
{
    let longest = summary.longest_motion_run as int;
    let flags = episode.flags(threshold_sq);
    law_longest_run(flags);
    let start = choose|start: int| is_run(flags, start, longest);
    lemma_run_moves(episode.samples, start, longest, threshold_sq);
    assert forall|start: int, n: int| #[trigger]
        moves_throughout(episode.samples, start, n, threshold_sq) implies n <= longest by {
        lemma_run_moves(episode.samples, start, n, threshold_sq);
        assert(has_run(flags, n));
    }
}

/// A summary has the distance of each sample in its place, and the largest of them, or zero if none
/// is larger.
pub proof fn law_summary_has_distances(
    summary: EpisodeSummary,
    episode: EpisodeModel,
    end: Instant,
    threshold_sq: int,
)
    requires
        summary.summarizes(episode, end, threshold_sq),
    ensures
        summary.displacements_sq@.len() == episode.samples.len(),
        forall|i: int|
            0 <= i < episode.samples.len() ==> #[trigger] summary.displacements_sq@[i]
                == episode.samples[i].displacement_sq,
        summary.max_displacement_sq >= 0,
        forall|i: int|
            0 <= i < episode.samples.len() ==> (#[trigger] episode.samples[i]).displacement_sq
                <= summary.max_displacement_sq,
        summary.max_displacement_sq > 0 ==> exists|i: int|
            0 <= i < episode.samples.len() && (#[trigger] episode.samples[i]).displacement_sq
                == summary.max_displacement_sq,
{
    law_max_displacement(episode.samples);
}

/// A summary says which episode it is of, how long it lasted, how long it took until it activated
/// if it did, and how many keys were pressed.
pub proof fn law_summary_tells_the_times(
    summary: EpisodeSummary,
    episode: EpisodeModel,
    end: Instant,
    threshold_sq: int,
)
    requires
        summary.summarizes(episode, end, threshold_sq),
    ensures
        summary.id == episode.id,
        summary.start == episode.start,
        summary.end == end,
        end@ >= episode.start@ ==> summary.start@ + summary.duration@ == end@,
        end@ < episode.start@ ==> summary.duration@ == 0,
        summary.activated <==> episode.activation is Some,
        summary.activation_latency is Some <==> episode.activation is Some,
        episode.activation matches Some(at) ==> (at@ >= episode.start@ ==> summary.start@
            + summary.activation_latency->0@ == at@),
        episode.activation matches Some(at) && at@ < episode.start@
            ==> summary.activation_latency->0@ == 0,
        summary.kb_presses_during == episode.kb_presses,
{
}

/// An episode that begins is empty, has an ID of its own, and replaces the one in progress. Each
/// sample comes behind the ones before, the last activation stands, key presses add up, and none
/// of these touches what the others keep. Without an episode they leave no trace.
pub proof fn law_episode_gathers(
    model: TrackerModel,
    now: Instant,
    sample: Sample,
    some: int,
    more: int,
)
    ensures
        ({
            let begun = model.after_begin(now);
            &&& begun.current is Some
            &&& begun.current->0.id == model.next_id as u64
            &&& begun.current->0.start == now
            &&& begun.current->0.samples.len() == 0
            &&& begun.current->0.activation is None
            &&& begun.current->0.kb_presses == 0
            &&& begun.next_id == model.next_id + 1
            &&& begun.threshold_sq == model.threshold_sq
        }),
        model.current matches Some(ep) ==> {
            let sampled = model.after_sample(sample).current;
            let activated = model.after_activation(now).current;
            let pressed = model.after_presses(some).current;
            &&& sampled is Some && activated is Some && pressed is Some
            &&& sampled->0.samples.len() == ep.samples.len() + 1
            &&& sampled->0.samples.last() == sample
            &&& sampled->0.samples.drop_last() == ep.samples
            &&& sampled->0.activation == ep.activation
            &&& sampled->0.kb_presses == ep.kb_presses
            &&& activated->0.activation == Some(now)
            &&& activated->0.samples == ep.samples
            &&& activated->0.kb_presses == ep.kb_presses
            &&& pressed->0.kb_presses == ep.kb_presses + some
            &&& pressed->0.samples == ep.samples
            &&& pressed->0.activation == ep.activation
            &&& sampled->0.id == ep.id && activated->0.id == ep.id && pressed->0.id == ep.id
            &&& sampled->0.start == ep.start && activated->0.start == ep.start && pressed->0.start
                == ep.start
        },
        model.after_presses(some).after_presses(more) == model.after_presses(some + more),
        model.current is None ==> model.after_sample(sample) == model && model.after_activation(now)
            == model && model.after_presses(some) == model,
        ({
            let ended = model.after_end();
            &&& ended.current is None
            &&& ended.next_id == model.next_id
            &&& ended.threshold_sq == model.threshold_sq
            &&& model.after_sample(sample).next_id == model.next_id
            &&& model.after_sample(sample).threshold_sq == model.threshold_sq
            &&& model.after_activation(now).next_id == model.next_id
            &&& model.after_activation(now).threshold_sq == model.threshold_sq
            &&& model.after_presses(some).next_id == model.next_id
            &&& model.after_presses(some).threshold_sq == model.threshold_sq
        }),
{
    if let Some(ep) = model.current {
        assert(ep.samples.push(sample).drop_last() == ep.samples);
    }
}

} // verus!
