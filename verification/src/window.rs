//! Rolling windows of timestamped samples.
use std::collections::VecDeque;

use vstd::prelude::*;

use crate::clock::{elapsed, millis, Duration, Instant};

verus! {

/// How far short of its full length a window may fall and still be judged, in milliseconds.
pub const MARGIN_MS: u64 = 20;

/// The samples of a window: when each was taken, and whether the finger was moving.
pub open spec fn marks(samples: Seq<(Instant, bool)>) -> Seq<(int, bool)> {
    samples.map_values(|s: (Instant, bool)| (s.0@, s.1))
}

/// What is left of a window once the samples at its front that lie before `cutoff` are gone.
pub open spec fn fresh(samples: Seq<(int, bool)>, cutoff: int) -> Seq<(int, bool)>
    decreases samples.len(),
{
    if samples.len() > 0 && samples[0].0 < cutoff {
        fresh(samples.drop_first(), cutoff)
    } else {
        samples
    }
}

/// The number of samples with motion.
pub open spec fn motion_count(samples: Seq<(int, bool)>) -> nat {
    samples.filter(|s: (int, bool)| s.1).len()
}

/// The percentage of samples with motion, rounded down; zero for an empty window.
pub open spec fn motion_percent(samples: Seq<(int, bool)>) -> int {
    if samples.len() > 0 {
        (motion_count(samples) * 100) as int / samples.len() as int
    } else {
        0
    }
}

/// Whether a window of length `window` that ends at `now` can be judged: it holds at least two
/// samples, and the first of them is old enough for the window to be filled up to the margin.
pub open spec fn is_filled(samples: Seq<(int, bool)>, now: int, window: int) -> bool {
    &&& samples.len() >= 2
    &&& elapsed(now, samples[0].0) + millis(MARGIN_MS as int) >= window
}

/// Whether at least `ratio` percent of the samples have motion.
pub open spec fn reaches_ratio(samples: Seq<(int, bool)>, ratio: int) -> bool {
    motion_count(samples) * 100 >= ratio * samples.len()
}

/// Whether more than `ratio` percent of the samples have motion.
pub open spec fn exceeds_ratio(samples: Seq<(int, bool)>, ratio: int) -> bool {
    motion_count(samples) * 100 > ratio * samples.len()
}

/// Drops the samples at the front of the window that lie before `cutoff`.
pub(crate) fn drop_stale(samples: &mut VecDeque<(Instant, bool)>, cutoff: Instant)
    ensures
        marks(final(samples)@) == fresh(marks(old(samples)@), cutoff@),
        final(samples)@.len() > 0 ==> final(samples)@[0].0@ >= cutoff@,
{
    let ghost before = marks(samples@);
    while samples.len() > 0 && samples[0].0.is_before(&cutoff)
        invariant
            fresh(marks(samples@), cutoff@) == fresh(before, cutoff@),
        decreases samples.len(),
    {
        proof {
            assert(marks(samples@)[0].0 == samples@[0].0@);
            assert(marks(samples@).drop_first() == marks(
                samples@.subrange(1, samples@.len() as int),
            ));
        }
        let _ = samples.pop_front();
    }
    proof {
        if samples@.len() > 0 {
            assert(marks(samples@)[0].0 == samples@[0].0@);
        }
    }
}

/// Counts the samples with motion.
pub(crate) fn count_motion(samples: &VecDeque<(Instant, bool)>) -> (count: usize)
    ensures
        count == motion_count(marks(samples@)),
        count <= samples@.len(),
{
    let mut count: usize = 0;
    let mut i: usize = 0;
    let ghost all = marks(samples@);
    while i < samples.len()
        invariant
            i <= samples.len(),
            all == marks(samples@),
            count <= i,
            count == motion_count(all.take(i as int)),
        decreases samples.len() - i,
    {
        proof {
            lemma_motion_count_step(all, i as int);
        }
        if samples[i].1 {
            count = count + 1;
        }
        i = i + 1;
    }
    assert(all.take(samples.len() as int) == all);
    count
}

/// One more sample adds one to the count if it has motion, and nothing otherwise.
pub proof fn lemma_motion_count_step(samples: Seq<(int, bool)>, i: int)
    requires
        0 <= i < samples.len(),
    ensures
        motion_count(samples.take(i + 1)) == motion_count(samples.take(i)) + if samples[i].1 {
            1nat
        } else {
            0nat
        },
{
    reveal(Seq::filter);
    assert(samples.take(i + 1).drop_last() == samples.take(i));
    assert(samples.take(i + 1).last() == samples[i]);
}

/// The percentage of `count` out of `total`, rounded down.
pub(crate) fn percentage(count: usize, total: usize) -> (r: usize)
    requires
        count <= total,
        total > 0,
    ensures
        r == (count * 100) as int / total as int,
        r <= 100,
{
    let hundredfold: u128 = count as u128 * 100;
    proof {
        assert(hundredfold / (total as u128) <= 100) by (nonlinear_arith)
            requires
                hundredfold <= total as u128 * 100,
                total > 0,
        ;
    }
    (hundredfold / total as u128) as usize
}

/// Whether the window can be judged at `now`, once its stale samples are gone.
pub(crate) fn fills_window(
    samples: &VecDeque<(Instant, bool)>,
    now: Instant,
    window_ms: u64,
) -> (r: bool)
    requires
        samples@.len() > 0 ==> elapsed(now@, samples@[0].0@) <= millis(window_ms as int),
    ensures
        r == is_filled(marks(samples@), now@, millis(window_ms as int)),
{
    if samples.len() < 2 {
        return false;
    }
    let oldest = samples[0].0;
    assert(marks(samples@)[0].0 == oldest@);
    let margin = Duration::from_millis(MARGIN_MS);
    !now.duration_since(oldest).plus(&margin).is_shorter_than(&Duration::from_millis(window_ms))
}

/// Whether `count` is more than `ratio` percent of `total`.
pub(crate) fn is_more_than(count: usize, total: usize, ratio: usize) -> (r: bool)
    ensures
        r == (count * 100 > ratio * total),
{
    proof {
        assert(0 <= ratio * total <= 0xffff_ffff_ffff_ffff * 0xffff_ffff_ffff_ffff)
            by (nonlinear_arith)
            requires
                0 <= ratio <= 0xffff_ffff_ffff_ffff,
                0 <= total <= 0xffff_ffff_ffff_ffff,
        ;
    }
    count as u128 * 100 > ratio as u128 * total as u128
}

/// To reach a ratio is to have at least that percentage, also if that is rounded down; to exceed
/// it is to reach it and not to have exactly that share.
pub proof fn law_reaching_and_exceeding(samples: Seq<(int, bool)>, ratio: int)
    requires
        samples.len() > 0,
    ensures
        reaches_ratio(samples, ratio) <==> motion_percent(samples) >= ratio,
        exceeds_ratio(samples, ratio) <==> reaches_ratio(samples, ratio) && motion_count(samples)
            * 100 != ratio * samples.len(),
{
    let hundredfold = (motion_count(samples) * 100) as int;
    let total = samples.len() as int;
    assert(hundredfold / total >= ratio <==> hundredfold >= ratio * total) by (nonlinear_arith)
        requires
            total > 0,
    ;
}

/// Whether the samples stand in the order in which they were taken.
pub open spec fn in_order(samples: Seq<(int, bool)>) -> bool {
    forall|i: int, j: int| 0 <= i <= j < samples.len() ==> samples[i].0 <= samples[j].0
}

/// What is fresh is what follows the stale samples at the front. Returns their number.
pub proof fn lemma_fresh_is_suffix(samples: Seq<(int, bool)>, cutoff: int) -> (k: int)
    ensures
        0 <= k <= samples.len(),
        fresh(samples, cutoff) == samples.skip(k),
        forall|i: int| 0 <= i < k ==> (#[trigger] samples[i]).0 < cutoff,
        k < samples.len() ==> samples[k].0 >= cutoff,
    decreases samples.len(),
{
    if samples.len() > 0 && samples[0].0 < cutoff {
        let rest = samples.drop_first();
        let k = lemma_fresh_is_suffix(rest, cutoff);
        assert(rest.skip(k) == samples.skip(k + 1));
        assert forall|i: int| 0 <= i < k + 1 implies (#[trigger] samples[i]).0 < cutoff by {
            if i > 0 {
                assert(samples[i] == rest[i - 1]);
            }
        }
        k + 1
    } else {
        assert(samples.skip(0) == samples);
        0
    }
}

/// A window whose samples stand in order holds exactly those that are not stale, and still in
/// order.
pub proof fn law_window_holds_what_is_recent(samples: Seq<(int, bool)>, cutoff: int)
    requires
        in_order(samples),
    ensures
        fresh(samples, cutoff) == samples.filter(|s: (int, bool)| s.0 >= cutoff),
        in_order(fresh(samples, cutoff)),
    decreases samples.len(),
{
    let recent = |s: (int, bool)| s.0 >= cutoff;
    let k = lemma_fresh_is_suffix(samples, cutoff);
    assert(samples == samples.take(k) + samples.skip(k));
    Seq::filter_distributes_over_add(samples.take(k), samples.skip(k), recent);
    assert(samples.take(k).filter(recent) == Seq::<(int, bool)>::empty()) by {
        lemma_filter_none(samples.take(k), recent);
    }
    assert(samples.skip(k).filter(recent) == samples.skip(k)) by {
        assert forall|i: int| 0 <= i < samples.skip(k).len() implies recent(
            #[trigger] samples.skip(k)[i],
        ) by {
            assert(samples[k].0 <= samples[k + i].0);
        }
        lemma_filter_all(samples.skip(k), recent);
    }
    assert forall|i: int, j: int| 0 <= i <= j < samples.skip(k).len() implies samples.skip(k)[i].0
        <= samples.skip(k)[j].0 by {
        assert(samples[k + i].0 <= samples[k + j].0);
    }
}

proof fn lemma_filter_none(samples: Seq<(int, bool)>, pred: spec_fn((int, bool)) -> bool)
    requires
        forall|i: int| 0 <= i < samples.len() ==> !pred(#[trigger] samples[i]),
    ensures
        samples.filter(pred) == Seq::<(int, bool)>::empty(),
    decreases samples.len(),
{
    reveal(Seq::filter);
    if samples.len() > 0 {
        assert(!pred(samples[samples.len() - 1]));
        lemma_filter_none(samples.drop_last(), pred);
    }
}

proof fn lemma_filter_all(samples: Seq<(int, bool)>, pred: spec_fn((int, bool)) -> bool)
    requires
        forall|i: int| 0 <= i < samples.len() ==> pred(#[trigger] samples[i]),
    ensures
        samples.filter(pred) == samples,
    decreases samples.len(),
{
    reveal(Seq::filter);
    if samples.len() > 0 {
        assert(pred(samples[samples.len() - 1]));
        lemma_filter_all(samples.drop_last(), pred);
    }
}

/// The percentage lies between 0 and 100; it is 0 if no sample has motion, and 100 if all have it
/// and there is one. In the first case no ratio is exceeded, and in the second each below 100 is.
pub proof fn law_motion_percent(samples: Seq<(int, bool)>, ratio: int)
    ensures
        0 <= motion_percent(samples) <= 100,
        (forall|i: int| 0 <= i < samples.len() ==> !(#[trigger] samples[i]).1) ==> motion_percent(
            samples,
        ) == 0,
        samples.len() > 0 && (forall|i: int|
            0 <= i < samples.len() ==> (#[trigger] samples[i]).1) ==> motion_percent(samples)
            == 100,
        (forall|i: int| 0 <= i < samples.len() ==> !(#[trigger] samples[i]).1) && ratio >= 0
            ==> !exceeds_ratio(samples, ratio),
        samples.len() > 0 && (forall|i: int|
            0 <= i < samples.len() ==> (#[trigger] samples[i]).1) ==> (exceeds_ratio(
            samples,
            ratio,
        ) <==> ratio < 100),
{
    let moving = |s: (int, bool)| s.1;
    samples.lemma_filter_len(moving);
    let count = motion_count(samples) as int;
    let total = samples.len() as int;
    if total > 0 {
        assert(0 <= (count * 100) / total <= 100) by (nonlinear_arith)
            requires
                0 <= count <= total,
                total > 0,
        ;
    }
    if forall|i: int| 0 <= i < samples.len() ==> !(#[trigger] samples[i]).1 {
        lemma_filter_none(samples, moving);
        assert(ratio >= 0 ==> ratio * total >= 0) by (nonlinear_arith)
            requires
                total >= 0,
        ;
        if total > 0 {
            assert((0int * 100) / total == 0) by (nonlinear_arith)
                requires
                    total > 0,
            ;
        }
    }
    if samples.len() > 0 && (forall|i: int| 0 <= i < samples.len() ==> (#[trigger] samples[i]).1) {
        lemma_filter_all(samples, moving);
        assert((total * 100) / total == 100 && (total * 100 > ratio * total <==> ratio < 100))
            by (nonlinear_arith)
            requires
                total > 0,
        ;
    }
}

/// Letting go of stale samples early makes no difference to what is fresh later.
pub proof fn lemma_fresh_again(
    samples: Seq<(int, bool)>,
    early: int,
    sample: (int, bool),
    late: int,
)
    requires
        early <= late,
    ensures
        fresh(fresh(samples, early).push(sample), late) == fresh(samples.push(sample), late),
    decreases samples.len(),
{
    if samples.len() > 0 && samples[0].0 < early {
        lemma_fresh_again(samples.drop_first(), early, sample, late);
        assert(samples.push(sample).drop_first() == samples.drop_first().push(sample));
    }
}

/// How a window that ends at `now` is judged, over all samples up to then, in order. It holds those
/// that are no older than its length. It is filled exactly if these are at least two, and one of
/// them is older than its length less 20 milliseconds or just as old. And it is the share of those
/// among them with motion, in percent, that reaches or exceeds a ratio.
pub proof fn law_window_is_judged_by_counts(
    all: Seq<(int, bool)>,
    now: int,
    window: int,
    ratio: int,
)
    requires
        in_order(all),
        all.len() > 0,
        all.last().0 == now,
        0 <= window,
    ensures
        ({
            let held = fresh(all, now - window);
            let total = all.filter(|s: (int, bool)| now - s.0 <= window).len();
            let moving = all.filter(|s: (int, bool)| now - s.0 <= window && s.1).len();
            &&& held.len() == total
            &&& motion_count(held) == moving
            &&& is_filled(held, now, window) <==> total >= 2 && exists|i: int|
                0 <= i < all.len() && window - 20_000_000 <= now - (#[trigger] all[i]).0 <= window
            &&& exceeds_ratio(held, ratio) <==> 100 * moving > ratio * total
            &&& reaches_ratio(held, ratio) <==> 100 * moving >= ratio * total
        }),
{
    let held = fresh(all, now - window);
    let n = all.len() as int;
    law_window_holds_what_is_recent(all, now - window);
    lemma_recent_counts(all, now, window);
    let k = lemma_fresh_is_suffix(all, now - window);
    assert(all[n - 1].0 == now);
    assert(k < n);
    assert(held[0] == all[k]);
    assert(all[k].0 <= all[n - 1].0);
    if is_filled(held, now, window) {
        assert(window - 20_000_000 <= now - all[k].0 <= window);
    }
    if exists|i: int|
        0 <= i < n && window - 20_000_000 <= now - (#[trigger] all[i]).0 <= window {
        let i = choose|i: int|
            0 <= i < n && window - 20_000_000 <= now - (#[trigger] all[i]).0 <= window;
        assert(i >= k);
        assert(all[k].0 <= all[i].0);
    }
}

proof fn lemma_recent_counts(all: Seq<(int, bool)>, now: int, window: int)
    ensures
        all.filter(|s: (int, bool)| s.0 >= now - window).len() == all.filter(
            |s: (int, bool)| now - s.0 <= window,
        ).len(),
        motion_count(all.filter(|s: (int, bool)| s.0 >= now - window)) == all.filter(
            |s: (int, bool)| now - s.0 <= window && s.1,
        ).len(),
    decreases all.len(),
{
    reveal(Seq::filter);
    if all.len() > 0 {
        lemma_recent_counts(all.drop_last(), now, window);
        let earlier = all.drop_last().filter(|s: (int, bool)| s.0 >= now - window);
        assert(earlier.push(all.last()).drop_last() == earlier);
    }
}

} // verus!
