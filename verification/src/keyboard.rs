//! Recent key presses of a keyboard that is only observed.
use std::collections::VecDeque;

use vstd::prelude::*;

use crate::clock::{cutoff, Clock, Duration, Instant, EARLIEST_NANOS, NANOS_PER_SEC};
use crate::input::{raw_events, read_events, RawEvent};

verus! {

/// For how many seconds a key press is remembered.
pub const MAX_HISTORY_SECS: u64 = 2;

/// The error code of a read that would have had to wait.
pub const EAGAIN: i32 = 11;

/// The error code of a read from a device that is gone.
pub const ENODEV: i32 = 19;

/// For how many nanoseconds a key press is remembered.
pub open spec fn max_history() -> int {
    MAX_HISTORY_SECS * NANOS_PER_SEC
}

/// When the keys were pressed.
pub open spec fn times(presses: Seq<Instant>) -> Seq<int> {
    presses.map_values(|t: Instant| t@)
}

/// What is left of the presses once those at the front that lie before `cutoff` are gone.
pub open spec fn remembered(presses: Seq<int>, cutoff: int) -> Seq<int>
    decreases presses.len(),
{
    if presses.len() > 0 && presses[0] < cutoff {
        remembered(presses.drop_first(), cutoff)
    } else {
        presses
    }
}

/// The number of presses that do not lie before `cutoff`.
pub open spec fn count_since(presses: Seq<int>, cutoff: int) -> nat {
    presses.filter(|t: int| t >= cutoff).len()
}

/// The number of events that are key presses.
pub open spec fn press_count(events: Seq<RawEvent>) -> nat {
    events.filter(|e: RawEvent| e.is_press()).len()
}

/// The presses after a poll at `now` that brought `events`: the old ones that are still
/// remembered, and one at `now` for each key press.
pub open spec fn after_poll(presses: Seq<int>, now: int, events: Seq<RawEvent>) -> Seq<int> {
    remembered(presses, cutoff(now, max_history())) + Seq::new(press_count(events), |i: int| now)
}

/// Whether an error of a poll is worth a report: that there are no events, or no device, is not.
pub open spec fn is_unexpected(code: Option<i32>) -> bool {
    code != Some(EAGAIN) && code != Some(ENODEV)
}

/// Tracks recent key press timestamps for context logging.
pub struct KeyboardMonitor {
    recent_presses: VecDeque<Instant>,
}

impl View for KeyboardMonitor {
    type V = Seq<int>;

    closed spec fn view(&self) -> Seq<int> {
        times(self.recent_presses@)
    }
}

impl KeyboardMonitor {
    /// A monitor that has seen no presses.
    pub fn new() -> (r: Self)
        ensures
            r@ == Seq::<int>::empty(),
    {
        let r = KeyboardMonitor { recent_presses: VecDeque::with_capacity(128) };
        assert(times(r.recent_presses@) == Seq::<int>::empty());
        r
    }

    /// Forgets the presses at the front that lie too far before `now`.
    fn prune(&mut self, now: Instant)
        ensures
            final(self)@ == remembered(old(self)@, cutoff(now@, max_history())),
    {
        let oldest_kept = now.cutoff(Duration::from_secs(MAX_HISTORY_SECS));
        let ghost before = self@;
        while self.recent_presses.len() > 0 && self.recent_presses[0].is_before(&oldest_kept)
            invariant
                oldest_kept@ == cutoff(now@, max_history()),
                remembered(self@, oldest_kept@) == remembered(before, oldest_kept@),
            decreases self.recent_presses.len(),
        {
            proof {
                let presses = self.recent_presses@;
                assert(times(presses)[0] == presses[0]@);
                assert(times(presses).drop_first() == times(
                    presses.subrange(1, presses.len() as int),
                ));
            }
            let _ = self.recent_presses.pop_front();
        }
        proof {
            if self.recent_presses@.len() > 0 {
                assert(self@[0] == self.recent_presses@[0]@);
            }
        }
    }

    /// Takes in the events that a poll at `now` brought.
    pub fn poll_at(&mut self, now: Instant, events: &Vec<RawEvent>)
        ensures
            final(self)@ == after_poll(old(self)@, now@, events@),
    {
        let ghost before = self@;
        self.prune(now);
        let ghost kept = self@;
        let mut i: usize = 0;
        while i < events.len()
            invariant
                i <= events.len(),
                self@ == kept + Seq::new(press_count(events@.take(i as int)), |i: int| now@),
            decreases events.len() - i,
        {
            proof {
                reveal(Seq::filter);
                let next = events@.take(i as int + 1);
                assert(next.drop_last() == events@.take(i as int));
                assert(next.last() == events@[i as int]);
            }
            if events[i].is_key_press() {
                let ghost presses = self.recent_presses@;
                self.recent_presses.push_back(now);
                assert(times(self.recent_presses@) == times(presses).push(now@));
            }
            i = i + 1;
        }
        assert(events@.take(events.len() as int) == events@);
    }

    /// Takes in what a poll at `now` came to: the events, or the error code if there is one.
    /// Returns whether there was an error that is worth a report.
    pub fn poll(&mut self, now: Instant, fetched: &Result<Vec<evdev::InputEvent>, Option<i32>>) -> (
    report: bool)
        ensures
            match fetched {
                Ok(events) => !report && final(self)@ == after_poll(
                    old(self)@,
                    now@,
                    raw_events(events@),
                ),
                Err(code) => report == is_unexpected(*code) && final(self)@ == after_poll(
                    old(self)@,
                    now@,
                    Seq::empty(),
                ),
            },
    {
        match fetched {
            Ok(events) => {
                let raw = read_events(events.as_slice());
                self.poll_at(now, &raw);
                false
            },
            Err(code) => {
                self.poll_at(now, &Vec::new());
                match code {
                    Some(code) => *code != EAGAIN && *code != ENODEV,
                    None => true,
                }
            },
        }
    }

    /// Count key presses within the last `duration` before `now`, modulo the range of the result.
    pub fn presses_in_last_at(&self, now: Instant, duration: Duration) -> (count: u32)
        ensures
            count as int == count_since(self@, cutoff(now@, duration@)) as int % 0x1_0000_0000,
    {
        let earliest = now.cutoff(duration);
        let mut count: usize = 0;
        let mut i: usize = 0;
        let ghost all = self@;
        while i < self.recent_presses.len()
            invariant
                i <= self.recent_presses.len(),
                all == times(self.recent_presses@),
                count <= i,
                count == count_since(all.take(i as int), earliest@),
            decreases self.recent_presses.len() - i,
        {
            proof {
                reveal(Seq::filter);
                assert(all.take(i as int + 1).drop_last() == all.take(i as int));
                assert(all.take(i as int + 1).last() == all[i as int]);
            }
            if !self.recent_presses[i].is_before(&earliest) {
                count = count + 1;
            }
            i = i + 1;
        }
        assert(all.take(all.len() as int) == all);
        let wide: u64 = count as u64;
        assert((wide as u32) as u64 == wide % 0x1_0000_0000) by (bit_vector);
        wide as u32
    }

    /// Count key presses within the last `duration`. Presses that lay more than
    /// `MAX_HISTORY_SECS` seconds before a poll were forgotten then, and do not count.
    pub fn presses_in_last(&self, clock: &Clock, duration: Duration) -> (count: u32)
        ensures
            exists|now: int|
                0 <= now && clock.shows(now) && count as int == (#[trigger] count_since(
                    self@,
                    cutoff(now, duration@),
                )) as int % 0x1_0000_0000,
    {
        let now = clock.now();
        self.presses_in_last_at(now, duration)
    }
}

/// Counts the events that are key presses, modulo the range of the result.
pub fn count_presses(events: &Vec<RawEvent>) -> (count: u32)
    ensures
        count as int == press_count(events@) as int % 0x1_0000_0000,
{
    let mut count: usize = 0;
    let mut i: usize = 0;
    while i < events.len()
        invariant
            i <= events.len(),
            count <= i,
            count == press_count(events@.take(i as int)),
        decreases events.len() - i,
    {
        proof {
            reveal(Seq::filter);
            let next = events@.take(i as int + 1);
            assert(next.drop_last() == events@.take(i as int));
            assert(next.last() == events@[i as int]);
        }
        if events[i].is_key_press() {
            count = count + 1;
        }
        i = i + 1;
    }
    assert(events@.take(events.len() as int) == events@);
    let wide: u64 = count as u64;
    assert((wide as u32) as u64 == wide % 0x1_0000_0000) by (bit_vector);
    wide as u32
}

/// Counts the key presses that a poll brought, modulo the range of the result.
pub fn new_presses(fetched: &Result<Vec<evdev::InputEvent>, Option<i32>>) -> (count: u32)
    ensures
        match fetched {
            Ok(events) => count as int == press_count(raw_events(events@)) as int % 0x1_0000_0000,
            Err(_) => count == 0,
        },
{
    match fetched {
        Ok(events) => count_presses(&read_events(events.as_slice())),
        Err(_) => 0,
    }
}

/// Presses before the cutoff do not count, so forgetting those at the front changes nothing.
proof fn lemma_forgotten_do_not_count(presses: Seq<int>, forget: int, count_from: int)
    requires
        forget <= count_from,
    ensures
        count_since(remembered(presses, forget), count_from) == count_since(presses, count_from),
    decreases presses.len(),
{
    if presses.len() > 0 && presses[0] < forget {
        let rest = presses.drop_first();
        lemma_forgotten_do_not_count(rest, forget, count_from);
        let counts = |t: int| t >= count_from;
        assert(presses == seq![presses[0]] + rest);
        Seq::filter_distributes_over_add(seq![presses[0]], rest, counts);
        assert(seq![presses[0]].filter(counts) == Seq::<int>::empty()) by {
            reveal_with_fuel(Seq::filter, 2);
            assert(seq![presses[0]].drop_last() == Seq::<int>::empty());
        }
        assert(Seq::<int>::empty() + rest.filter(counts) == rest.filter(counts));
    }
}

/// The history is long enough: for a span up to its length, whatever a poll forgets would not be
/// counted, at the time of the poll or later; and each press that it brings is counted then.
pub proof fn law_history_is_long_enough(
    presses: Seq<int>,
    now: int,
    events: Seq<RawEvent>,
    later: int,
    span: int,
)
    requires
        now - max_history() >= EARLIEST_NANOS,
        now <= later,
        0 <= span <= max_history(),
    ensures
        count_since(remembered(presses, cutoff(now, max_history())), cutoff(later, span))
            == count_since(presses, cutoff(later, span)),
        count_since(after_poll(presses, now, events), cutoff(now, span)) == count_since(
            presses,
            cutoff(now, span),
        ) + press_count(events),
{
    let forget = cutoff(now, max_history());
    lemma_forgotten_do_not_count(presses, forget, cutoff(later, span));
    lemma_forgotten_do_not_count(presses, forget, cutoff(now, span));
    let counts = |t: int| t >= cutoff(now, span);
    let fresh = Seq::new(press_count(events), |i: int| now);
    Seq::filter_distributes_over_add(remembered(presses, forget), fresh, counts);
    lemma_all_count(fresh, cutoff(now, span));
}

proof fn lemma_all_count(presses: Seq<int>, count_from: int)
    requires
        forall|i: int| 0 <= i < presses.len() ==> #[trigger] presses[i] >= count_from,
    ensures
        presses.filter(|t: int| t >= count_from) == presses,
    decreases presses.len(),
{
    reveal(Seq::filter);
    if presses.len() > 0 {
        assert(presses[presses.len() - 1] >= count_from);
        lemma_all_count(presses.drop_last(), count_from);
    }
}

/// A longer span counts at least as many presses, as long as it can be taken from `now`.
pub proof fn law_longer_spans_count_more(presses: Seq<int>, now: int, shorter: int, longer: int)
    requires
        0 <= shorter <= longer,
        now - longer >= EARLIEST_NANOS,
    ensures
        count_since(presses, cutoff(now, shorter)) <= count_since(presses, cutoff(now, longer)),
    decreases presses.len(),
{
    reveal(Seq::filter);
    if presses.len() > 0 {
        law_longer_spans_count_more(presses.drop_last(), now, shorter, longer);
    }
}

/// The presses that are counted for a span are those that are no older than it, each once, as long
/// as the instant a span ago can be represented; otherwise those that do not lie before now.
pub proof fn law_presses_are_counted_by_age(presses: Seq<int>, now: int, span: int)
    ensures
        now - span >= EARLIEST_NANOS ==> count_since(presses, cutoff(now, span)) == presses.filter(
            |t: int| now - t <= span,
        ).len(),
        now - span < EARLIEST_NANOS ==> count_since(presses, cutoff(now, span)) == presses.filter(
            |t: int| now <= t,
        ).len(),
    decreases presses.len(),
{
    reveal(Seq::filter);
    if presses.len() > 0 {
        law_presses_are_counted_by_age(presses.drop_last(), now, span);
    }
}

/// A press ages as the clock goes on: once the clock has shown an instant more than a span after
/// it, it is not counted for that span at any instant that the clock shows from then on.
pub proof fn law_clock_ages_presses(
    clock: Clock,
    presses: Seq<int>,
    t: int,
    seen: int,
    now: int,
    span: int,
)
    requires
        clock.shows(seen),
        clock.shows(now),
        seen <= now,
        seen > t + span,
        0 <= span,
    ensures
        count_since(presses.push(t), cutoff(now, span)) == count_since(presses, cutoff(now, span)),
{
    reveal(Seq::filter);
    assert(presses.push(t).drop_last() == presses);
}

/// The events that count as key presses are those of keys with the value one, each once.
pub proof fn law_press_count_is_of_presses(events: Seq<RawEvent>)
    ensures
        press_count(events) == events.filter(|e: RawEvent| e.kind == 1 && e.value == 1).len(),
    decreases events.len(),
{
    reveal(Seq::filter);
    if events.len() > 0 {
        law_press_count_is_of_presses(events.drop_last());
    }
}

/// What is forgotten are presses at the front that lie before the cutoff, up to the first that does
/// not; all others stay, in order.
pub proof fn law_only_old_presses_are_forgotten(presses: Seq<int>, cutoff: int) -> (k: int)
    ensures
        0 <= k <= presses.len(),
        remembered(presses, cutoff) == presses.skip(k),
        forall|i: int| 0 <= i < k ==> #[trigger] presses[i] < cutoff,
        k < presses.len() ==> presses[k] >= cutoff,
    decreases presses.len(),
{
    if presses.len() > 0 && presses[0] < cutoff {
        let rest = presses.drop_first();
        let k = law_only_old_presses_are_forgotten(rest, cutoff);
        assert(rest.skip(k) == presses.skip(k + 1));
        assert forall|i: int| 0 <= i < k + 1 implies #[trigger] presses[i] < cutoff by {
            if i > 0 {
                assert(presses[i] == rest[i - 1]);
            }
        }
        k + 1
    } else {
        assert(presses.skip(0) == presses);
        0
    }
}

/// The presses after a series of polls, each with the time at which it was made and the events that
/// it brought, if there were none before.
pub open spec fn after_polls(polls: Seq<(int, Seq<RawEvent>)>) -> Seq<int>
    decreases polls.len(),
{
    if polls.len() == 0 {
        Seq::empty()
    } else {
        after_poll(after_polls(polls.drop_last()), polls.last().0, polls.last().1)
    }
}

/// The number of key presses among all events of those polls that were made at `from` or later.
pub open spec fn brought_since(polls: Seq<(int, Seq<RawEvent>)>, from: int) -> nat
    decreases polls.len(),
{
    if polls.len() == 0 {
        0
    } else {
        brought_since(polls.drop_last(), from) + if polls.last().0 >= from {
            polls.last().1.filter(|e: RawEvent| e.kind == 1 && e.value == 1).len()
        } else {
            0
        }
    }
}

/// No press is lost and none is made up: after any polls in order, the presses that are counted for
/// a span of up to two seconds are all those that the polls within that span brought.
pub proof fn law_polls_keep_all_recent_presses(
    polls: Seq<(int, Seq<RawEvent>)>,
    later: int,
    span: int,
)
    requires
        forall|i: int, j: int|
            0 <= i <= j < polls.len() ==> (#[trigger] polls[i]).0 <= (#[trigger] polls[j]).0,
        forall|i: int|
            0 <= i < polls.len() ==> EARLIEST_NANOS + 2_000_000_000 <= (#[trigger] polls[i]).0
                <= later,
        0 <= span <= 2_000_000_000,
        later - span >= EARLIEST_NANOS,
    ensures
        count_since(after_polls(polls), cutoff(later, span)) == brought_since(polls, later - span),
    decreases polls.len(),
{
    let from = later - span;
    let counts = |t: int| t >= from;
    if polls.len() == 0 {
        reveal(Seq::filter);
    } else {
        let rest = polls.drop_last();
        let (now, events) = polls.last();
        assert(polls[polls.len() - 1] == polls.last());
        assert forall|i: int, j: int| 0 <= i <= j < rest.len() implies (#[trigger] rest[i]).0 <= (
        #[trigger] rest[j]).0 by {
            assert(polls[i].0 <= polls[j].0);
        }
        assert forall|i: int| 0 <= i < rest.len() implies EARLIEST_NANOS + 2_000_000_000 <= (
        #[trigger] rest[i]).0 <= later by {
            assert(polls[i].0 <= later);
        }
        law_polls_keep_all_recent_presses(rest, later, span);
        let presses = after_polls(rest);
        law_history_is_long_enough(presses, now, events, later, span);
        law_press_count_is_of_presses(events);
        let kept = remembered(presses, cutoff(now, max_history()));
        let brought = Seq::new(press_count(events), |i: int| now);
        Seq::filter_distributes_over_add(kept, brought, counts);
        if now >= from {
            lemma_all_count(brought, from);
        } else {
            lemma_none_count(brought, from);
        }
    }
}

proof fn lemma_none_count(presses: Seq<int>, count_from: int)
    requires
        forall|i: int| 0 <= i < presses.len() ==> #[trigger] presses[i] < count_from,
    ensures
        presses.filter(|t: int| t >= count_from).len() == 0,
    decreases presses.len(),
{
    reveal(Seq::filter);
    if presses.len() > 0 {
        assert(presses[presses.len() - 1] < count_from);
        lemma_none_count(presses.drop_last(), count_from);
    }
}

/// A poll without events, or of a keyboard that is gone, is nothing to report; any other error is.
pub proof fn law_what_is_unexpected(code: Option<i32>)
    ensures
        is_unexpected(code) <==> !(code matches Some(c) && (c == 11 || c == 19)),
{
}

/// A poll forgets what is older than two seconds and nothing else, and adds one press at its own
/// time for each key press that it brings.
pub proof fn law_poll_forgets_after_two_seconds(
    presses: Seq<int>,
    now: int,
    events: Seq<RawEvent>,
)
    requires
        forall|i: int, j: int| 0 <= i <= j < presses.len() ==> presses[i] <= presses[j],
        now - 2_000_000_000 >= EARLIEST_NANOS,
    ensures
        after_poll(presses, now, events) == presses.filter(|t: int| now - t <= 2_000_000_000)
            + Seq::new(
            events.filter(|e: RawEvent| e.kind == 1 && e.value == 1).len(),
            |i: int| now,
        ),
{
    law_press_count_is_of_presses(events);
    let cut = now - 2_000_000_000;
    let recent = |t: int| now - t <= 2_000_000_000;
    let k = law_only_old_presses_are_forgotten(presses, cut);
    assert(presses == presses.take(k) + presses.skip(k));
    Seq::filter_distributes_over_add(presses.take(k), presses.skip(k), recent);
    lemma_filter_old(presses.take(k), now);
    assert forall|i: int| 0 <= i < presses.skip(k).len() implies now - #[trigger] presses.skip(k)[i]
        <= 2_000_000_000 by {
        assert(presses[k] <= presses[k + i]);
    }
    lemma_filter_recent(presses.skip(k), now);
    assert(Seq::<int>::empty() + presses.skip(k) == presses.skip(k));
}

proof fn lemma_filter_old(presses: Seq<int>, now: int)
    requires
        forall|i: int| 0 <= i < presses.len() ==> now - #[trigger] presses[i] > 2_000_000_000,
    ensures
        presses.filter(|t: int| now - t <= 2_000_000_000) == Seq::<int>::empty(),
    decreases presses.len(),
{
    reveal(Seq::filter);
    if presses.len() > 0 {
        assert(now - presses[presses.len() - 1] > 2_000_000_000);
        lemma_filter_old(presses.drop_last(), now);
    }
}

proof fn lemma_filter_recent(presses: Seq<int>, now: int)
    requires
        forall|i: int| 0 <= i < presses.len() ==> now - #[trigger] presses[i] <= 2_000_000_000,
    ensures
        presses.filter(|t: int| now - t <= 2_000_000_000) == presses,
    decreases presses.len(),
{
    reveal(Seq::filter);
    if presses.len() > 0 {
        assert(now - presses[presses.len() - 1] <= 2_000_000_000);
        lemma_filter_recent(presses.drop_last(), now);
    }
}

} // verus!
