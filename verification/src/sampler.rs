//! Turning input events into finger contacts and position samples.
use vstd::prelude::*;

use crate::clock::{Clock, Instant};
use crate::input::{
    raw_events, read_events, RawEvent, Touch, ABS_MT_POSITION_X, ABS_MT_POSITION_Y, ABS_X, ABS_Y,
    EV_ABS,
};

verus! {

/// A position of the finger, and how far it lies from the position before.
#[derive(Clone, Copy, Debug, PartialEq, Eq, Structural)]
pub struct Sample {
    pub timestamp: Instant,
    pub x: i32,
    pub y: i32,
    pub dx: i32,
    pub dy: i32,
    /// The square of the distance from the position before.
    pub displacement_sq: i32,
}

/// Events produced by the sampler.
#[derive(Clone, Copy, Debug, PartialEq, Eq, Structural)]
pub enum TouchpadEvent {
    FingerDown,
    FingerUp,
    Position(Sample),
}

/// The square of the length of the vector (`dx`, `dy`).
pub open spec fn norm_sq(dx: int, dy: int) -> int {
    dx * dx + dy * dy
}

impl Sample {
    /// Whether the square of the distance moved can be represented.
    pub open spec fn is_measurable(self) -> bool {
        norm_sq(self.dx as int, self.dy as int) <= i32::MAX
    }

    /// Whether the finger moved at least as far as the square root of `threshold_sq`.
    pub open spec fn is_motion(self, threshold_sq: int) -> bool {
        norm_sq(self.dx as int, self.dy as int) >= threshold_sq
    }
}

/// What a sampler knows of the finger.
pub struct SamplerState {
    pub finger_down: bool,
    pub last_pos: Option<(i32, i32)>,
}

/// What a batch of events says in all.
pub struct Scan {
    /// Whether the finger is down after the batch.
    pub finger_down: bool,
    /// Whether the finger came down or was lifted.
    pub contact_changed: bool,
    /// The last horizontal position reported while the finger was down.
    pub x: Option<i32>,
    /// The last vertical position reported while the finger was down.
    pub y: Option<i32>,
}

/// What `events` say in all, if the finger is down before them as `finger_down` says.
pub open spec fn scan(finger_down: bool, events: Seq<RawEvent>) -> Scan
    decreases events.len(),
{
    if events.len() == 0 {
        Scan { finger_down, contact_changed: false, x: None, y: None }
    } else {
        let before = scan(finger_down, events.drop_last());
        match events.last().meaning() {
            Touch::Down => Scan { finger_down: true, contact_changed: true, ..before },
            Touch::Up => Scan { finger_down: false, contact_changed: true, ..before },
            Touch::X(x) => if before.finger_down {
                Scan { x: Some(x), ..before }
            } else {
                before
            },
            Touch::Y(y) => if before.finger_down {
                Scan { y: Some(y), ..before }
            } else {
                before
            },
            Touch::Other => before,
        }
    }
}

/// The contacts that `events` report, in order.
pub open spec fn contacts(events: Seq<RawEvent>) -> Seq<TouchpadEvent>
    decreases events.len(),
{
    if events.len() == 0 {
        Seq::empty()
    } else {
        let before = contacts(events.drop_last());
        match events.last().meaning() {
            Touch::Down => before.push(TouchpadEvent::FingerDown),
            Touch::Up => before.push(TouchpadEvent::FingerUp),
            _ => before,
        }
    }
}

/// The position after a report: a coordinate that was not reported stays as it was, and is zero if
/// there was none.
pub open spec fn position(last_pos: Option<(i32, i32)>, x: Option<i32>, y: Option<i32>) -> (
    i32,
    i32,
) {
    let last: (i32, i32) = match last_pos {
        Some(p) => p,
        None => (0, 0),
    };
    (
        match x {
            Some(x) => x,
            None => last.0,
        },
        match y {
            Some(y) => y,
            None => last.1,
        },
    )
}

/// How far `pos` lies from the position before, if there was one.
pub open spec fn delta(last_pos: Option<(i32, i32)>, pos: (i32, i32)) -> (int, int) {
    match last_pos {
        Some(last) => (pos.0 - last.0, pos.1 - last.1),
        None => (0, 0),
    }
}

/// Whether the square of the distance between the positions before and after a report can be
/// represented.
pub open spec fn is_near(last_pos: Option<(i32, i32)>, x: Option<i32>, y: Option<i32>) -> bool {
    let d = delta(last_pos, position(last_pos, x, y));
    norm_sq(d.0, d.1) <= i32::MAX
}

/// The sample for a report.
pub open spec fn sample(
    last_pos: Option<(i32, i32)>,
    x: Option<i32>,
    y: Option<i32>,
    now: Instant,
) -> Sample {
    let pos = position(last_pos, x, y);
    let d = delta(last_pos, pos);
    Sample {
        timestamp: now,
        x: pos.0,
        y: pos.1,
        dx: d.0 as i32,
        dy: d.1 as i32,
        displacement_sq: norm_sq(d.0, d.1) as i32,
    }
}

impl SamplerState {
    /// The position that the events of a batch are measured from: a finger that came down or was
    /// lifted leaves none.
    pub open spec fn base(self, events: Seq<RawEvent>) -> Option<(i32, i32)> {
        if scan(self.finger_down, events).contact_changed {
            None
        } else {
            self.last_pos
        }
    }

    /// Whether a batch ends in a position: the finger is down, and at least one coordinate was
    /// reported.
    pub open spec fn reports_position(self, events: Seq<RawEvent>) -> bool {
        let s = scan(self.finger_down, events);
        s.finger_down && (s.x is Some || s.y is Some)
    }

    /// Whether the distance that a batch reports can be represented.
    pub open spec fn can_measure(self, events: Seq<RawEvent>) -> bool {
        let s = scan(self.finger_down, events);
        self.reports_position(events) ==> is_near(self.base(events), s.x, s.y)
    }

    /// What the sampler knows after a batch.
    pub open spec fn after(self, events: Seq<RawEvent>) -> SamplerState {
        let s = scan(self.finger_down, events);
        SamplerState {
            finger_down: s.finger_down,
            last_pos: if self.reports_position(events) {
                Some(position(self.base(events), s.x, s.y))
            } else {
                self.base(events)
            },
        }
    }

    /// What the sampler produces for a batch read at `now`: the contacts, then the position if
    /// there is one.
    pub open spec fn output(self, events: Seq<RawEvent>, now: Instant) -> Seq<TouchpadEvent> {
        let s = scan(self.finger_down, events);
        if self.reports_position(events) {
            contacts(events).push(
                TouchpadEvent::Position(sample(self.base(events), s.x, s.y, now)),
            )
        } else {
            contacts(events)
        }
    }
}

/// Reads evdev events and produces a stream of TouchpadEvents.
/// Knows nothing about activation logic.
#[derive(Clone, Copy, Debug)]
pub struct TouchpadSampler {
    pub finger_down: bool,
    /// The last position of the finger, if it has been down since then.
    pub last_pos: Option<(i32, i32)>,
}

impl View for TouchpadSampler {
    type V = SamplerState;

    open spec fn view(&self) -> SamplerState {
        SamplerState { finger_down: self.finger_down, last_pos: self.last_pos }
    }
}

/// The position after a report.
pub(crate) fn next_position(last_pos: Option<(i32, i32)>, x: Option<i32>, y: Option<i32>) -> (pos: (
    i32,
    i32,
))
    ensures
        pos == position(last_pos, x, y),
{
    match last_pos {
        Some(last) => (x.unwrap_or(last.0), y.unwrap_or(last.1)),
        None => (x.unwrap_or(0), y.unwrap_or(0)),
    }
}

/// The square of the length of the vector (`dx`, `dy`).
pub(crate) fn distance_sq(dx: i32, dy: i32) -> (r: i32)
    requires
        norm_sq(dx as int, dy as int) <= i32::MAX,
    ensures
        r == norm_sq(dx as int, dy as int),
{
    proof {
        assert(0 <= dx * dx) by (nonlinear_arith);
        assert(0 <= dy * dy) by (nonlinear_arith);
    }
    dx * dx + dy * dy
}

/// A vector whose squared length can be represented has components that can be.
pub proof fn lemma_components_fit(dx: int, dy: int)
    requires
        norm_sq(dx, dy) <= i32::MAX,
    ensures
        -46_340 <= dx <= 46_340,
        -46_340 <= dy <= 46_340,
        0 <= norm_sq(dx, dy),
{
    assert(-46_340 <= dx <= 46_340 && -46_340 <= dy <= 46_340 && 0 <= dx * dx + dy * dy)
        by (nonlinear_arith)
        requires
            dx * dx + dy * dy <= 2_147_483_647,
    ;
}

impl TouchpadSampler {
    /// A sampler whose finger is not down.
    pub fn new() -> (r: Self)
        ensures
            r@ == (SamplerState { finger_down: false, last_pos: None }),
    {
        TouchpadSampler { finger_down: false, last_pos: None }
    }

    /// Takes in the contacts of a batch, and returns them with the last coordinates that were
    /// reported while the finger was down.
    pub(crate) fn take_contacts(&mut self, events: &Vec<RawEvent>) -> (r: (
        Vec<TouchpadEvent>,
        Option<i32>,
        Option<i32>,
    ))
        ensures
            r.0@ == contacts(events@),
            r.1 == scan(old(self).finger_down, events@).x,
            r.2 == scan(old(self).finger_down, events@).y,
            final(self).finger_down == scan(old(self).finger_down, events@).finger_down,
            final(self).last_pos == old(self)@.base(events@),
    {
        let ghost before = *self;
        let mut out: Vec<TouchpadEvent> = Vec::new();
        let mut x: Option<i32> = None;
        let mut y: Option<i32> = None;
        let mut i: usize = 0;
        while i < events.len()
            invariant
                i <= events.len(),
                out@ == contacts(events@.take(i as int)),
                x == scan(before.finger_down, events@.take(i as int)).x,
                y == scan(before.finger_down, events@.take(i as int)).y,
                self.finger_down == scan(before.finger_down, events@.take(i as int)).finger_down,
                self.last_pos == before@.base(events@.take(i as int)),
            decreases events.len() - i,
        {
            proof {
                let next = events@.take(i as int + 1);
                assert(next.drop_last() == events@.take(i as int));
                assert(next.last() == events@[i as int]);
            }
            match events[i].touch() {
                Touch::Down => {
                    self.finger_down = true;
                    self.last_pos = None;
                    out.push(TouchpadEvent::FingerDown);
                },
                Touch::Up => {
                    self.finger_down = false;
                    self.last_pos = None;
                    out.push(TouchpadEvent::FingerUp);
                },
                Touch::X(v) => {
                    if self.finger_down {
                        x = Some(v);
                    }
                },
                Touch::Y(v) => {
                    if self.finger_down {
                        y = Some(v);
                    }
                },
                Touch::Other => {},
            }
            i = i + 1;
        }
        assert(events@.take(events.len() as int) == events@);
        (out, x, y)
    }

    /// Processes a batch of events that was read at `now` into touchpad events.
    pub fn process_events_at(&mut self, events: &Vec<RawEvent>, now: Instant) -> (out: Vec<
        TouchpadEvent,
    >)
        requires
            old(self)@.can_measure(events@),
        ensures
            final(self)@ == old(self)@.after(events@),
            out@ == old(self)@.output(events@, now),
    {
        let (mut out, x, y) = self.take_contacts(events);
        if self.finger_down && (x.is_some() || y.is_some()) {
            let pos = next_position(self.last_pos, x, y);
            let ghost d = delta(self.last_pos, pos);
            proof {
                lemma_components_fit(d.0, d.1);
            }
            let (dx, dy): (i32, i32) = match self.last_pos {
                Some(last) => (pos.0 - last.0, pos.1 - last.1),
                None => (0, 0),
            };
            self.last_pos = Some(pos);
            out.push(
                TouchpadEvent::Position(
                    Sample {
                        timestamp: now,
                        x: pos.0,
                        y: pos.1,
                        dx,
                        dy,
                        displacement_sq: distance_sq(dx, dy),
                    },
                ),
            );
        }
        out
    }

    /// Whether the distance that a batch reports can be represented, as `process_events` and
    /// `process_events_at` ask.
    pub fn can_process(&self, events: &Vec<RawEvent>) -> (r: bool)
        ensures
            r == self@.can_measure(events@),
    {
        let mut ahead: TouchpadSampler = *self;
        let (_contacts, x, y) = ahead.take_contacts(events);
        if ahead.finger_down && (x.is_some() || y.is_some()) {
            match ahead.last_pos {
                Some(last) => {
                    let pos = next_position(ahead.last_pos, x, y);
                    let dx: i128 = pos.0 as i128 - last.0 as i128;
                    let dy: i128 = pos.1 as i128 - last.1 as i128;
                    proof {
                        assert(0 <= dx * dx <= 0x1_0000_0000 * 0x1_0000_0000) by (nonlinear_arith)
                            requires
                                -0x1_0000_0000 <= dx <= 0x1_0000_0000,
                        ;
                        assert(0 <= dy * dy <= 0x1_0000_0000 * 0x1_0000_0000) by (nonlinear_arith)
                            requires
                                -0x1_0000_0000 <= dy <= 0x1_0000_0000,
                        ;
                    }
                    dx * dx + dy * dy <= 0x7fff_ffff
                },
                None => true,
            }
        } else {
            true
        }
    }

    /// Process a batch of evdev events into touchpad events. A position carries the time at which
    /// the clock is read.
    pub fn process_events(&mut self, clock: &Clock, events: &[evdev::InputEvent]) -> (out: Vec<
        TouchpadEvent,
    >)
        requires
            old(self)@.can_measure(raw_events(events@)),
        ensures
            final(self)@ == old(self)@.after(raw_events(events@)),
            exists|now: Instant|
                0 <= now@ && clock.shows(now@) && out@ == #[trigger] old(self)@.output(
                    raw_events(events@),
                    now,
                ),
    {
        let raw = read_events(events);
        let now = clock.now();
        self.process_events_at(&raw, now)
    }
}

/// The last contact of a batch, and nothing else, decides whether the finger is down after it.
pub proof fn law_last_contact_decides(state: SamplerState, events: Seq<RawEvent>)
    ensures
        contacts(events).len() == 0 ==> state.after(events).finger_down == state.finger_down,
        contacts(events).len() > 0 ==> state.after(events).finger_down == (contacts(events).last()
            == TouchpadEvent::FingerDown),
        contacts(events).len() > 0 <==> scan(state.finger_down, events).contact_changed,
        forall|i: int|
            0 <= i < contacts(events).len() ==> (#[trigger] contacts(events)[i]
                == TouchpadEvent::FingerDown || contacts(events)[i] == TouchpadEvent::FingerUp),
    decreases events.len(),
{
    if events.len() > 0 {
        law_last_contact_decides(state, events.drop_last());
    }
}

/// A batch yields at most one position, after all of its contacts, and only if the finger is down
/// after it.
pub proof fn law_position_comes_last(state: SamplerState, events: Seq<RawEvent>, now: Instant)
    ensures
        forall|i: int|
            0 <= i < state.output(events, now).len() && #[trigger] state.output(
                events,
                now,
            )[i] is Position ==> i == state.output(events, now).len() - 1 && state.after(
                events,
            ).finger_down,
{
    law_last_contact_decides(state, events);
}

/// Where a finger comes down is not motion: the position that ends a batch with a contact lies no
/// distance from the one before.
pub proof fn law_contact_is_not_motion(state: SamplerState, events: Seq<RawEvent>, now: Instant)
    requires
        contacts(events).len() > 0,
        state.reports_position(events),
    ensures
        state.output(events, now).last() matches TouchpadEvent::Position(s) && s.dx == 0 && s.dy
            == 0 && s.displacement_sq == 0,
{
    law_last_contact_decides(state, events);
}

/// The sampler keeps the position that it reports, and from batch to batch the positions differ by
/// the distances that the samples carry.
pub proof fn law_distances_add_up(
    state: SamplerState,
    first: Seq<RawEvent>,
    second: Seq<RawEvent>,
    t1: Instant,
    t2: Instant,
)
    requires
        state.can_measure(first),
        state.reports_position(first),
        state.after(first).can_measure(second),
        state.after(first).reports_position(second),
        contacts(second).len() == 0,
    ensures
        state.output(first, t1).last() matches TouchpadEvent::Position(a) && state.after(
            first,
        ).output(second, t2).last() matches TouchpadEvent::Position(b) && state.after(
            first,
        ).last_pos == Some((a.x, a.y)) && b.x == a.x + b.dx && b.y == a.y + b.dy
            && b.displacement_sq == norm_sq(b.dx as int, b.dy as int),
{
    let mid = state.after(first);
    law_last_contact_decides(mid, second);
    let s = scan(mid.finger_down, second);
    let d = delta(mid.last_pos, position(mid.last_pos, s.x, s.y));
    lemma_components_fit(d.0, d.1);
}

/// Whether two events are the same, but that one may report on the plain axis what the other
/// reports on the multi-touch axis.
pub open spec fn is_same_report(a: RawEvent, b: RawEvent) -> bool {
    ||| a == b
    ||| {
        &&& a.kind == EV_ABS && b.kind == EV_ABS
        &&& a.value == b.value
        &&& {
            ||| (a.code == ABS_X || a.code == ABS_MT_POSITION_X) && (b.code == ABS_X || b.code
                == ABS_MT_POSITION_X)
            ||| (a.code == ABS_Y || a.code == ABS_MT_POSITION_Y) && (b.code == ABS_Y || b.code
                == ABS_MT_POSITION_Y)
        }
    }
}

/// Plain and multi-touch axes are interchangeable: two batches that differ only in them can be
/// measured alike, yield the same, and leave the sampler the same.
pub proof fn law_axes_are_interchangeable(
    state: SamplerState,
    first: Seq<RawEvent>,
    second: Seq<RawEvent>,
    now: Instant,
)
    requires
        first.len() == second.len(),
        forall|i: int|
            0 <= i < first.len() ==> is_same_report(#[trigger] first[i], #[trigger] second[i]),
    ensures
        state.can_measure(first) == state.can_measure(second),
        state.output(first, now) == state.output(second, now),
        state.after(first) == state.after(second),
{
    lemma_meanings_decide(state.finger_down, first, second);
}

/// Batches whose events mean the same say the same in all.
proof fn lemma_meanings_decide(finger_down: bool, first: Seq<RawEvent>, second: Seq<RawEvent>)
    requires
        first.len() == second.len(),
        forall|i: int|
            0 <= i < first.len() ==> (#[trigger] first[i]).meaning() == (
            #[trigger] second[i]).meaning(),
    ensures
        scan(finger_down, first) == scan(finger_down, second),
        contacts(first) == contacts(second),
    decreases first.len(),
{
    if first.len() > 0 {
        assert forall|i: int| 0 <= i < first.len() - 1 implies (
        #[trigger] first.drop_last()[i]).meaning() == (#[trigger] second.drop_last()[i]).meaning() by {
            assert(first[i].meaning() == second[i].meaning());
        }
        lemma_meanings_decide(finger_down, first.drop_last(), second.drop_last());
        assert(first[first.len() - 1].meaning() == second[second.len() - 1].meaning());
    }
}

/// Without a finger on the pad the axes say nothing: such a batch yields nothing.
pub proof fn law_no_finger_no_output(state: SamplerState, events: Seq<RawEvent>, now: Instant)
    requires
        !state.finger_down,
        contacts(events).len() == 0,
    ensures
        state.output(events, now).len() == 0,
        state.after(events) == state,
{
    law_last_contact_decides(state, events);
}

/// Whether an event is one of the finger button.
pub open spec fn is_contact(event: RawEvent) -> bool {
    event.kind == 1 && event.code == 325
}

/// Whether an event is one of a horizontal axis.
pub open spec fn is_horizontal(event: RawEvent) -> bool {
    event.kind == 3 && (event.code == 0 || event.code == 53)
}

/// Whether an event is one of a vertical axis.
pub open spec fn is_vertical(event: RawEvent) -> bool {
    event.kind == 3 && (event.code == 1 || event.code == 54)
}

/// Whether the finger is down before the event at `i`, if it is down before all events as
/// `finger_down` says: the last event of the finger button before `i` says so, or if there is none
/// it has been down all along.
pub open spec fn is_down_at(finger_down: bool, events: Seq<RawEvent>, i: int) -> bool {
    ||| finger_down && forall|k: int| 0 <= k < i ==> !is_contact(#[trigger] events[k])
    ||| exists|k: int|
        0 <= k < i && is_contact(#[trigger] events[k]) && events[k].value != 0 && forall|m: int|
            k < m < i ==> !is_contact(#[trigger] events[m])
}

/// Whether the event at `i` is the last of a horizontal axis that comes while the finger is down.
pub open spec fn is_last_horizontal(finger_down: bool, events: Seq<RawEvent>, i: int) -> bool {
    &&& 0 <= i < events.len()
    &&& is_horizontal(events[i])
    &&& is_down_at(finger_down, events, i)
    &&& forall|j: int|
        i < j < events.len() && is_horizontal(#[trigger] events[j]) ==> !is_down_at(
            finger_down,
            events,
            j,
        )
}

/// Whether the event at `i` is the last of a vertical axis that comes while the finger is down.
pub open spec fn is_last_vertical(finger_down: bool, events: Seq<RawEvent>, i: int) -> bool {
    &&& 0 <= i < events.len()
    &&& is_vertical(events[i])
    &&& is_down_at(finger_down, events, i)
    &&& forall|j: int|
        i < j < events.len() && is_vertical(#[trigger] events[j]) ==> !is_down_at(
            finger_down,
            events,
            j,
        )
}

/// Where the finger is before an event does not depend on that event or later ones.
proof fn lemma_down_at_prefix(finger_down: bool, events: Seq<RawEvent>, i: int)
    requires
        events.len() > 0,
        i < events.len(),
    ensures
        is_down_at(finger_down, events.drop_last(), i) == is_down_at(finger_down, events, i),
{
    let rest = events.drop_last();
    assert(forall|k: int| 0 <= k < i ==> #[trigger] rest[k] == events[k]);
    assert(forall|k: int| 0 <= k < i ==> rest[k] == #[trigger] events[k]);
    if is_down_at(finger_down, rest, i) && !(finger_down && forall|k: int|
        0 <= k < i ==> !is_contact(#[trigger] rest[k])) {
        let k = choose|k: int|
            0 <= k < i && is_contact(#[trigger] rest[k]) && rest[k].value != 0 && forall|m: int|
                k < m < i ==> !is_contact(#[trigger] rest[m]);
        assert(is_contact(events[k]));
    }
    if is_down_at(finger_down, events, i) && !(finger_down && forall|k: int|
        0 <= k < i ==> !is_contact(#[trigger] events[k])) {
        let k = choose|k: int|
            0 <= k < i && is_contact(#[trigger] events[k]) && events[k].value != 0 && forall|m: int|
                k < m < i ==> !is_contact(#[trigger] events[m]);
        assert(is_contact(rest[k]));
    }
}

/// One event of the finger button decides where the finger is after it, and no other event does.
proof fn lemma_down_at_step(finger_down: bool, events: Seq<RawEvent>)
    requires
        events.len() > 0,
    ensures
        is_down_at(finger_down, events, events.len() as int) == if is_contact(events.last()) {
            events.last().value != 0
        } else {
            is_down_at(finger_down, events, events.len() - 1)
        },
{
    let n = events.len() as int;
    if is_contact(events.last()) {
        assert(is_contact(events[n - 1]));
        if events.last().value != 0 {
            assert(is_down_at(finger_down, events, n));
        }
    } else {
        if is_down_at(finger_down, events, n) && !(finger_down && forall|k: int|
            0 <= k < n ==> !is_contact(#[trigger] events[k])) {
            let k = choose|k: int|
                0 <= k < n && is_contact(#[trigger] events[k]) && events[k].value != 0 && forall|
                    m: int,
                |
                    k < m < n ==> !is_contact(#[trigger] events[m]);
            assert(is_contact(events[k]) && k < n - 1);
        }
        if is_down_at(finger_down, events, n - 1) && !(finger_down && forall|k: int|
            0 <= k < n - 1 ==> !is_contact(#[trigger] events[k])) {
            let k = choose|k: int|
                0 <= k < n - 1 && is_contact(#[trigger] events[k]) && events[k].value != 0
                    && forall|m: int| k < m < n - 1 ==> !is_contact(#[trigger] events[m]);
            assert(is_contact(events[k]));
        }
    }
}

/// What a batch says in all, event by event.
pub proof fn lemma_scan_by_index(finger_down: bool, events: Seq<RawEvent>)
    ensures
        ({
            let s = scan(finger_down, events);
            &&& s.finger_down == is_down_at(finger_down, events, events.len() as int)
            &&& s.contact_changed <==> exists|k: int|
                0 <= k < events.len() && is_contact(#[trigger] events[k])
            &&& s.x is Some <==> exists|i: int| is_last_horizontal(finger_down, events, i)
            &&& s.y is Some <==> exists|i: int| is_last_vertical(finger_down, events, i)
            &&& forall|i: int| #[trigger]
                is_last_horizontal(finger_down, events, i) ==> s.x == Some(events[i].value)
            &&& forall|i: int| #[trigger]
                is_last_vertical(finger_down, events, i) ==> s.y == Some(events[i].value)
        }),
    decreases events.len(),
{
    let s = scan(finger_down, events);
    let n = events.len() as int;
    if n > 0 {
        let rest = events.drop_last();
        let last = events.last();
        lemma_scan_by_index(finger_down, rest);
        lemma_down_at_step(finger_down, events);
        lemma_down_at_prefix(finger_down, events, n - 1);
        let r = scan(finger_down, rest);
        assert(last == events[n - 1]);
        assert(forall|k: int| 0 <= k < n - 1 ==> #[trigger] rest[k] == events[k]);
        assert(forall|k: int| 0 <= k < n - 1 ==> rest[k] == #[trigger] events[k]);
        if r.contact_changed {
            let k = choose|k: int| 0 <= k < rest.len() && is_contact(#[trigger] rest[k]);
            assert(is_contact(events[k]));
        }
        if exists|k: int| 0 <= k < n && is_contact(#[trigger] events[k]) {
            let k = choose|k: int| 0 <= k < n && is_contact(#[trigger] events[k]);
            if k < n - 1 {
                assert(is_contact(rest[k]));
            }
        }
        assert forall|i: int| i < n - 1 implies #[trigger] is_down_at(finger_down, rest, i)
            == is_down_at(finger_down, events, i) by {
            lemma_down_at_prefix(finger_down, events, i);
        }
        assert forall|i: int| i < n - 1 implies #[trigger] is_down_at(finger_down, events, i)
            == is_down_at(finger_down, rest, i) by {
            lemma_down_at_prefix(finger_down, events, i);
        }
        let x_here = is_horizontal(last) && is_down_at(finger_down, events, n - 1);
        let y_here = is_vertical(last) && is_down_at(finger_down, events, n - 1);
        assert(x_here ==> is_last_horizontal(finger_down, events, n - 1));
        assert(y_here ==> is_last_vertical(finger_down, events, n - 1));
        assert forall|i: int| !x_here implies #[trigger] is_last_horizontal(finger_down, rest, i)
            == is_last_horizontal(finger_down, events, i) by {
            lemma_last_horizontal_prefix(finger_down, events, i);
        }
        assert forall|i: int| !x_here implies #[trigger] is_last_horizontal(finger_down, events, i)
            == is_last_horizontal(finger_down, rest, i) by {
            lemma_last_horizontal_prefix(finger_down, events, i);
        }
        assert forall|i: int| !y_here implies #[trigger] is_last_vertical(finger_down, rest, i)
            == is_last_vertical(finger_down, events, i) by {
            lemma_last_vertical_prefix(finger_down, events, i);
        }
        assert forall|i: int| !y_here implies #[trigger] is_last_vertical(finger_down, events, i)
            == is_last_vertical(finger_down, rest, i) by {
            lemma_last_vertical_prefix(finger_down, events, i);
        }
        assert forall|i: int| x_here && #[trigger]
            is_last_horizontal(finger_down, events, i) implies i == n - 1 by {
            if i < n - 1 {
                assert(is_horizontal(events[n - 1]));
            }
        }
        assert forall|i: int| y_here && #[trigger]
            is_last_vertical(finger_down, events, i) implies i == n - 1 by {
            if i < n - 1 {
                assert(is_vertical(events[n - 1]));
            }
        }
    }
}

/// If the last event does not tell where the finger is horizontally, the last that does is among
/// the others.
proof fn lemma_last_horizontal_prefix(finger_down: bool, events: Seq<RawEvent>, i: int)
    requires
        events.len() > 0,
        !(is_horizontal(events.last()) && is_down_at(finger_down, events, events.len() - 1)),
    ensures
        is_last_horizontal(finger_down, events.drop_last(), i) == is_last_horizontal(
            finger_down,
            events,
            i,
        ),
{
    let rest = events.drop_last();
    let n = events.len() as int;
    assert(forall|k: int| 0 <= k < n - 1 ==> #[trigger] rest[k] == events[k]);
    assert(forall|k: int| 0 <= k < n - 1 ==> rest[k] == #[trigger] events[k]);
    assert forall|j: int| j < n implies is_down_at(finger_down, rest, j) == #[trigger] is_down_at(
        finger_down,
        events,
        j,
    ) by {
        lemma_down_at_prefix(finger_down, events, j);
    }
    if is_last_horizontal(finger_down, events, i) {
        assert(i != n - 1);
        assert forall|j: int| i < j < rest.len() && is_horizontal(#[trigger] rest[j]) implies
            !is_down_at(finger_down, rest, j) by {
            assert(is_horizontal(events[j]));
            assert(!is_down_at(finger_down, events, j));
        }
        assert(is_down_at(finger_down, events, i));
    }
    if is_last_horizontal(finger_down, rest, i) {
        assert forall|j: int| i < j < n && is_horizontal(#[trigger] events[j]) implies !is_down_at(
            finger_down,
            events,
            j,
        ) by {
            if j < n - 1 {
                assert(is_horizontal(rest[j]));
            }
        }
        assert(is_down_at(finger_down, events, i));
    }
}

/// If the last event does not tell where the finger is vertically, the last that does is among the
/// others.
proof fn lemma_last_vertical_prefix(finger_down: bool, events: Seq<RawEvent>, i: int)
    requires
        events.len() > 0,
        !(is_vertical(events.last()) && is_down_at(finger_down, events, events.len() - 1)),
    ensures
        is_last_vertical(finger_down, events.drop_last(), i) == is_last_vertical(
            finger_down,
            events,
            i,
        ),
{
    let rest = events.drop_last();
    let n = events.len() as int;
    assert(forall|k: int| 0 <= k < n - 1 ==> #[trigger] rest[k] == events[k]);
    assert(forall|k: int| 0 <= k < n - 1 ==> rest[k] == #[trigger] events[k]);
    assert forall|j: int| j < n implies is_down_at(finger_down, rest, j) == #[trigger] is_down_at(
        finger_down,
        events,
        j,
    ) by {
        lemma_down_at_prefix(finger_down, events, j);
    }
    if is_last_vertical(finger_down, events, i) {
        assert(i != n - 1);
        assert forall|j: int| i < j < rest.len() && is_vertical(#[trigger] rest[j]) implies
            !is_down_at(finger_down, rest, j) by {
            assert(is_vertical(events[j]));
            assert(!is_down_at(finger_down, events, j));
        }
        assert(is_down_at(finger_down, events, i));
    }
    if is_last_vertical(finger_down, rest, i) {
        assert forall|j: int| i < j < n && is_vertical(#[trigger] events[j]) implies !is_down_at(
            finger_down,
            events,
            j,
        ) by {
            if j < n - 1 {
                assert(is_vertical(rest[j]));
            }
        }
        assert(is_down_at(finger_down, events, i));
    }
}

/// After a batch the finger is where the last event of the finger button put it, and before it the
/// sampler forgets its position exactly if there is such an event.
pub proof fn law_finger_button_decides(state: SamplerState, events: Seq<RawEvent>)
    ensures
        state.after(events).finger_down == is_down_at(
            state.finger_down,
            events,
            events.len() as int,
        ),
        (exists|k: int| 0 <= k < events.len() && is_contact(#[trigger] events[k])) ==> state.base(
            events,
        ) is None,
        (forall|k: int| 0 <= k < events.len() ==> !is_contact(#[trigger] events[k])) ==> state.base(
            events,
        ) == state.last_pos,
{
    lemma_scan_by_index(state.finger_down, events);
}

/// Each event of the finger button makes one contact, in order, down for a value other than zero;
/// no other event makes one.
pub proof fn law_contacts_are_button_events(events: Seq<RawEvent>)
    ensures
        contacts(events) == events.filter(|e: RawEvent| is_contact(e)).map_values(
            |e: RawEvent|
                if e.value != 0 {
                    TouchpadEvent::FingerDown
                } else {
                    TouchpadEvent::FingerUp
                },
        ),
    decreases events.len(),
{
    reveal(Seq::filter);
    let told = |e: RawEvent|
        if e.value != 0 {
            TouchpadEvent::FingerDown
        } else {
            TouchpadEvent::FingerUp
        };
    if events.len() > 0 {
        law_contacts_are_button_events(events.drop_last());
        let earlier = events.drop_last().filter(|e: RawEvent| is_contact(e));
        assert(earlier.push(events.last()).map_values(told) == earlier.map_values(told).push(
            told(events.last()),
        ));
    } else {
        assert(events.filter(|e: RawEvent| is_contact(e)).map_values(told) == Seq::<
            TouchpadEvent,
        >::empty());
    }
}

/// A batch ends in a position exactly if the finger is down after it and at least one coordinate
/// came while it was down. All else that it yields are its contacts.
pub proof fn law_when_a_position_is_reported(
    state: SamplerState,
    events: Seq<RawEvent>,
    now: Instant,
)
    ensures
        ({
            let out = state.output(events, now);
            let moved = is_down_at(state.finger_down, events, events.len() as int) && exists|i: int|
                0 <= i < events.len() && (is_horizontal(#[trigger] events[i]) || is_vertical(
                    events[i],
                )) && is_down_at(state.finger_down, events, i);
            &&& moved ==> out.len() == contacts(events).len() + 1 && out.last() is Position
                && out.drop_last() == contacts(events)
            &&& !moved ==> out == contacts(events)
            &&& moved <==> state.reports_position(events)
        }),
{
    let down = state.finger_down;
    lemma_scan_by_index(down, events);
    if exists|i: int|
        0 <= i < events.len() && (is_horizontal(#[trigger] events[i]) || is_vertical(events[i]))
            && is_down_at(down, events, i) {
        let i = choose|i: int|
            0 <= i < events.len() && (is_horizontal(#[trigger] events[i]) || is_vertical(events[i]))
                && is_down_at(down, events, i);
        if is_horizontal(events[i]) {
            lemma_some_last_horizontal(down, events, i);
        } else {
            lemma_some_last_vertical(down, events, i);
        }
    }
    let s = scan(down, events);
    if s.x is Some {
        let i = choose|i: int| is_last_horizontal(down, events, i);
        assert(is_horizontal(events[i]));
    }
    if s.y is Some {
        let i = choose|i: int| is_last_vertical(down, events, i);
        assert(is_vertical(events[i]));
    }
    if state.reports_position(events) {
        assert(state.output(events, now).drop_last() == contacts(events));
    }
}

/// If any event tells where the finger is horizontally, one of them is the last.
proof fn lemma_some_last_horizontal(finger_down: bool, events: Seq<RawEvent>, i: int)
    requires
        0 <= i < events.len(),
        is_horizontal(events[i]),
        is_down_at(finger_down, events, i),
    ensures
        exists|j: int| is_last_horizontal(finger_down, events, j),
    decreases events.len() - i,
{
    if !is_last_horizontal(finger_down, events, i) {
        let j = choose|j: int|
            i < j < events.len() && is_horizontal(#[trigger] events[j]) && is_down_at(
                finger_down,
                events,
                j,
            );
        lemma_some_last_horizontal(finger_down, events, j);
    }
}

/// If any event tells where the finger is vertically, one of them is the last.
proof fn lemma_some_last_vertical(finger_down: bool, events: Seq<RawEvent>, i: int)
    requires
        0 <= i < events.len(),
        is_vertical(events[i]),
        is_down_at(finger_down, events, i),
    ensures
        exists|j: int| is_last_vertical(finger_down, events, j),
    decreases events.len() - i,
{
    if !is_last_vertical(finger_down, events, i) {
        let j = choose|j: int|
            i < j < events.len() && is_vertical(#[trigger] events[j]) && is_down_at(
                finger_down,
                events,
                j,
            );
        lemma_some_last_vertical(finger_down, events, j);
    }
}

/// The last coordinate stands: the position that a batch ends in has the value of the last event
/// of each axis that came while the finger was down. A coordinate that did not come is the one
/// before, or zero where the finger came down or was lifted in the batch. The sampler keeps the
/// position.
pub proof fn law_last_coordinate_stands(state: SamplerState, events: Seq<RawEvent>, now: Instant)
    requires
        state.output(events, now).len() > 0,
        state.output(events, now).last() is Position,
    ensures
        ({
            let s = state.output(events, now).last()->0;
            let down = state.finger_down;
            let before = if exists|k: int| 0 <= k < events.len() && is_contact(#[trigger] events[k]) {
                None
            } else {
                state.last_pos
            };
            &&& s.timestamp == now
            &&& state.after(events).last_pos == Some((s.x, s.y))
            &&& forall|i: int| #[trigger]
                is_last_horizontal(down, events, i) ==> s.x == events[i].value
            &&& forall|i: int| #[trigger]
                is_last_vertical(down, events, i) ==> s.y == events[i].value
            &&& (forall|i: int| !is_last_horizontal(down, events, i)) ==> s.x == (match before {
                Some(p) => p.0,
                None => 0,
            })
            &&& (forall|i: int| !is_last_vertical(down, events, i)) ==> s.y == (match before {
                Some(p) => p.1,
                None => 0,
            })
        }),
{
    lemma_scan_by_index(state.finger_down, events);
    law_last_contact_decides(state, events);
}

/// The distance of a position is measured from the position before, and is zero where the finger
/// came down or was lifted in the batch. It can be measured exactly if its square can be
/// represented.
pub proof fn law_distance_is_from_last_position(
    state: SamplerState,
    events: Seq<RawEvent>,
    now: Instant,
)
    requires
        state.output(events, now).len() > 0,
        state.output(events, now).last() is Position,
    ensures
        ({
            let s = state.output(events, now).last()->0;
            let fresh = exists|k: int| 0 <= k < events.len() && is_contact(#[trigger] events[k]);
            &&& fresh || state.last_pos is None ==> state.can_measure(events) && s.dx == 0 && s.dy
                == 0 && s.displacement_sq == 0
            &&& !fresh && state.last_pos is Some ==> {
                let dx = s.x - (state.last_pos->0).0;
                let dy = s.y - (state.last_pos->0).1;
                &&& state.can_measure(events) <==> dx * dx + dy * dy <= 2_147_483_647
                &&& state.can_measure(events) ==> s.dx == dx && s.dy == dy && s.displacement_sq == dx
                    * dx + dy * dy
            }
        }),
{
    lemma_scan_by_index(state.finger_down, events);
    law_last_contact_decides(state, events);
    assert(norm_sq(0, 0) == 0) by (nonlinear_arith);
    let s = scan(state.finger_down, events);
    let base = state.base(events);
    let d = delta(base, position(base, s.x, s.y));
    if state.can_measure(events) {
        lemma_components_fit(d.0, d.1);
    }
}

/// A batch that ends in no position can always be measured. After it the sampler keeps the position
/// that it had, unless the finger came down or was lifted.
pub proof fn law_no_position_changes_none(state: SamplerState, events: Seq<RawEvent>, now: Instant)
    requires
        state.output(events, now) == contacts(events),
    ensures
        state.can_measure(events),
        (exists|k: int| 0 <= k < events.len() && is_contact(#[trigger] events[k])) ==> state.after(
            events,
        ).last_pos is None,
        (forall|k: int| 0 <= k < events.len() ==> !is_contact(#[trigger] events[k])) ==> state.after(
            events,
        ).last_pos == state.last_pos,
{
    lemma_scan_by_index(state.finger_down, events);
    if state.reports_position(events) {
        assert(state.output(events, now).len() == contacts(events).len() + 1);
    }
}

/// A sample counts as motion exactly if the square of the distance moved reaches the square that it
/// is held against, and can be measured exactly if that square can be represented.
pub proof fn law_motion_is_distance(sample: Sample, threshold_sq: int)
    ensures
        sample.is_motion(threshold_sq) <==> sample.dx * sample.dx + sample.dy * sample.dy
            >= threshold_sq,
        sample.is_measurable() <==> sample.dx * sample.dx + sample.dy * sample.dy <= 2_147_483_647,
{
}

} // verus!
