//! Points in time and spans of time, as plain numbers of nanoseconds.
//!
//! The range of both types is that of a clock with 64-bit seconds: an instant holds a signed
//! number of seconds, a span an unsigned one.
use vstd::prelude::*;

verus! {

/// Nanoseconds in one second.
pub const NANOS_PER_SEC: i128 = 1_000_000_000;

/// Nanoseconds in one millisecond.
pub const NANOS_PER_MILLI: i128 = 1_000_000;

/// The earliest instant: `i64::MIN` seconds.
pub const EARLIEST_NANOS: i128 = -9_223_372_036_854_775_808_000_000_000;

/// The latest instant: `i64::MAX` seconds and a nanosecond less than one more.
pub const LATEST_NANOS: i128 = 9_223_372_036_854_775_807_999_999_999;

/// The longest span: `u64::MAX` seconds and a nanosecond less than one more.
pub const LONGEST_NANOS: i128 = 18_446_744_073_709_551_615_999_999_999;

/// A point on the monotonic clock; its view is the number of nanoseconds after the clock's origin.
#[derive(Clone, Copy, Debug, PartialEq, Eq, Structural)]
pub struct Instant {
    nanos: i128,
}

/// A span of time; its view is its length in nanoseconds.
#[derive(Clone, Copy, Debug, PartialEq, Eq, Structural)]
pub struct Duration {
    nanos: i128,
}

impl View for Instant {
    type V = int;

    closed spec fn view(&self) -> int {
        self.nanos as int
    }
}

impl View for Duration {
    type V = int;

    closed spec fn view(&self) -> int {
        self.nanos as int
    }
}

/// The length in nanoseconds of a span of `ms` milliseconds.
pub open spec fn millis(ms: int) -> int {
    ms * NANOS_PER_MILLI
}

/// What lies `span` before `now` and can be represented, or `now` itself.
pub open spec fn cutoff(now: int, span: int) -> int {
    if now - span >= EARLIEST_NANOS {
        now - span
    } else {
        now
    }
}

/// The time from `earlier` to `later`, or zero if `later` is the earlier one.
pub open spec fn elapsed(later: int, earlier: int) -> int {
    if later >= earlier {
        later - earlier
    } else {
        0
    }
}

impl Duration {
    #[verifier::type_invariant]
    spec fn in_range(self) -> bool {
        0 <= self.nanos <= LONGEST_NANOS
    }

    /// A span of `secs` seconds.
    pub fn from_secs(secs: u64) -> (span: Self)
        ensures
            span@ == secs * NANOS_PER_SEC,
    {
        Duration { nanos: secs as i128 * NANOS_PER_SEC }
    }

    /// A span of `ms` milliseconds.
    pub fn from_millis(ms: u64) -> (span: Self)
        ensures
            span@ == millis(ms as int),
    {
        Duration { nanos: ms as i128 * NANOS_PER_MILLI }
    }

    /// The whole seconds of the span.
    pub fn as_secs(&self) -> (secs: u64)
        ensures
            secs as int == self@ / 1_000_000_000,
    {
        proof {
            use_type_invariant(self);
        }
        (self.nanos / NANOS_PER_SEC) as u64
    }

    /// The nanoseconds of the span that its whole seconds leave over.
    pub fn subsec_nanos(&self) -> (nanos: u32)
        ensures
            nanos as int == self@ % 1_000_000_000,
            nanos < 1_000_000_000,
    {
        proof {
            use_type_invariant(self);
        }
        (self.nanos % NANOS_PER_SEC) as u32
    }

    /// Whether this span is shorter than `other`.
    pub fn is_shorter_than(&self, other: &Duration) -> (r: bool)
        ensures
            r == (self@ < other@),
    {
        self.nanos < other.nanos
    }

    /// Both spans together.
    pub fn plus(&self, other: &Duration) -> (sum: Duration)
        requires
            self@ + other@ <= LONGEST_NANOS,
        ensures
            sum@ == self@ + other@,
    {
        proof {
            use_type_invariant(self);
            use_type_invariant(other);
        }
        Duration { nanos: self.nanos + other.nanos }
    }
}

impl Instant {
    #[verifier::type_invariant]
    spec fn in_range(self) -> bool {
        EARLIEST_NANOS <= self.nanos <= LATEST_NANOS
    }

    /// The instant `secs` seconds and `nanos` nanoseconds after the clock's origin, or the latest
    /// instant if that lies beyond it.
    pub fn since_origin(secs: u64, nanos: u32) -> (t: Self)
        requires
            nanos < 1_000_000_000,
        ensures
            t@ == if secs <= i64::MAX {
                secs * NANOS_PER_SEC + nanos
            } else {
                LATEST_NANOS as int
            },
    {
        if secs <= 0x7fff_ffff_ffff_ffff {
            Instant { nanos: secs as i128 * NANOS_PER_SEC + nanos as i128 }
        } else {
            Instant { nanos: LATEST_NANOS }
        }
    }

    /// Whether this instant comes before `other`.
    pub fn is_before(&self, other: &Instant) -> (r: bool)
        ensures
            r == (self@ < other@),
    {
        self.nanos < other.nanos
    }

    /// The instant `span` before this one, if it can be represented.
    pub fn checked_sub(&self, span: Duration) -> (t: Option<Instant>)
        ensures
            t is Some <==> self@ - span@ >= EARLIEST_NANOS,
            t matches Some(t) ==> t@ == self@ - span@,
    {
        proof {
            use_type_invariant(self);
            use_type_invariant(&span);
        }
        let nanos: i128 = self.nanos - span.nanos;
        if nanos >= EARLIEST_NANOS {
            Some(Instant { nanos })
        } else {
            None
        }
    }

    /// The instant before which something that happened more than `span` ago lies.
    pub fn cutoff(&self, span: Duration) -> (t: Instant)
        ensures
            t@ == cutoff(self@, span@),
    {
        match self.checked_sub(span) {
            Some(t) => t,
            None => *self,
        }
    }

    /// The time from `earlier` to this instant, or zero if `earlier` is the later one.
    pub fn duration_since(&self, earlier: Instant) -> (span: Duration)
        ensures
            span@ == elapsed(self@, earlier@),
    {
        proof {
            use_type_invariant(self);
            use_type_invariant(&earlier);
        }
        if self.nanos >= earlier.nanos {
            Duration { nanos: self.nanos - earlier.nanos }
        } else {
            Duration { nanos: 0 }
        }
    }
}

/// `std::time::Instant`, which only says how much time has passed since it was taken.
#[verifier::external_type_specification]
#[verifier::external_body]
pub struct ExStdInstant(std::time::Instant);

/// `std::time::Instant::now`. Nothing is claimed of the reading: it is whatever the clock shows.
#[verifier::external_body]
fn take_reading() -> std::time::Instant {
    std::time::Instant::now()
}

/// `std::time::Instant::elapsed`, as whole seconds and the nanoseconds left over. The time that
/// has passed is up to the clock; all that is claimed is that the nanoseconds make less than one
/// second.
#[verifier::external_body]
fn time_since(reading: &std::time::Instant) -> (r: (u64, u32))
    ensures
        r.1 < 1_000_000_000,
{
    let passed = reading.elapsed();
    (passed.as_secs(), passed.subsec_nanos())
}

/// The monotonic clock, with the moment at which it was started as the origin of its instants.
#[derive(Clone, Copy, Debug)]
pub struct Clock {
    origin: std::time::Instant,
}

/// What `read` makes of `reading`, whatever it is.
fn read_by<F: Fn(&std::time::Instant) -> (u64, u32)>(read: F, reading: &std::time::Instant) -> (r: (
    u64,
    u32,
))
    requires
        call_requires(read, (reading,)),
    ensures
        call_ensures(read, (reading,), r),
{
    read(reading)
}

/// Spans and instants are numbers of nanoseconds: a second has a thousand milliseconds of a million
/// nanoseconds each. Their range is that of 64-bit seconds.
pub proof fn law_units(ms: int, secs: int)
    ensures
        millis(ms) == ms * 1_000_000,
        millis(1_000 * secs) == secs * NANOS_PER_SEC,
        secs * NANOS_PER_SEC == secs * 1_000_000_000,
        LATEST_NANOS == i64::MAX * 1_000_000_000 + 999_999_999,
        EARLIEST_NANOS == i64::MIN * 1_000_000_000,
        LONGEST_NANOS == u64::MAX * 1_000_000_000 + 999_999_999,
{
}

/// The time between two instants is how far the later one lies after the earlier one, and it passes
/// in one direction only.
pub proof fn law_time_passes_one_way(a: int, b: int)
    ensures
        elapsed(a, b) >= 0,
        elapsed(a, b) - elapsed(b, a) == a - b,
        elapsed(a, b) == 0 || elapsed(b, a) == 0,
{
}

/// What happened a span ago or later does not lie before the cutoff, and what happened earlier
/// does, as long as the instant a span ago can be represented. Otherwise only what comes later than
/// now does not.
pub proof fn law_cutoff_parts_old_from_recent(now: int, span: int, t: int)
    ensures
        now - span >= -9_223_372_036_854_775_808_000_000_000 ==> (t >= cutoff(now, span) <==> now - t
            <= span),
        now - span < -9_223_372_036_854_775_808_000_000_000 ==> (t >= cutoff(now, span) <==> t
            >= now),
{
}

/// What a clock shows does not lie before its origin, nor after the latest instant.
pub proof fn law_clock_shows_time_since_start(clock: Clock, t: int)
    requires
        clock.shows(t),
    ensures
        0 <= t <= LATEST_NANOS,
{
    lemma_clock_shows_what_has_passed(clock, t);
}

/// What a clock shows is the time that has passed since its origin when it is read, and nothing
/// else.
proof fn lemma_clock_shows_what_has_passed(clock: Clock, t: int)
    ensures
        clock.shows(t) ==> exists|secs: u64, nanos: u32|
            #[trigger] call_ensures(time_since, (&clock.origin,), (secs, nanos)) && (secs
                <= i64::MAX ==> t == secs * 1_000_000_000 + nanos) && (secs > i64::MAX ==> t
                == LATEST_NANOS),
{
    if clock.shows(t) {
        let passed = choose|passed: (u64, u32)|
            #[trigger] call_ensures(time_since, (&clock.origin,), passed) && t == if passed.0
                <= i64::MAX {
                passed.0 * 1_000_000_000 + passed.1
            } else {
                LATEST_NANOS as int
            };
        assert(call_ensures(time_since, (&clock.origin,), (passed.0, passed.1)));
    }
}

impl Clock {
    /// Whether `t` is an instant that a reading of this clock gives: as many seconds and nanoseconds
    /// after the origin as have passed since then when it is read.
    pub closed spec fn shows(self, t: int) -> bool {
        exists|passed: (u64, u32)|
            #[trigger] call_ensures(time_since, (&self.origin,), passed) && t == if passed.0
                <= i64::MAX {
                passed.0 * 1_000_000_000 + passed.1
            } else {
                LATEST_NANOS as int
            }
    }

    /// A clock whose origin is the present moment.
    pub fn start() -> Self {
        Clock { origin: take_reading() }
    }

    /// The present moment. It does not come before the clock's origin.
    pub fn now(&self) -> (t: Instant)
        ensures
            0 <= t@ <= LATEST_NANOS,
            self.shows(t@),
    {
        let (secs, nanos) = read_by(time_since, &self.origin);
        Instant::since_origin(secs, nanos)
    }
}

} // verus!
