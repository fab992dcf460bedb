//! Instants and spans of event time.
//!
//! An instant is a whole second and a nanosecond within it, in the range chrono can
//! represent; a span is the same for a length of time. The arithmetic on them is
//! chrono's: a leap second is a second nanosecond count past the last second of a minute,
//! and none is taken to lie between two instants unless one of them is in it.

use chrono::{DateTime, TimeDelta};
use vstd::prelude::*;

verus! {

/// The first second chrono can represent: the start of the year -262143.
pub const FIRST_SECOND: i64 = -8_334_601_228_800;

/// The last second chrono can represent: the end of the year 262142.
pub const LAST_SECOND: i64 = 8_210_266_876_799;

/// The most whole seconds a span can have either way.
pub const SPAN_SECONDS: i64 = 9_223_372_036_854_775;

/// The nanoseconds of a second.
pub const NANOS: u32 = 1_000_000_000;

/// The seconds of a day.
pub const DAY: i64 = 86_400;

/// Nanoseconds as one number, from whole seconds and the nanoseconds above them.
pub open spec fn in_nanos(secs: int, nanos: int) -> int {
    secs * 1_000_000_000 + nanos
}

/// Division that drops the fraction, towards zero.
pub open spec fn toward_zero(n: int, d: int) -> int {
    if n >= 0 {
        n / d
    } else {
        -((-n) / d)
    }
}

/// Whether nanoseconds may follow a whole second: less than a second of them, or less than
/// two after the last second of a minute, which may be followed by a leap second.
pub open spec fn fits_second(secs: int, nanos: int) -> bool {
    0 <= nanos < NANOS || (NANOS <= nanos < 2_000_000_000 && secs % 60 == 59)
}

/// An instant: whole seconds from the epoch, without leap seconds, and the nanoseconds
/// above them. A second of nanoseconds or more is within a leap second.
pub struct Instant {
    pub secs: int,
    pub nanos: int,
}

/// The instant at a whole second and the nanoseconds above it.
pub open spec fn instant(secs: int, nanos: int) -> Instant {
    Instant { secs, nanos }
}

impl Instant {
    /// The start of 1970.
    pub open spec fn epoch() -> Instant {
        Instant { secs: 0, nanos: 0 }
    }

    /// The instant this many nanoseconds from the epoch, not in a leap second.
    pub open spec fn at(nanos: int) -> Instant {
        Instant { secs: nanos / 1_000_000_000, nanos: nanos % 1_000_000_000 }
    }

    /// Whether chrono can represent it.
    pub open spec fn representable(self) -> bool {
        FIRST_SECOND <= self.secs <= LAST_SECOND
    }

    /// Whether it is within a leap second.
    pub open spec fn leaps(self) -> bool {
        self.nanos >= NANOS
    }

    /// Whether it comes before another.
    pub open spec fn before(self, other: Instant) -> bool {
        self.secs < other.secs || (self.secs == other.secs && self.nanos < other.nanos)
    }

    /// The nanoseconds from `earlier`. A leap second that one of the two is in counts where
    /// it lies between them by the time of day.
    pub open spec fn since(self, earlier: Instant) -> int {
        let plain = in_nanos(self.secs, self.nanos) - in_nanos(earlier.secs, earlier.nanos);
        if self.secs % (DAY as int) > earlier.secs % (DAY as int) && earlier.leaps() {
            plain + 1_000_000_000
        } else if self.secs % (DAY as int) < earlier.secs % (DAY as int) && self.leaps() {
            plain - 1_000_000_000
        } else {
            plain
        }
    }

    /// The instant `span` nanoseconds earlier. From within a leap second less than a second
    /// may stay in it or in the second before; any other step leaves it, forwards by way of
    /// its end, which is the start of the next second.
    pub open spec fn back(self, span: int) -> Instant {
        let plain = in_nanos(self.secs, self.nanos) - span;
        if !self.leaps() {
            Instant::at(plain)
        } else if -1_000_000_000 < span < 1_000_000_000 && self.nanos - span < 2_000_000_000 {
            Instant { secs: self.secs, nanos: self.nanos - span }
        } else if span > 0 {
            Instant::at(plain)
        } else {
            Instant::at(plain - 1_000_000_000)
        }
    }
}

/// An instant of event time.
#[derive(Clone, Copy, PartialEq, Eq, Structural, Debug)]
pub struct Timestamp {
    secs: i64,
    nanos: u32,
}

/// A length of event time.
#[derive(Clone, Copy, PartialEq, Eq, Structural, Debug)]
pub struct Span {
    secs: i64,
    nanos: u32,
}

impl View for Timestamp {
    type V = Instant;

    closed spec fn view(&self) -> Instant {
        instant(self.secs as int, self.nanos as int)
    }
}

impl View for Span {
    type V = int;

    /// The span in nanoseconds.
    closed spec fn view(&self) -> int {
        in_nanos(self.secs as int, self.nanos as int)
    }
}

impl Timestamp {
    #[verifier::type_invariant]
    spec fn inv(self) -> bool {
        FIRST_SECOND <= self.secs <= LAST_SECOND && fits_second(
            self.secs as int,
            self.nanos as int,
        )
    }

    /// The instant `secs` seconds and `nanos` nanoseconds from the epoch, if chrono can
    /// represent it.
    pub fn from_timestamp(secs: i64, nanos: u32) -> (r: Option<Timestamp>)
        ensures
            r is Some <==> FIRST_SECOND <= secs <= LAST_SECOND && fits_second(
                secs as int,
                nanos as int,
            ),
            r is Some ==> r->0@ == instant(secs as int, nanos as int),
    {
        if chrono_represents(secs, nanos) {
            Some(Timestamp { secs, nanos })
        } else {
            None
        }
    }

    /// The start of 1970.
    pub fn epoch() -> (r: Timestamp)
        ensures
            r@ == Instant::epoch(),
    {
        Timestamp { secs: 0, nanos: 0 }
    }

    /// The whole seconds from the epoch, rounded down.
    pub fn secs(&self) -> (r: i64)
        ensures
            r == self@.secs,
    {
        self.secs
    }

    /// The nanoseconds above the whole seconds, a second or more within a leap second.
    pub fn subsec_nanos(&self) -> (r: u32)
        ensures
            r == self@.nanos,
            fits_second(self@.secs, self@.nanos),
    {
        proof {
            use_type_invariant(self);
        }
        self.nanos
    }

    /// Whether `self` is earlier than `other`.
    pub fn before(&self, other: &Timestamp) -> (r: bool)
        ensures
            r == self@.before(other@),
    {
        self.secs < other.secs || (self.secs == other.secs && self.nanos < other.nanos)
    }

    /// The instant `span` earlier.
    pub fn minus(&self, span: &Span) -> (r: Timestamp)
        requires
            self@.back(span@).representable(),
        ensures
            r@ == self@.back(span@),
    {
        proof {
            use_type_invariant(self);
            use_type_invariant(span);
        }
        let (secs, nanos) = chrono_minus(self.secs, self.nanos, span.secs, span.nanos);
        Timestamp { secs, nanos }
    }

    /// Whether the instant `span` earlier is one that chrono can represent.
    pub fn can_step_back(&self, span: &Span) -> (r: bool)
        ensures
            r == self@.back(span@).representable(),
    {
        proof {
            use_type_invariant(self);
            use_type_invariant(span);
        }
        let back: i128 = span.secs as i128 * 1_000_000_000 + span.nanos as i128;
        let mut total: i128 = self.secs as i128 * 1_000_000_000 + self.nanos as i128 - back;
        if self.nanos >= NANOS {
            if -1_000_000_000 < back && back < 1_000_000_000 && self.nanos as i128 - back
                < 2_000_000_000 {
                return true;
            }
            if back <= 0 {
                total = total - 1_000_000_000;
            }
        }
        -8_334_601_228_800_000_000_000 <= total && total <= 8_210_266_876_799_999_999_999
    }

    /// The milliseconds from `earlier` to `self`, without the fraction.
    pub fn millis_since(&self, earlier: &Timestamp) -> (r: i64)
        ensures
            r == toward_zero(self@.since(earlier@), 1_000_000),
    {
        proof {
            use_type_invariant(self);
            use_type_invariant(earlier);
        }
        chrono_millis_between(self.secs, self.nanos, earlier.secs, earlier.nanos)
    }

    /// The seconds from `earlier` to `self`, without the fraction.
    pub fn secs_since(&self, earlier: &Timestamp) -> (r: i64)
        ensures
            r == toward_zero(self@.since(earlier@), 1_000_000_000),
    {
        proof {
            use_type_invariant(self);
            use_type_invariant(earlier);
        }
        chrono_seconds_between(self.secs, self.nanos, earlier.secs, earlier.nanos)
    }
}

impl Span {
    #[verifier::type_invariant]
    spec fn inv(self) -> bool {
        -SPAN_SECONDS <= self.secs <= SPAN_SECONDS && self.nanos < NANOS && (self.secs
            == SPAN_SECONDS ==> self.nanos == 0)
    }

    /// A span of whole seconds.
    pub fn seconds(secs: i64) -> (r: Span)
        requires
            -SPAN_SECONDS <= secs <= SPAN_SECONDS,
        ensures
            r@ == secs * 1_000_000_000,
    {
        Span { secs, nanos: 0 }
    }
}

/// chrono's `DateTime::from_timestamp`: whether it yields an instant. It does exactly in
/// the range of the representable years, with nanoseconds inside one second, or inside two
/// where the second is the last of its minute.
#[verifier::external_body]
fn chrono_represents(secs: i64, nanos: u32) -> (r: bool)
    ensures
        r == (FIRST_SECOND <= secs <= LAST_SECOND && fits_second(secs as int, nanos as int)),
{
    DateTime::from_timestamp(secs, nanos).is_some()
}

/// chrono's `DateTime - TimeDelta`, which panics when the result is out of range. Outside
/// leap seconds it is subtraction of nanoseconds; from within one, `Instant::back` says
/// where it leads.
#[verifier::external_body]
fn chrono_minus(secs: i64, nanos: u32, span_secs: i64, span_nanos: u32) -> (r: (i64, u32))
    requires
        FIRST_SECOND <= secs <= LAST_SECOND,
        fits_second(secs as int, nanos as int),
        -SPAN_SECONDS <= span_secs <= SPAN_SECONDS,
        span_nanos < NANOS,
        span_secs == SPAN_SECONDS ==> span_nanos == 0,
        instant(secs as int, nanos as int).back(
            in_nanos(span_secs as int, span_nanos as int),
        ).representable(),
    ensures
        instant(r.0 as int, r.1 as int) == instant(secs as int, nanos as int).back(
            in_nanos(span_secs as int, span_nanos as int),
        ),
{
    let instant = DateTime::from_timestamp(secs, nanos).unwrap();
    let earlier = instant - TimeDelta::new(span_secs, span_nanos).unwrap();
    (earlier.timestamp(), earlier.timestamp_subsec_nanos())
}

/// chrono's `DateTime::signed_duration_since` and `TimeDelta::num_milliseconds`: the
/// difference, with leap seconds as `Instant::since` says, in whole milliseconds, its
/// fraction dropped.
#[verifier::external_body]
fn chrono_millis_between(secs: i64, nanos: u32, earlier_secs: i64, earlier_nanos: u32) -> (r: i64)
    requires
        FIRST_SECOND <= secs <= LAST_SECOND,
        fits_second(secs as int, nanos as int),
        FIRST_SECOND <= earlier_secs <= LAST_SECOND,
        fits_second(earlier_secs as int, earlier_nanos as int),
    ensures
        r == toward_zero(
            instant(secs as int, nanos as int).since(
                instant(earlier_secs as int, earlier_nanos as int),
            ),
            1_000_000,
        ),
{
    let later = DateTime::from_timestamp(secs, nanos).unwrap();
    let earlier = DateTime::from_timestamp(earlier_secs, earlier_nanos).unwrap();
    later.signed_duration_since(earlier).num_milliseconds()
}

/// chrono's `DateTime - DateTime` and `TimeDelta::num_seconds`: the difference, with leap
/// seconds as `Instant::since` says, in whole seconds, its fraction dropped.
#[verifier::external_body]
fn chrono_seconds_between(secs: i64, nanos: u32, earlier_secs: i64, earlier_nanos: u32) -> (r: i64)
    requires
        FIRST_SECOND <= secs <= LAST_SECOND,
        fits_second(secs as int, nanos as int),
        FIRST_SECOND <= earlier_secs <= LAST_SECOND,
        fits_second(earlier_secs as int, earlier_nanos as int),
    ensures
        r == toward_zero(
            instant(secs as int, nanos as int).since(
                instant(earlier_secs as int, earlier_nanos as int),
            ),
            1_000_000_000,
        ),
{
    let later = DateTime::from_timestamp(secs, nanos).unwrap();
    let earlier = DateTime::from_timestamp(earlier_secs, earlier_nanos).unwrap();
    (later - earlier).num_seconds()
}

/// Away from leap seconds the time between two instants is that of their nanoseconds, and
/// stepping back by it leads from one to the other.
pub proof fn law_time_is_plain_outside_leap_seconds(a: Instant, b: Instant)
    requires
        0 <= a.nanos < NANOS,
        0 <= b.nanos < NANOS,
    ensures
        a.since(b) == in_nanos(a.secs, a.nanos) - in_nanos(b.secs, b.nanos),
        a.back(a.since(b)) == b,
        a.before(b) <==> a.since(b) < 0,
{
}

/// Whole units are as many as fit: what is left over is less than one unit, on the same side
/// of zero.
pub proof fn law_whole_units_leave_less_than_one(n: int, d: int)
    requires
        d > 0,
    ensures
        n >= 0 ==> 0 <= toward_zero(n, d) && 0 <= n - toward_zero(n, d) * d < d,
        n <= 0 ==> toward_zero(n, d) <= 0 && -d < n - toward_zero(n, d) * d <= 0,
{
    let m = if n >= 0 {
        n
    } else {
        -n
    };
    let q = m / d;
    assert(0 <= q && 0 <= m - q * d < d) by (nonlinear_arith)
        requires
            m >= 0,
            d > 0,
            q == m / d,
    ;
    assert((-q) * d == -(q * d)) by (nonlinear_arith);
}

/// The time from one instant to another is that from the other to the one, the other way
/// round, and no time passes from an instant to itself.
pub proof fn law_time_runs_both_ways(a: Instant, b: Instant)
    ensures
        a.since(b) == -b.since(a),
        a.since(a) == 0,
{
}

/// Of two instants one comes before the other or they are the same, and the order is
/// transitive.
pub proof fn law_instants_are_ordered(a: Instant, b: Instant, c: Instant)
    ensures
        a.before(b) || b.before(a) || a == b,
        !(a.before(b) && b.before(a)),
        !a.before(a),
        a.before(b) && b.before(c) ==> a.before(c),
{
}

/// A leap second follows the last second of its minute: it counts a whole second of its own
/// within its day, and stepping back out of it by a second or more leads to where the
/// nanoseconds since the epoch do.
pub proof fn law_a_leap_second_counts_within_its_day(a: Instant, b: Instant, span: int)
    requires
        a.nanos >= NANOS,
        0 <= b.nanos < NANOS,
    ensures
        b.secs % 86_400 > a.secs % 86_400 ==> b.since(a) == in_nanos(b.secs, b.nanos) - in_nanos(
            a.secs,
            a.nanos,
        ) + 1_000_000_000,
        b.secs % 86_400 <= a.secs % 86_400 ==> b.since(a) == in_nanos(b.secs, b.nanos) - in_nanos(
            a.secs,
            a.nanos,
        ),
        span >= 1_000_000_000 ==> in_nanos(a.back(span).secs, a.back(span).nanos) == in_nanos(
            a.secs,
            a.nanos,
        ) - span && 0 <= a.back(span).nanos < NANOS,
        a.back(0) == a || a.nanos >= 2_000_000_000,
{
}

/// An instant given by its nanoseconds lies that many from the epoch, and in no leap second.
/// The representable seconds run from the first to the last of chrono's years.
pub proof fn law_an_instant_is_its_nanoseconds_from_the_epoch(nanos: int, secs: int)
    ensures
        Instant::at(nanos).secs * 1_000_000_000 + Instant::at(nanos).nanos == nanos,
        0 <= Instant::at(nanos).nanos < 1_000_000_000,
        Instant::epoch() == Instant::at(0),
        in_nanos(secs, nanos) == 1_000_000_000 * secs + nanos,
        instant(secs, nanos).representable() <==> -8_334_601_228_800 <= secs <= 8_210_266_876_799,
        fits_second(secs, nanos) <==> 0 <= nanos && (nanos < 1_000_000_000 || (nanos
            < 2_000_000_000 && secs % 60 == 59)),
{
}

/// A step of less than a second from within a leap second stays in its second, as long as the
/// nanoseconds do; a step forwards that does not leads past the end of the leap second, which
/// is the start of the next.
pub proof fn law_a_short_step_stays_in_the_leap_second(a: Instant, span: int)
    requires
        NANOS <= a.nanos < 2_000_000_000,
    ensures
        0 <= span < 1_000_000_000 ==> a.back(span) == instant(a.secs, a.nanos - span),
        -1_000_000_000 < span < 0 && a.nanos - span < 2_000_000_000 ==> a.back(span) == instant(
            a.secs,
            a.nanos - span,
        ),
        span < 0 && a.nanos - span >= 2_000_000_000 ==> in_nanos(
            a.back(span).secs,
            a.back(span).nanos,
        ) == in_nanos(a.secs, a.nanos) - 1_000_000_000 - span && 0 <= a.back(span).nanos < NANOS,
{
}

/// From any other instant a step leads as many nanoseconds back, and into no leap second.
pub proof fn law_a_step_leads_as_many_nanoseconds_back(a: Instant, span: int)
    requires
        a.nanos < NANOS,
    ensures
        in_nanos(a.back(span).secs, a.back(span).nanos) == in_nanos(a.secs, a.nanos) - span,
        0 <= a.back(span).nanos < NANOS,
{
}

/// Between two instants in leap seconds that of the lesser time of day counts a second more.
pub proof fn law_leap_seconds_count_by_the_time_of_day(a: Instant, b: Instant)
    requires
        a.nanos >= NANOS,
        b.nanos >= NANOS,
    ensures
        a.secs % 86_400 == b.secs % 86_400 ==> a.since(b) == in_nanos(a.secs, a.nanos) - in_nanos(
            b.secs,
            b.nanos,
        ),
        a.secs % 86_400 > b.secs % 86_400 ==> a.since(b) == in_nanos(a.secs, a.nanos) - in_nanos(
            b.secs,
            b.nanos,
        ) + 1_000_000_000,
{
}

} // verus!
