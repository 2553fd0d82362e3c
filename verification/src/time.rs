//! Points in time, spans of time, and the RFC 3339 rendering of a point in time.
use vstd::prelude::*;

use crate::text;

verus! {

/// Nanoseconds per second.
pub const NANOS_PER_SEC: u128 = 1_000_000_000;

/// The longest span that a [`Duration`] holds: `u64::MAX` seconds and 999,999,999 nanoseconds.
pub const MAX_DURATION_NANOS: u128 = 18_446_744_073_709_551_615_999_999_999;

/// A span of time with nanosecond precision.
#[derive(Debug, Clone, Copy, PartialEq, Eq, Structural)]
pub struct Duration {
    nanos: u128,
}

impl Duration {
    /// The length of the span in nanoseconds.
    pub closed spec fn view(&self) -> nat {
        self.nanos as nat
    }

    #[verifier::type_invariant]
    spec fn in_range(self) -> bool {
        self.nanos <= MAX_DURATION_NANOS
    }

    /// A span of whole seconds.
    pub fn from_secs(secs: u64) -> (d: Duration)
        ensures
            d@ == secs * 1_000_000_000,
    {
        Duration { nanos: secs as u128 * NANOS_PER_SEC }
    }

    /// A span of whole milliseconds.
    pub fn from_millis(millis: u64) -> (d: Duration)
        ensures
            d@ == millis * 1_000_000,
    {
        Duration { nanos: millis as u128 * 1_000_000 }
    }

    /// A span of `secs` seconds and `nanos` nanoseconds; whole seconds in `nanos` carry over.
    pub fn new(secs: u64, nanos: u32) -> (d: Duration)
        requires
            secs * 1_000_000_000 + nanos <= MAX_DURATION_NANOS,
        ensures
            d@ == secs * 1_000_000_000 + nanos,
    {
        Duration { nanos: secs as u128 * NANOS_PER_SEC + nanos as u128 }
    }

    /// The whole seconds of the span.
    pub fn as_secs(&self) -> (secs: u64)
        ensures
            secs == self@ / 1_000_000_000,
    {
        proof {
            use_type_invariant(self);
        }
        (self.nanos / NANOS_PER_SEC) as u64
    }

    /// The nanoseconds of the span beyond its whole seconds.
    pub fn subsec_nanos(&self) -> (nanos: u32)
        ensures
            nanos == self@ % 1_000_000_000,
    {
        (self.nanos % NANOS_PER_SEC) as u32
    }

    /// The milliseconds of the span beyond its whole seconds.
    pub fn subsec_millis(&self) -> (millis: u32)
        ensures
            millis == (self@ % 1_000_000_000) / 1_000_000,
    {
        (self.nanos % NANOS_PER_SEC / 1_000_000) as u32
    }

    /// The whole microseconds of the span.
    pub fn as_micros(&self) -> (micros: u128)
        ensures
            micros == self@ / 1_000,
    {
        self.nanos / 1_000
    }

    /// The span in nanoseconds.
    pub fn as_nanos(&self) -> (nanos: u128)
        ensures
            nanos == self@,
            nanos <= MAX_DURATION_NANOS,
    {
        proof {
            use_type_invariant(self);
        }
        self.nanos
    }

    /// The span `factor` times as long, or the longest span where that is longer still.
    pub fn saturating_mul(self, factor: u32) -> (d: Duration)
        ensures
            d@ == if self@ * factor <= MAX_DURATION_NANOS {
                self@ * factor
            } else {
                MAX_DURATION_NANOS as int
            },
    {
        proof {
            use_type_invariant(&self);
        }
        assert(self.nanos * factor <= MAX_DURATION_NANOS * 0xffff_ffffu32) by (nonlinear_arith)
            requires
                self.nanos <= MAX_DURATION_NANOS,
                factor <= 0xffff_ffffu32,
        ;
        let product: u128 = self.nanos * factor as u128;
        if product <= MAX_DURATION_NANOS {
            Duration { nanos: product }
        } else {
            Duration { nanos: MAX_DURATION_NANOS }
        }
    }

    /// The shorter of the two spans.
    pub fn min(self, other: Duration) -> (d: Duration)
        ensures
            d == if self@ <= other@ {
                self
            } else {
                other
            },
    {
        if self.nanos <= other.nanos {
            self
        } else {
            other
        }
    }

    /// The longer of the two spans.
    pub fn max(self, other: Duration) -> (d: Duration)
        ensures
            d == if self@ > other@ {
                self
            } else {
                other
            },
    {
        if self.nanos > other.nanos {
            self
        } else {
            other
        }
    }

    /// Whether this span is longer than `other`.
    pub fn longer_than(&self, other: &Duration) -> (b: bool)
        ensures
            b == (self@ > other@),
    {
        self.nanos > other.nanos
    }
}

/// A reading of the monotonic clock: the nanoseconds since an origin that is fixed while the
/// process runs.
#[derive(Debug, Clone, Copy, PartialEq, Eq, Structural)]
pub struct Instant {
    nanos: u128,
}

impl Instant {
    /// The nanoseconds since the origin.
    pub closed spec fn view(&self) -> nat {
        self.nanos as nat
    }

    /// The reading that is `elapsed` after the origin.
    pub fn at(elapsed: Duration) -> (i: Instant)
        ensures
            i@ == elapsed@,
    {
        Instant { nanos: elapsed.as_nanos() }
    }

    /// The reading `d` later, or the last one that can be held.
    pub fn plus(self, d: Duration) -> (i: Instant)
        ensures
            i@ == if self@ + d@ <= u128::MAX {
                self@ + d@
            } else {
                u128::MAX as nat
            },
    {
        Instant { nanos: self.nanos.saturating_add(d.as_nanos()) }
    }

    /// The span from `earlier` to this reading: zero where `earlier` is later, and the longest
    /// span where they are further apart than that.
    pub fn saturating_duration_since(&self, earlier: Instant) -> (d: Duration)
        ensures
            d@ == if self@ <= earlier@ {
                0
            } else if self@ - earlier@ <= MAX_DURATION_NANOS {
                self@ - earlier@
            } else {
                MAX_DURATION_NANOS as int
            },
    {
        let apart: u128 = self.nanos.saturating_sub(earlier.nanos);
        if apart <= MAX_DURATION_NANOS {
            Duration { nanos: apart }
        } else {
            Duration { nanos: MAX_DURATION_NANOS }
        }
    }

    /// Whether this reading is not after `other`.
    pub fn reached_by(&self, other: Instant) -> (b: bool)
        ensures
            b == (self@ <= other@),
    {
        self.nanos <= other.nanos
    }
}

/// A reading of the wall clock: whole seconds since 1970-01-01T00:00:00Z, negative before it,
/// and the nanoseconds after that second.
#[derive(Debug, Clone, Copy, PartialEq, Eq, Structural)]
pub struct SystemTime {
    secs: i64,
    nanos: u32,
}

impl SystemTime {
    /// The nanoseconds since the Unix epoch, negative before it.
    pub closed spec fn view(&self) -> int {
        self.secs * 1_000_000_000 + self.nanos
    }

    #[verifier::type_invariant]
    spec fn in_range(self) -> bool {
        self.nanos < 1_000_000_000 && self.secs > i64::MIN
    }

    /// 1970-01-01T00:00:00Z.
    pub fn unix_epoch() -> (t: SystemTime)
        ensures
            t@ == 0,
    {
        SystemTime { secs: 0, nanos: 0 }
    }

    /// The time of `secs` seconds and `nanos` nanoseconds since the Unix epoch.
    pub fn from_parts(secs: i64, nanos: u32) -> (t: SystemTime)
        requires
            nanos < 1_000_000_000,
            secs > i64::MIN,
        ensures
            t@ == secs * 1_000_000_000 + nanos,
    {
        SystemTime { secs, nanos }
    }

    /// The whole seconds since the Unix epoch, rounded down.
    pub fn secs(&self) -> (secs: i64)
        ensures
            secs == self@ / 1_000_000_000,
            secs > i64::MIN,
    {
        proof {
            use_type_invariant(self);
        }
        self.secs
    }

    /// The nanoseconds after the second that [`SystemTime::secs`] gives.
    pub fn nanos(&self) -> (nanos: u32)
        ensures
            nanos == self@ % 1_000_000_000,
            nanos < 1_000_000_000,
    {
        proof {
            use_type_invariant(self);
        }
        self.nanos
    }

    /// The time `d` after this one.
    pub fn plus(self, d: Duration) -> (t: SystemTime)
        requires
            self@ + d@ < 0x8000_0000_0000_0000 * 1_000_000_000,
        ensures
            t@ == self@ + d@,
    {
        proof {
            use_type_invariant(&self);
        }
        let nanos: u64 = self.nanos as u64 + d.subsec_nanos() as u64;
        let carry: i128 = if nanos >= 1_000_000_000 {
            1
        } else {
            0
        };
        let secs: i128 = self.secs as i128 + d.as_secs() as i128 + carry;
        let rest: u64 = if nanos >= 1_000_000_000 {
            (nanos - 1_000_000_000) as u64
        } else {
            nanos
        };
        SystemTime { secs: secs as i64, nanos: rest as u32 }
    }

    /// The span since the Unix epoch; none for a time before it.
    pub fn since_unix_epoch(&self) -> (d: Option<Duration>)
        ensures
            d is Some <==> self@ >= 0,
            d matches Some(d) ==> d@ == self@,
    {
        proof {
            use_type_invariant(self);
        }
        if self.secs < 0 {
            None
        } else {
            Some(Duration::new(self.secs as u64, self.nanos))
        }
    }

    /// Whether this time is before `other`.
    pub fn before(&self, other: SystemTime) -> (b: bool)
        ensures
            b == (self@ < other@),
    {
        proof {
            use_type_invariant(self);
            use_type_invariant(&other);
        }
        self.secs < other.secs || (self.secs == other.secs && self.nanos < other.nanos)
    }
}

/// Whether `y` is a leap year of the Gregorian calendar.
pub open spec fn is_leap_year(y: int) -> bool {
    y % 4 == 0 && (y % 100 != 0 || y % 400 == 0)
}

/// The number of days of month `m` in year `y`.
pub open spec fn days_in_month(y: int, m: int) -> int {
    if m == 2 {
        if is_leap_year(y) {
            29
        } else {
            28
        }
    } else if m == 4 || m == 6 || m == 9 || m == 11 {
        30
    } else {
        31
    }
}

/// The days of year `y` before the first of month `m`.
pub open spec fn days_before_month(y: int, m: int) -> int
    decreases m,
{
    if m <= 1 {
        0
    } else {
        days_before_month(y, m - 1) + days_in_month(y, m - 1)
    }
}

/// The days from 1970-01-01 to the first of January of year `y`, for `y` from 1970.
pub open spec fn days_before_year(y: int) -> int
    decreases y - 1970,
{
    if y <= 1970 {
        0
    } else {
        days_before_year(y - 1) + if is_leap_year(y - 1) {
            366int
        } else {
            365int
        }
    }
}

/// Whether the three numbers are a date of the Gregorian calendar, from 1970.
pub open spec fn is_date(y: int, m: int, d: int) -> bool {
    1970 <= y && 1 <= m <= 12 && 1 <= d <= days_in_month(y, m)
}

/// The days from 1970-01-01 to the given date.
pub open spec fn days_since_epoch(y: int, m: int, d: int) -> int {
    days_before_year(y) + days_before_month(y, m) + d - 1
}

/// The count of days before a year, summed up: 365 for each year and one for each leap year.
pub proof fn lemma_days_before_year(y: int)
    requires
        y >= 1970,
    ensures
        days_before_year(y) == 365 * (y - 1970) + (y - 1) / 4 - (y - 1) / 100 + (y - 1) / 400 - 477,
    decreases y,
{
    if y > 1970 {
        lemma_days_before_year(y - 1);
    }
}

/// The days before each month, written out.
proof fn lemma_days_before_month(y: int)
    ensures
        ({
            let feb = days_in_month(y, 2);
            &&& days_before_month(y, 1) == 0
            &&& days_before_month(y, 2) == 31
            &&& days_before_month(y, 3) == 31 + feb
            &&& days_before_month(y, 4) == 62 + feb
            &&& days_before_month(y, 5) == 92 + feb
            &&& days_before_month(y, 6) == 123 + feb
            &&& days_before_month(y, 7) == 153 + feb
            &&& days_before_month(y, 8) == 184 + feb
            &&& days_before_month(y, 9) == 215 + feb
            &&& days_before_month(y, 10) == 245 + feb
            &&& days_before_month(y, 11) == 276 + feb
            &&& days_before_month(y, 12) == 306 + feb
        }),
{
    reveal_with_fuel(days_before_month, 13);
}

/// The year of a 400-year era that a day of it falls in, where years start on the first of March.
#[verifier::spinoff_prover]
#[verifier::rlimit(40)]
proof fn lemma_year_of_era(doe: int, yoe: int)
    requires
        0 <= doe <= 146096,
        yoe == (doe - doe / 1460 + doe / 36524 - doe / 146096) / 365,
    ensures
        0 <= yoe <= 399,
        365 * yoe + yoe / 4 - yoe / 100 <= doe,
        doe < 365 * (yoe + 1) + (yoe + 1) / 4 - (yoe + 1) / 100 + (yoe + 1) / 400,
{
}

/// The date, as year, month and day, that is `days` days after 1970-01-01.
pub fn epoch_days_to_date(days: u64) -> (date: (u64, u64, u64))
    requires
        days + 719468 <= u64::MAX,
    ensures
        is_date(date.0 as int, date.1 as int, date.2 as int),
        days_since_epoch(date.0 as int, date.1 as int, date.2 as int) == days,
{
    let z: u64 = days + 719468;
    let era: u64 = z / 146097;
    let doe: u64 = z - era * 146097;
    let yoe: u64 = (doe - doe / 1460 + doe / 36524 - doe / 146096) / 365;
    proof {
        lemma_year_of_era(doe as int, yoe as int);
    }
    let y: u64 = yoe + era * 400;
    let doy: u64 = doe - (365 * yoe + yoe / 4 - yoe / 100);
    let mp: u64 = (5 * doy + 2) / 153;
    let d: u64 = doy - (153 * mp + 2) / 5 + 1;
    let m: u64 = if mp < 10 {
        mp + 3
    } else {
        mp - 9
    };
    let y1: u64 = if m <= 2 {
        y + 1
    } else {
        y
    };
    proof {
        lemma_date_of_day(days as int, era as int, doe as int, yoe as int);
    }
    (y1, m, d)
}

/// The month and day of the day `doy` of a year that starts on the first of March.
proof fn lemma_month_of_day(doy: int, mp: int)
    requires
        0 <= doy <= 365,
        mp == (5 * doy + 2) / 153,
    ensures
        0 <= mp <= 11,
        (153 * mp + 2) / 5 <= doy < (153 * (mp + 1) + 2) / 5,
{
}

/// The days from 1970-01-01 to the first of March of year `y`.
spec fn march_first(y: int) -> int {
    365 * y + y / 4 - y / 100 + y / 400 - 719468
}

/// The first of March of `y` comes after January and February of `y`, and 306 days before the
/// first of January of the next year.
#[verifier::spinoff_prover]
proof fn lemma_march_first(y: int)
    requires
        y >= 1969,
    ensures
        days_before_year(y + 1) == march_first(y) + 306,
        y >= 1970 ==> days_before_year(y) + 31 + days_in_month(y, 2) == march_first(y),
{
    lemma_days_before_year(y + 1);
    if y >= 1970 {
        lemma_days_before_year(y);
        assert((y - 1) / 4 == if y % 4 == 0 { y / 4 - 1 } else { y / 4 });
        assert((y - 1) / 100 == if y % 100 == 0 { y / 100 - 1 } else { y / 100 });
        assert((y - 1) / 400 == if y % 400 == 0 { y / 400 - 1 } else { y / 400 });
        assert(y % 400 == 0 ==> y % 100 == 0);
        assert(y % 100 == 0 ==> y % 4 == 0);
    }
}

/// A year of an era starts on the same first of March as the year of the calendar, and its last
/// day, where it has 366, is a leap day.
#[verifier::spinoff_prover]
proof fn lemma_era_year(era: int, yoe: int)
    requires
        0 <= yoe <= 399,
    ensures
        era * 146097 + 365 * yoe + yoe / 4 - yoe / 100 - 719468 == march_first(yoe + era * 400),
        365 * (yoe + 1) + (yoe + 1) / 4 - (yoe + 1) / 100 + (yoe + 1) / 400 - (365 * yoe + yoe / 4
            - yoe / 100) == if is_leap_year(yoe + era * 400 + 1) {
            366int
        } else {
            365int
        },
{
    let y = yoe + era * 400;
    assert(y / 4 == yoe / 4 + era * 100);
    assert(y / 100 == yoe / 100 + era * 4);
    assert(y / 400 == era);
    assert((y + 1) % 4 == (yoe + 1) % 4);
    assert((y + 1) % 100 == (yoe + 1) % 100);
    assert((y + 1) % 400 == (yoe + 1) % 400);
    let n = yoe + 1;
    assert((n - 1) / 4 == if n % 4 == 0 { n / 4 - 1 } else { n / 4 });
    assert((n - 1) / 100 == if n % 100 == 0 { n / 100 - 1 } else { n / 100 });
    assert(n / 400 == if n % 400 == 0 { 1int } else { 0int });
    assert(n % 400 == 0 ==> n % 100 == 0);
    assert(n % 100 == 0 ==> n % 4 == 0);
}

#[verifier::spinoff_prover]
proof fn lemma_date_of_day(days: int, era: int, doe: int, yoe: int)
    requires
        days >= 0,
        era == (days + 719468) / 146097,
        doe == days + 719468 - era * 146097,
        0 <= yoe <= 399,
        365 * yoe + yoe / 4 - yoe / 100 <= doe,
        doe < 365 * (yoe + 1) + (yoe + 1) / 4 - (yoe + 1) / 100 + (yoe + 1) / 400,
    ensures
        ({
            let y = yoe + era * 400;
            let doy = doe - (365 * yoe + yoe / 4 - yoe / 100);
            let mp = (5 * doy + 2) / 153;
            let d = doy - (153 * mp + 2) / 5 + 1;
            let m = if mp < 10 {
                mp + 3
            } else {
                mp - 9
            };
            let y1 = if m <= 2 {
                y + 1
            } else {
                y
            };
            &&& 0 <= doy <= 365
            &&& 0 <= mp <= 11
            &&& is_date(y1, m, d)
            &&& days_since_epoch(y1, m, d) == days
        }),
{
    let y = yoe + era * 400;
    let doy = doe - (365 * yoe + yoe / 4 - yoe / 100);
    let mp = (5 * doy + 2) / 153;
    let d = doy - (153 * mp + 2) / 5 + 1;
    let m = if mp < 10 {
        mp + 3
    } else {
        mp - 9
    };
    let y1 = if m <= 2 {
        y + 1
    } else {
        y
    };
    lemma_era_year(era, yoe);
    lemma_month_of_day(doy, mp);
    assert(days == march_first(y) + doy);
    assert(y >= 1969) by {
        if y <= 1968 {
            assert(y / 4 <= 492 && y / 100 >= y / 400);
        }
    }
    lemma_march_first(y);
    assert(y1 >= 1970);
    lemma_days_before_month(y1);
}

/// Whether the year has a 29th of February: every fourth one does, but for those of whole centuries that
/// four hundred does not divide.
pub open spec fn has_leap_day(y: int) -> bool {
    (y % 4 == 0 && y % 100 != 0) || y % 400 == 0
}

/// Dates follow each other day by day, from the first of January 1970 on: the day after the last of a
/// month is the first of the next one, and the day after the last of December the first of January. The
/// months have the lengths of the Gregorian calendar.
pub proof fn law_dates_follow_each_other(y: int, m: int, d: int)
    requires
        is_date(y, m, d),
    ensures
        days_since_epoch(1970, 1, 1) == 0,
        is_date(y, m, d + 1) ==> days_since_epoch(y, m, d + 1) == days_since_epoch(y, m, d) + 1,
        !is_date(y, m, d + 1) && m < 12 ==> is_date(y, m + 1, 1) && days_since_epoch(y, m + 1, 1)
            == days_since_epoch(y, m, d) + 1,
        !is_date(y, m, d + 1) && m == 12 ==> days_since_epoch(y + 1, 1, 1) == days_since_epoch(
            y,
            m,
            d,
        ) + 1,
        is_date(y, m, 28),
        is_date(y, 2, 29) <==> has_leap_day(y),
        !is_date(y, 2, 30),
        m != 2 ==> is_date(y, m, 30),
        is_date(y, m, 31) <==> m == 1 || m == 3 || m == 5 || m == 7 || m == 8 || m == 10 || m == 12,
        !is_date(y, m, 32),
{
    lemma_days_before_month(y);
    lemma_days_before_month(1970);
}

/// No two dates are the same number of days after 1970-01-01, so a count of days has one date.
pub proof fn law_one_date_per_day(y1: int, m1: int, d1: int, y2: int, m2: int, d2: int)
    requires
        is_date(y1, m1, d1),
        is_date(y2, m2, d2),
        days_since_epoch(y1, m1, d1) == days_since_epoch(y2, m2, d2),
    ensures
        y1 == y2 && m1 == m2 && d1 == d2,
{
    lemma_days_before_month(y1);
    lemma_days_before_month(y2);
    lemma_days_before_year(y1);
    lemma_days_before_year(y2);
    lemma_days_before_year(y1 + 1);
    lemma_days_before_year(y2 + 1);
}

/// A later date is more days after 1970-01-01.
pub proof fn law_dates_in_order(y1: int, m1: int, d1: int, y2: int, m2: int, d2: int)
    requires
        is_date(y1, m1, d1),
        is_date(y2, m2, d2),
        y1 < y2 || (y1 == y2 && (m1 < m2 || (m1 == m2 && d1 < d2))),
    ensures
        days_since_epoch(y1, m1, d1) < days_since_epoch(y2, m2, d2),
{
    lemma_days_before_month(y1);
    lemma_days_before_month(y2);
    lemma_days_before_year(y1);
    lemma_days_before_year(y2);
    lemma_days_before_year(y1 + 1);
}

/// The text of a date and a time of day: `{year}-{month}-{day}T{h}:{m}:{s}.{ms}+00:00`.
pub open spec fn rfc3339_text(
    year: nat,
    month: nat,
    day: nat,
    second_of_day: nat,
    millis: nat,
) -> Seq<char> {
    text::padded(year, 4) + seq!['-'] + text::padded(month, 2) + seq!['-'] + text::padded(day, 2) + seq!['T'] + text::padded(
        second_of_day / 3600,
        2,
    ) + seq![':'] + text::padded(second_of_day / 60 % 60, 2) + seq![':'] + text::padded(second_of_day % 60, 2)
        + seq!['.'] + text::padded(millis, 3) + "+00:00"@
}

/// Whether `text` is the RFC 3339 text, in UTC and to the millisecond, of the time that is `nanos`
/// nanoseconds after the Unix epoch.
pub open spec fn is_rfc3339_of(text: Seq<char>, nanos: int) -> bool {
    exists|y: nat, m: nat, d: nat|
        {
            &&& is_date(y as int, m as int, d as int)
            &&& days_since_epoch(y as int, m as int, d as int) == nanos / 86_400_000_000_000
            &&& text == #[trigger] rfc3339_text(
                y,
                m,
                d,
                (nanos / 1_000_000_000 % 86_400) as nat,
                (nanos / 1_000_000 % 1_000) as nat,
            )
        }
}

/// The days, the second of the day and the milliseconds of a time, from its nanoseconds.
#[verifier::spinoff_prover]
proof fn lemma_time_of_day(nanos: int)
    requires
        nanos >= 0,
    ensures
        nanos / 86_400_000_000_000 == nanos / 1_000_000_000 / 86_400,
        nanos / 1_000_000 % 1_000 == nanos % 1_000_000_000 / 1_000_000,
        nanos / 1_000_000_000 % 86_400 / 60 % 60 == nanos / 1_000_000_000 % 86_400 % 3600 / 60,
        nanos / 1_000_000_000 % 86_400 % 60 == nanos / 1_000_000_000 % 86_400 % 3600 % 60,
{
    vstd::arithmetic::div_mod::lemma_div_denominator(nanos, 1_000_000_000, 86_400);
    vstd::arithmetic::div_mod::lemma_mod_breakdown(nanos, 1_000_000, 1_000);
    let q = nanos / 1_000_000_000;
    let r = nanos % 1_000_000_000;
    assert(nanos == q * 1_000_000_000 + r);
    assert(nanos / 1_000_000 == q * 1_000 + r / 1_000_000);
    let s = q % 86_400;
    assert(s % 3600 == s - 3600 * (s / 3600));
}

/// The time, or the Unix epoch where the time is before it.
pub open spec fn from_epoch_on(nanos: int) -> int {
    if nanos >= 0 {
        nanos
    } else {
        0
    }
}

/// The RFC 3339 text of `time`, such as `2026-03-27T13:49:25.852+00:00`. A time before the Unix
/// epoch is written as the epoch.
pub fn format_rfc3339(time: SystemTime) -> (text: String)
    ensures
        is_rfc3339_of(text@, from_epoch_on(time@)),
{
    let since_epoch = match time.since_unix_epoch() {
        Some(d) => d,
        None => Duration::from_secs(0),
    };
    let ghost nanos: int = since_epoch@ as int;
    let total_secs: u64 = since_epoch.as_secs();
    let millis: u32 = since_epoch.subsec_millis();

    let days: u64 = total_secs / 86400;
    let of_day: u64 = total_secs % 86400;
    let hours: u64 = of_day / 3600;
    let of_hour: u64 = of_day % 3600;
    let minutes: u64 = of_hour / 60;
    let seconds: u64 = of_hour % 60;
    let (year, month, day) = epoch_days_to_date(days);

    let mut text = String::new();
    text::push_padded(&mut text, year, 4);
    text.push('-');
    text::push_padded(&mut text, month, 2);
    text.push('-');
    text::push_padded(&mut text, day, 2);
    text.push('T');
    text::push_padded(&mut text, hours, 2);
    text.push(':');
    text::push_padded(&mut text, minutes, 2);
    text.push(':');
    text::push_padded(&mut text, seconds, 2);
    text.push('.');
    text::push_padded(&mut text, millis as u64, 3);
    text.push_str("+00:00");
    proof {
        lemma_time_of_day(nanos);
        assert((nanos / 1_000_000_000 % 86_400) as nat == of_day as nat);
        assert((nanos / 1_000_000 % 1_000) as nat == millis as nat);
        assert(text@ =~= rfc3339_text(
            year as nat,
            month as nat,
            day as nat,
            (nanos / 1_000_000_000 % 86_400) as nat,
            (nanos / 1_000_000 % 1_000) as nat,
        ));
        assert(is_rfc3339_of(text@, nanos));
    }
    text
}

} // verus!
