//! Instants and civil dates, and the one instant a decision may depend on.
//!
//! Time-dependent decisions read the head commit's committer date, never the
//! wall clock. [`DecisionTime`] makes that a property of the type: its only
//! constructor is named for that source, and nothing here reads a clock.

use vstd::prelude::*;
use vstd::arithmetic::div_mod::lemma_fundamental_div_mod_converse;
use crate::text::{decimal, push_char, push_str, push_u64};

verus! {

/// The earliest representable instant, in seconds from the Unix epoch.
pub const MIN_SECOND: i64 = -377705023201i64;

/// The latest representable instant, in seconds from the Unix epoch.
pub const MAX_SECOND: i64 = 253402207200i64;

/// An instant, as whole seconds from the Unix epoch and a sub-second part in
/// nanoseconds that carries the same sign as the seconds.
#[derive(Clone, Copy, PartialEq, Eq, Structural, Debug)]
pub struct Timestamp {
    second: i64,
    nanosecond: i32,
}

/// Whether `(second, nanosecond)` is a normalized instant in range.
pub open spec fn timestamp_parts_ok(second: i64, nanosecond: i32) -> bool {
    &&& MIN_SECOND <= second <= MAX_SECOND
    &&& -999_999_999 <= nanosecond <= 999_999_999
    &&& second > 0 ==> nanosecond >= 0
    &&& second < 0 ==> nanosecond <= 0
    &&& second == MIN_SECOND ==> nanosecond == 0
}

impl Timestamp {
    /// Every timestamp is normalized and in range.
    #[verifier::type_invariant]
    closed spec fn inv(self) -> bool {
        timestamp_parts_ok(self.second, self.nanosecond)
    }

    /// Whole seconds from the epoch.
    pub closed spec fn spec_second(self) -> i64 {
        self.second
    }

    /// The sub-second part, in nanoseconds.
    pub closed spec fn spec_nanosecond(self) -> i32 {
        self.nanosecond
    }

    /// The parts are normalized and in range.
    pub open spec fn wf(self) -> bool {
        timestamp_parts_ok(self.spec_second(), self.spec_nanosecond())
    }

    /// Nanoseconds from the epoch.
    pub open spec fn total_nanos(self) -> int {
        self.spec_second() * 1_000_000_000 + self.spec_nanosecond()
    }

    /// The Unix epoch, `1970-01-01T00:00:00Z`.
    pub fn unix_epoch() -> (t: Timestamp)
        ensures
            t.wf(),
            t.spec_second() == 0,
            t.spec_nanosecond() == 0,
    {
        Timestamp { second: 0, nanosecond: 0 }
    }

    /// The instant with these parts, when they are normalized and in range.
    pub fn from_parts(second: i64, nanosecond: i32) -> (r: Option<Timestamp>)
        ensures
            r is Some <==> timestamp_parts_ok(second, nanosecond),
            r matches Some(t) ==> t.spec_second() == second && t.spec_nanosecond() == nanosecond,
    {
        if MIN_SECOND <= second && second <= MAX_SECOND && -999_999_999 <= nanosecond && nanosecond
            <= 999_999_999 && (second <= 0 || nanosecond >= 0) && (second >= 0 || nanosecond <= 0)
            && (second != MIN_SECOND || nanosecond == 0) {
            Some(Timestamp { second, nanosecond })
        } else {
            None
        }
    }

    /// Whole seconds from the epoch.
    pub fn as_second(&self) -> (s: i64)
        ensures
            s == self.spec_second(),
    {
        self.second
    }

    /// The sub-second part, in nanoseconds, signed like the seconds.
    pub fn subsec_nanosecond(&self) -> (n: i32)
        ensures
            n == self.spec_nanosecond(),
    {
        self.nanosecond
    }
}

/// Whether `y` is a leap year in the proleptic Gregorian calendar.
pub open spec fn is_leap_year(y: int) -> bool {
    (y % 4 == 0 && y % 100 != 0) || y % 400 == 0
}

/// The number of days in month `m` of year `y`.
pub open spec fn days_in_month(y: int, m: int) -> int {
    if m == 2 {
        if is_leap_year(y) { 29 } else { 28 }
    } else if m == 4 || m == 6 || m == 9 || m == 11 {
        30
    } else {
        31
    }
}

/// Whether `(year, month, day)` names a day of the calendar this library
/// reads and writes: years `-9999..=9999`.
pub open spec fn date_parts_ok(year: i16, month: i8, day: i8) -> bool {
    &&& -9999 <= year <= 9999
    &&& 1 <= month <= 12
    &&& 1 <= day <= days_in_month(year as int, month as int)
}

/// A day of the proleptic Gregorian calendar.
#[derive(Clone, Copy, PartialEq, Eq, Structural, PartialOrd, Ord, Hash, Debug)]
pub struct CivilDate {
    year: i16,
    month: i8,
    day: i8,
}

/// Whether `a` falls strictly after `b`.
pub open spec fn date_after(a: CivilDate, b: CivilDate) -> bool {
    a.spec_year() > b.spec_year()
        || (a.spec_year() == b.spec_year() && a.spec_month() > b.spec_month())
        || (a.spec_year() == b.spec_year() && a.spec_month() == b.spec_month() && a.spec_day() > b.spec_day())
}

/// Four digits, zero-padded on the left.
pub open spec fn pad4(n: nat) -> Seq<char> {
    if n < 10 {
        "000"@ + decimal(n)
    } else if n < 100 {
        "00"@ + decimal(n)
    } else if n < 1000 {
        "0"@ + decimal(n)
    } else {
        decimal(n)
    }
}

/// Two digits, zero-padded on the left.
pub open spec fn pad2(n: nat) -> Seq<char> {
    if n < 10 {
        "0"@ + decimal(n)
    } else {
        decimal(n)
    }
}

/// The ISO 8601 rendering: `YYYY-MM-DD`, or `-00YYYY-MM-DD` before year 0.
pub open spec fn date_text(d: CivilDate) -> Seq<char> {
    let y = d.spec_year() as int;
    let year = if y < 0 { "-00"@ + pad4((-y) as nat) } else { pad4(y as nat) };
    year + seq!['-'] + pad2(d.spec_month() as nat) + seq!['-'] + pad2(d.spec_day() as nat)
}

fn push_pad(s: &mut String, n: u64, width: u64)
    requires
        width == 2 || width == 4,
        width == 2 ==> n < 100,
        width == 4 ==> n < 10000,
    ensures
        width == 2 ==> final(s)@ == old(s)@ + pad2(n as nat),
        width == 4 ==> final(s)@ == old(s)@ + pad4(n as nat),
{
    let ghost s0 = s@;
    if width == 4 && n < 1000 {
        push_char(s, '0');
    }
    if width == 4 && n < 100 {
        push_char(s, '0');
    }
    if n < 10 {
        push_char(s, '0');
    }
    push_u64(s, n);
    proof {
        reveal_strlit("000");
        reveal_strlit("00");
        reveal_strlit("0");
        if width == 4 {
            if n < 10 {
                assert(s0.push('0').push('0').push('0') + decimal(n as nat) =~= s0 + ("000"@ + decimal(n as nat)));
            } else if n < 100 {
                assert(s0.push('0').push('0') + decimal(n as nat) =~= s0 + ("00"@ + decimal(n as nat)));
            } else if n < 1000 {
                assert(s0.push('0') + decimal(n as nat) =~= s0 + ("0"@ + decimal(n as nat)));
            }
        } else {
            if n < 10 {
                assert(s0.push('0') + decimal(n as nat) =~= s0 + ("0"@ + decimal(n as nat)));
            }
        }
    }
}

impl CivilDate {
    /// Every date names a real day.
    #[verifier::type_invariant]
    closed spec fn inv(self) -> bool {
        date_parts_ok(self.year, self.month, self.day)
    }

    /// The year.
    pub closed spec fn spec_year(self) -> i16 {
        self.year
    }

    /// The month, `1..=12`.
    pub closed spec fn spec_month(self) -> i8 {
        self.month
    }

    /// The day of the month, from 1.
    pub closed spec fn spec_day(self) -> i8 {
        self.day
    }

    /// The parts name a real day.
    pub open spec fn wf(self) -> bool {
        date_parts_ok(self.spec_year(), self.spec_month(), self.spec_day())
    }

    /// The date with these parts, when they name a real day.
    pub fn new(year: i16, month: i8, day: i8) -> (r: Option<CivilDate>)
        ensures
            r is Some <==> date_parts_ok(year, month, day),
            r matches Some(d) ==> d.spec_year() == year && d.spec_month() == month && d.spec_day() == day,
    {
        if year < -9999 || year > 9999 || month < 1 || month > 12 || day < 1 {
            return None;
        }
        let leap = (year % 4 == 0 && year % 100 != 0) || year % 400 == 0;
        let last: i8 = if month == 2 {
            if leap { 29 } else { 28 }
        } else if month == 4 || month == 6 || month == 9 || month == 11 {
            30
        } else {
            31
        };
        if day > last {
            return None;
        }
        Some(CivilDate { year, month, day })
    }

    /// The year.
    pub fn year(&self) -> (y: i16)
        ensures
            y == self.spec_year(),
    {
        self.year
    }

    /// The month, `1..=12`.
    pub fn month(&self) -> (m: i8)
        ensures
            m == self.spec_month(),
    {
        self.month
    }

    /// The day of the month.
    pub fn day(&self) -> (d: i8)
        ensures
            d == self.spec_day(),
    {
        self.day
    }

    /// Whether this date falls strictly after `other`.
    pub fn is_after(&self, other: &CivilDate) -> (r: bool)
        ensures
            r == date_after(*self, *other),
    {
        self.year > other.year || (self.year == other.year && self.month > other.month) || (self.year
            == other.year && self.month == other.month && self.day > other.day)
    }

    /// The ISO 8601 rendering, `2027-01-01`.
    pub fn to_string(&self) -> (s: String)
        ensures
            s@ == date_text(*self),
    {
        proof {
            use_type_invariant(self);
        }
        let mut s = String::new();
        let y = self.year;
        if y < 0 {
            push_str(&mut s, "-00");
            let a: u64 = (0 - (y as i32)) as u64;
            push_pad(&mut s, a, 4);
        } else {
            push_pad(&mut s, y as u64, 4);
        }
        push_char(&mut s, '-');
        push_pad(&mut s, self.month as u64, 2);
        push_char(&mut s, '-');
        push_pad(&mut s, self.day as u64, 2);
        proof {
            reveal_strlit("-00");
            let year = if (y as int) < 0 { "-00"@ + pad4((-(y as int)) as nat) } else { pad4(y as nat) };
            assert(s@ =~= year + seq!['-'] + pad2(self.month as nat) + seq!['-'] + pad2(self.day as nat));
        }
        s
    }
}

/// The instant every time-dependent decision is made against: the head
/// commit's committer date. There is no way to build one from the current
/// moment, and no default.
#[derive(Clone, Copy, PartialEq, Eq, Structural, Debug)]
pub struct DecisionTime(Timestamp);

/// Days from the civil date `(y, m, d)` to 1970-01-01, in the proleptic
/// Gregorian calendar.
pub open spec fn days_from_civil(y: int, m: int, d: int) -> int {
    let yy = if m <= 2 { y - 1 } else { y };
    let era = yy / 400;
    let yoe = yy - era * 400;
    let mp = (m + 9) % 12;
    let doy = (153 * mp + 2) / 5 + d - 1;
    let doe = yoe * 365 + yoe / 4 - yoe / 100 + doy;
    era * 146097 + doe - 719468
}

/// The year that begins on March 1 and holds the given civil month: the
/// year before for January and February.
pub open spec fn march_year(y: int, m: int) -> int {
    if m <= 2 { y - 1 } else { y }
}

/// Months counted from March: March is 0, February is 11.
pub open spec fn march_month(m: int) -> int {
    (m + 9) % 12
}

/// Days from 0000-03-01 to March 1 of the March year `yy`.
pub open spec fn march_year_start(yy: int) -> int {
    let era = yy / 400;
    let yoe = yy - era * 400;
    era * 146097 + yoe * 365 + yoe / 4 - yoe / 100
}

/// Days from March 1 to the first of the month `mp` counted from March.
pub open spec fn march_month_start(mp: int) -> int {
    (153 * mp + 2) / 5
}

proof fn lemma_days_from_civil_parts(y: int, m: int, d: int)
    ensures
        days_from_civil(y, m, d) == march_year_start(march_year(y, m)) + march_month_start(march_month(m)) + d - 1
            - 719468,
{
}

proof fn lemma_march_year_start_at(era: int, yoe: int)
    requires
        0 <= yoe < 400,
    ensures
        march_year_start(era * 400 + yoe) == era * 146097 + yoe * 365 + yoe / 4 - yoe / 100,
{
    lemma_fundamental_div_mod_converse(era * 400 + yoe, 400, era, yoe);
}

proof fn lemma_leap_in_era(era: int, r: int)
    requires
        0 <= r < 400,
    ensures
        is_leap_year(era * 400 + r) == is_leap_year(r),
{
    lemma_fundamental_div_mod_converse(era * 400 + r, 4, era * 100 + r / 4, r % 4);
    lemma_fundamental_div_mod_converse(era * 400 + r, 100, era * 4 + r / 100, r % 100);
    lemma_fundamental_div_mod_converse(era * 400 + r, 400, era, r);
}

/// A March year is 366 days long when the February it ends with has 29.
proof fn lemma_march_year_length(yy: int)
    ensures
        march_year_start(yy + 1) - march_year_start(yy) == if is_leap_year(yy + 1) { 366int } else { 365int },
{
    let era = yy / 400;
    let yoe = yy % 400;
    lemma_fundamental_div_mod_converse(yy, 400, era, yoe);
    lemma_march_year_start_at(era, yoe);
    if yoe < 399 {
        lemma_march_year_start_at(era, yoe + 1);
        lemma_leap_in_era(era, yoe + 1);
        assert(yy + 1 == era * 400 + (yoe + 1));
    } else {
        lemma_march_year_start_at(era + 1, 0);
        lemma_leap_in_era(era + 1, 0);
        assert(yy + 1 == (era + 1) * 400 + 0);
    }
}

proof fn lemma_march_years_ascend(a: int, b: int)
    requires
        a < b,
    ensures
        march_year_start(a + 1) <= march_year_start(b),
    decreases b - a,
{
    if a + 1 < b {
        lemma_march_years_ascend(a + 1, b);
        lemma_march_year_length(a + 1);
    }
}

/// Where a real day falls within its March year, in days from March 1: within
/// the year, and before the first of the next month when that month is in the
/// same March year.
proof fn lemma_march_offset(y: i16, m: i8, d: i8)
    requires
        date_parts_ok(y, m, d),
    ensures
        0 <= march_month_start(march_month(m as int)) + d - 1 < march_year_start(march_year(y as int, m as int) + 1)
            - march_year_start(march_year(y as int, m as int)),
        march_month(m as int) <= 10 ==> march_month_start(march_month(m as int)) + d - 1 < march_month_start(
            march_month(m as int) + 1,
        ),
{
    lemma_march_year_length(march_year(y as int, m as int));
}

proof fn lemma_march_months_ascend(a: int, b: int)
    requires
        0 <= a < b <= 11,
    ensures
        march_month_start(a + 1) <= march_month_start(b),
{
}

/// (year, month, day) order is (March year, month from March, day) order.
proof fn lemma_march_order(y1: i16, m1: i8, d1: i8, y2: i16, m2: i8, d2: i8)
    requires
        1 <= m1 <= 12,
        1 <= m2 <= 12,
        y1 < y2 || (y1 == y2 && m1 < m2) || (y1 == y2 && m1 == m2 && d1 < d2),
    ensures
        march_year(y1 as int, m1 as int) < march_year(y2 as int, m2 as int) || (march_year(y1 as int, m1 as int)
            == march_year(y2 as int, m2 as int) && (march_month(m1 as int) < march_month(m2 as int) || (march_month(
            m1 as int,
        ) == march_month(m2 as int) && d1 < d2))),
{
}

/// A real day that comes earlier in (year, month, day) order has the smaller
/// day number.
proof fn lemma_days_ascend(y1: i16, m1: i8, d1: i8, y2: i16, m2: i8, d2: i8)
    requires
        date_parts_ok(y1, m1, d1),
        date_parts_ok(y2, m2, d2),
        y1 < y2 || (y1 == y2 && m1 < m2) || (y1 == y2 && m1 == m2 && d1 < d2),
    ensures
        days_from_civil(y1 as int, m1 as int, d1 as int) < days_from_civil(y2 as int, m2 as int, d2 as int),
{
    let yy1 = march_year(y1 as int, m1 as int);
    let yy2 = march_year(y2 as int, m2 as int);
    let mp1 = march_month(m1 as int);
    let mp2 = march_month(m2 as int);
    lemma_days_from_civil_parts(y1 as int, m1 as int, d1 as int);
    lemma_days_from_civil_parts(y2 as int, m2 as int, d2 as int);
    lemma_march_offset(y1, m1, d1);
    lemma_march_offset(y2, m2, d2);
    lemma_march_order(y1, m1, d1, y2, m2, d2);
    if yy1 < yy2 {
        lemma_march_years_ascend(yy1, yy2);
    } else if mp1 < mp2 {
        lemma_march_months_ascend(mp1, mp2);
    }
}

/// Days are ordered as the calendar orders them: one real day falls after
/// another exactly when its number of days since 1970-01-01 is larger. So
/// `date_after` is a strict total order on real days, and a waiver that
/// expires on a day is still live on that day and on every earlier one.
pub proof fn law_date_after_is_the_order_of_days(a: CivilDate, b: CivilDate)
    requires
        a.wf(),
        b.wf(),
    ensures
        date_after(a, b) <==> days_from_civil(a.spec_year() as int, a.spec_month() as int, a.spec_day() as int)
            > days_from_civil(b.spec_year() as int, b.spec_month() as int, b.spec_day() as int),
        !date_after(a, a),
        a != b ==> (date_after(a, b) || date_after(b, a)),
{
    let (ya, ma, da) = (a.spec_year(), a.spec_month(), a.spec_day());
    let (yb, mb, db) = (b.spec_year(), b.spec_month(), b.spec_day());
    if date_after(a, b) {
        lemma_days_ascend(yb, mb, db, ya, ma, da);
    } else if ya == yb && ma == mb && da == db {
    } else {
        lemma_days_ascend(ya, ma, da, yb, mb, db);
    }
}

/// Two real days with the same day number are the same day.
proof fn lemma_days_from_civil_injective(y1: i16, m1: i8, d1: i8, y2: i16, m2: i8, d2: i8)
    requires
        date_parts_ok(y1, m1, d1),
        date_parts_ok(y2, m2, d2),
        days_from_civil(y1 as int, m1 as int, d1 as int) == days_from_civil(y2 as int, m2 as int, d2 as int),
    ensures
        y1 == y2 && m1 == m2 && d1 == d2,
{
    let yy1 = march_year(y1 as int, m1 as int);
    let yy2 = march_year(y2 as int, m2 as int);
    let mp1 = march_month(m1 as int);
    let mp2 = march_month(m2 as int);
    lemma_days_from_civil_parts(y1 as int, m1 as int, d1 as int);
    lemma_days_from_civil_parts(y2 as int, m2 as int, d2 as int);
    lemma_march_year_length(yy1);
    lemma_march_year_length(yy2);
    let o1 = march_month_start(mp1) + d1 - 1;
    let o2 = march_month_start(mp2) + d2 - 1;
    assert(0 <= o1 < march_year_start(yy1 + 1) - march_year_start(yy1));
    assert(0 <= o2 < march_year_start(yy2 + 1) - march_year_start(yy2));
    if yy1 < yy2 {
        lemma_march_years_ascend(yy1, yy2);
    } else if yy2 < yy1 {
        lemma_march_years_ascend(yy2, yy1);
    }
    assert(yy1 == yy2);
    assert(o1 == o2);
    assert(mp1 == mp2);
}

/// Nanoseconds in a day.
pub open spec fn nanos_per_day() -> int {
    86_400_000_000_000
}

/// The UTC civil date of `at`.
///
/// Trusted: converts with `jiff::Timestamp::new`, `to_zoned(TimeZone::UTC)`
/// and `Zoned::date`. The contract claims that the result is a real day and
/// that it is the day the instant falls in by Unix time: the day whose number
/// since 1970-01-01 is the instant's nanoseconds divided by a day's, rounded
/// down. Only one real day has a given number, so that fixes it.
#[verifier::external_body]
fn utc_date_of(second: i64, nanosecond: i32) -> (r: (i16, i8, i8))
    requires
        timestamp_parts_ok(second, nanosecond),
    ensures
        date_parts_ok(r.0, r.1, r.2),
        days_from_civil(r.0 as int, r.1 as int, r.2 as int) == (second * 1_000_000_000 + nanosecond)
            / nanos_per_day(),
{
    let at = jiff::Timestamp::new(second, nanosecond).expect("a normalized, in-range instant");
    let date = at.to_zoned(jiff::tz::TimeZone::UTC).date();
    (date.year(), date.month(), date.day())
}

impl DecisionTime {
    /// The committer date this decision time was taken from.
    pub closed spec fn spec_at(self) -> Timestamp {
        self.0
    }

    /// The UTC civil date of this decision time: the real day whose number
    /// since 1970-01-01 is the instant's nanoseconds divided by a day's,
    /// rounded down.
    pub closed spec fn spec_utc_date(self) -> CivilDate {
        choose|d: CivilDate|
            date_parts_ok(d.year, d.month, d.day) && days_from_civil(d.year as int, d.month as int, d.day as int)
                == self.0.total_nanos() / nanos_per_day()
    }

    /// The UTC civil date of this decision time: pinned to UTC, so that a
    /// runner's zone cannot move a waiver's expiry by a day.
    pub fn utc_date(&self) -> (d: CivilDate)
        ensures
            d == self.spec_utc_date(),
            days_from_civil(d.spec_year() as int, d.spec_month() as int, d.spec_day() as int)
                == self.spec_at().total_nanos() / nanos_per_day(),
    {
        proof {
            use_type_invariant(&self.0);
        }
        let (y, m, dd) = utc_date_of(self.0.second, self.0.nanosecond);
        let d = CivilDate { year: y, month: m, day: dd };
        proof {
            let c = self.spec_utc_date();
            assert(date_parts_ok(d.year, d.month, d.day) && days_from_civil(d.year as int, d.month as int, d.day as int)
                == self.0.total_nanos() / nanos_per_day());
            lemma_days_from_civil_injective(c.year, c.month, c.day, d.year, d.month, d.day);
        }
        d
    }

    /// The decision time of an evaluation, taken from the head commit's
    /// committer date.
    pub fn from_committer_date(at: Timestamp) -> (d: DecisionTime)
        ensures
            d.spec_at() == at,
    {
        DecisionTime(at)
    }

    /// The committer date itself.
    pub fn at(&self) -> (t: Timestamp)
        ensures
            t == self.spec_at(),
    {
        self.0
    }
}

} // verus!
