//! The proleptic Gregorian calendar, as far as the library reads it, and the
//! calendar date type that the rest of the library works with.

use chrono::Datelike;
use vstd::prelude::*;

verus! {

/// The earliest year that a date of the library can have.
pub const MIN_YEAR: i32 = -262143;

/// The latest year that a date of the library can have.
pub const MAX_YEAR: i32 = 262142;

pub open spec fn is_leap_year(y: int) -> bool {
    y % 4 == 0 && (y % 100 != 0 || y % 400 == 0)
}

pub open spec fn days_in_month(y: int, m: int) -> int {
    if m == 2 {
        if is_leap_year(y) { 29 } else { 28 }
    } else if m == 4 || m == 6 || m == 9 || m == 11 {
        30
    } else {
        31
    }
}

/// Year, month and day name a day of the calendar that the library can hold.
pub open spec fn is_valid_ymd(y: int, m: int, d: int) -> bool {
    &&& MIN_YEAR <= y <= MAX_YEAR
    &&& 1 <= m <= 12
    &&& 1 <= d <= days_in_month(y, m)
}

/// Days in the years before year `y` (counting from year 1).
pub open spec fn days_before_year(y: int) -> int {
    let p = y - 1;
    365 * p + p / 4 - p / 100 + p / 400
}

/// Days in the months of year `y` before month `m`.
pub open spec fn days_before_month(y: int, m: int) -> int {
    let base: int = if m <= 1 {
        0
    } else if m == 2 {
        31
    } else if m == 3 {
        59
    } else if m == 4 {
        90
    } else if m == 5 {
        120
    } else if m == 6 {
        151
    } else if m == 7 {
        181
    } else if m == 8 {
        212
    } else if m == 9 {
        243
    } else if m == 10 {
        273
    } else if m == 11 {
        304
    } else {
        334
    };
    if m > 2 && is_leap_year(y) { base + 1 } else { base }
}

/// The number of a day: 1 January of year 1 is day 1, the day after day `n` is
/// day `n + 1`.
pub open spec fn day_number(y: int, m: int, d: int) -> int {
    days_before_year(y) + days_before_month(y, m) + d
}

/// Days since the last Monday: 0 on a Monday, 6 on a Sunday.
/// (1 January of year 1 was a Monday.)
pub open spec fn weekday_from_monday(n: int) -> int {
    (n - 1) % 7
}

pub proof fn lemma_div_step(x: int, k: int)
    requires
        k > 0,
    ensures
        (x + 1) / k - x / k == (if (x + 1) % k == 0 { 1int } else { 0int }),
{
    vstd::arithmetic::div_mod::lemma_fundamental_div_mod(x, k);
    vstd::arithmetic::div_mod::lemma_fundamental_div_mod(x + 1, k);
    vstd::arithmetic::div_mod::lemma_mod_bound(x, k);
    vstd::arithmetic::div_mod::lemma_mod_bound(x + 1, k);
    let q = (x + 1) / k - x / k;
    let r0 = x % k;
    let r1 = (x + 1) % k;
    assert(k * q == 1 - r1 + r0) by (nonlinear_arith)
        requires
            x == k * (x / k) + r0,
            x + 1 == k * ((x + 1) / k) + r1,
            q == (x + 1) / k - x / k;
    if q >= 2 {
        assert(k * q >= 2 * k) by (nonlinear_arith) requires q >= 2, k > 0;
    } else if q <= -1 {
        assert(k * q <= -k) by (nonlinear_arith) requires q <= -1, k > 0;
    }
    assert(q == 0 || q == 1);
    if q == 1 {
        assert(k * q == k) by (nonlinear_arith) requires q == 1;
    } else {
        assert(k * q == 0) by (nonlinear_arith) requires q == 0;
    }
}

proof fn lemma_divisible_chain(y: int)
    ensures
        y % 400 == 0 ==> y % 100 == 0,
        y % 100 == 0 ==> y % 4 == 0,
{
    if y % 400 == 0 {
        vstd::arithmetic::div_mod::lemma_fundamental_div_mod(y, 400);
        let q = y / 400;
        assert(y == 100 * (4 * q)) by (nonlinear_arith) requires y == 400 * q + 0;
        vstd::arithmetic::div_mod::lemma_mod_multiples_basic(4 * q, 100);
    }
    if y % 100 == 0 {
        vstd::arithmetic::div_mod::lemma_fundamental_div_mod(y, 100);
        let q = y / 100;
        assert(y == 4 * (25 * q)) by (nonlinear_arith) requires y == 100 * q + 0;
        vstd::arithmetic::div_mod::lemma_mod_multiples_basic(25 * q, 4);
    }
}

pub proof fn lemma_days_before_next_year(y: int)
    ensures
        days_before_year(y + 1) == days_before_year(y) + 365 + (if is_leap_year(y) { 1int } else { 0int }),
{
    let p = y - 1;
    lemma_div_step(p, 4);
    lemma_div_step(p, 100);
    lemma_div_step(p, 400);
    lemma_divisible_chain(y);
    assert(p + 1 == y);
    let a = (p + 1) / 4 - p / 4;
    let b = (p + 1) / 100 - p / 100;
    let c = (p + 1) / 400 - p / 400;
    assert(days_before_year(y + 1) - days_before_year(y) == 365 + a - b + c);
}

/// A day of the calendar.
#[derive(Clone, Copy, Debug, PartialEq, Eq, Structural, Hash, PartialOrd, Ord)]
pub struct Date {
    pub year: i32,
    pub month: u32,
    pub day: u32,
}

impl Date {
    /// The date names a day that exists and lies in the years the library can hold.
    pub open spec fn wf(self) -> bool {
        is_valid_ymd(self.year as int, self.month as int, self.day as int)
    }

    /// The day's number (see `day_number`).
    pub open spec fn number(self) -> int {
        day_number(self.year as int, self.month as int, self.day as int)
    }
}

/// `a` comes before `b` by year, then month, then day.
pub open spec fn ymd_before(a: Date, b: Date) -> bool {
    ||| a.year < b.year
    ||| a.year == b.year && a.month < b.month
    ||| a.year == b.year && a.month == b.month && a.day < b.day
}

pub open spec fn earliest_date() -> Date {
    Date { year: MIN_YEAR, month: 1, day: 1 }
}

pub open spec fn latest_date() -> Date {
    Date { year: MAX_YEAR, month: 12, day: 31 }
}

/// The number of the earliest day the library can hold.
pub open spec fn first_number() -> int {
    earliest_date().number()
}

/// The number of the latest day the library can hold.
pub open spec fn last_number() -> int {
    latest_date().number()
}

/// A day number that some date of the library has.
pub open spec fn number_in_range(n: int) -> bool {
    first_number() <= n <= last_number()
}

/// The date whose number is `n` (meaningful where `number_in_range(n)`).
pub open spec fn date_with_number(n: int) -> Date {
    choose|d: Date| d.wf() && d.number() == n
}

/// The day after `d`.
pub open spec fn next_day(d: Date) -> Date {
    if (d.day as int) < days_in_month(d.year as int, d.month as int) {
        Date { year: d.year, month: d.month, day: (d.day + 1) as u32 }
    } else if d.month < 12 {
        Date { year: d.year, month: (d.month + 1) as u32, day: 1 }
    } else {
        Date { year: (d.year + 1) as i32, month: 1, day: 1 }
    }
}

proof fn lemma_month_boundaries(y: int, m: int)
    requires
        1 <= m <= 12,
    ensures
        days_before_month(y, m) >= 0,
        m < 12 ==> days_before_month(y, m + 1) == days_before_month(y, m) + days_in_month(y, m),
        m == 12 ==> days_before_month(y, m) + days_in_month(y, m) == 365 + (if is_leap_year(y) { 1int } else { 0int }),
        28 <= days_in_month(y, m) <= 31,
{
}

proof fn lemma_month_order(y: int, m1: int, m2: int)
    requires
        1 <= m1 < m2 <= 12,
    ensures
        days_before_month(y, m1) + days_in_month(y, m1) <= days_before_month(y, m2),
    decreases m2 - m1,
{
    lemma_month_boundaries(y, m1);
    if m1 + 1 < m2 {
        lemma_month_order(y, m1 + 1, m2);
        lemma_month_boundaries(y, m1 + 1);
    }
}

proof fn lemma_days_before_year_monotone(y1: int, y2: int)
    requires
        y1 <= y2,
    ensures
        days_before_year(y1) <= days_before_year(y2),
        y1 < y2 ==> days_before_year(y1 + 1) <= days_before_year(y2),
    decreases y2 - y1,
{
    if y1 < y2 {
        lemma_days_before_next_year(y1);
        lemma_days_before_year_monotone(y1 + 1, y2);
    }
}

/// Numbers follow the order of the calendar.
pub proof fn lemma_number_order(a: Date, b: Date)
    requires
        a.wf(),
        b.wf(),
        ymd_before(a, b),
    ensures
        a.number() < b.number(),
{
    let (ya, ma, da) = (a.year as int, a.month as int, a.day as int);
    let (yb, mb, db) = (b.year as int, b.month as int, b.day as int);
    lemma_month_boundaries(ya, ma);
    lemma_month_boundaries(yb, mb);
    if ya < yb {
        lemma_month_order_to_end(ya, ma);
        lemma_days_before_next_year(ya);
        lemma_days_before_year_monotone(ya, yb);
    } else if ma < mb {
        lemma_month_order(ya, ma, mb);
    }
}

proof fn lemma_month_order_to_end(y: int, m: int)
    requires
        1 <= m <= 12,
    ensures
        days_before_month(y, m) + days_in_month(y, m) <= 365 + (if is_leap_year(y) { 1int } else { 0int }),
{
    lemma_month_boundaries(y, m);
    lemma_month_boundaries(y, 12);
    if m < 12 {
        lemma_month_order(y, m, 12);
    }
}

/// Two dates with one number are one date; numbers compare as the dates do.
pub proof fn lemma_number_injective(a: Date, b: Date)
    requires
        a.wf(),
        b.wf(),
    ensures
        a.number() == b.number() <==> a == b,
        a.number() < b.number() <==> ymd_before(a, b),
        a.number() <= b.number() <==> (a == b || ymd_before(a, b)),
{
    if ymd_before(a, b) {
        lemma_number_order(a, b);
    } else if ymd_before(b, a) {
        lemma_number_order(b, a);
    }
}

/// Every date of the library has a number in range.
pub proof fn lemma_number_in_range(d: Date)
    requires
        d.wf(),
    ensures
        number_in_range(d.number()),
{
    lemma_number_injective(earliest_date(), d);
    lemma_number_injective(d, latest_date());
}

/// A day of the library has a week before it in the library exactly where it
/// is not one of the first seven days of the library's first year.
pub proof fn lemma_week_before(x: Date)
    requires
        x.wf(),
    ensures
        number_in_range(x.number() - 7) <==> (x.year > MIN_YEAR || x.month > 1 || x.day >= 8),
{
    lemma_number_in_range(x);
    let y = x.year as int;
    lemma_month_boundaries(y, x.month as int);
    if x.year > MIN_YEAR {
        lemma_days_before_next_year(MIN_YEAR as int);
        lemma_days_before_year_monotone(MIN_YEAR as int, y);
    }
}

/// The day after a date is the date whose number is one more.
pub proof fn lemma_next_day(d: Date)
    requires
        d.wf(),
        d != latest_date(),
    ensures
        next_day(d).wf(),
        next_day(d).number() == d.number() + 1,
{
    lemma_month_boundaries(d.year as int, d.month as int);
    if (d.day as int) >= days_in_month(d.year as int, d.month as int) && d.month >= 12 {
        lemma_days_before_next_year(d.year as int);
    }
}

/// `date_with_number` gives back the date of every number in range.
pub proof fn lemma_date_with_number(n: int)
    requires
        number_in_range(n),
    ensures
        date_with_number(n).wf(),
        date_with_number(n).number() == n,
    decreases n - first_number(),
{
    if n == first_number() {
        assert(earliest_date().wf() && earliest_date().number() == n);
    } else {
        lemma_date_with_number(n - 1);
        let d = date_with_number(n - 1);
        if d == latest_date() {
            assert(false);
        }
        lemma_next_day(d);
        assert(next_day(d).wf() && next_day(d).number() == n);
    }
}

/// A date is the date of its number.
pub proof fn lemma_date_of_own_number(d: Date)
    requires
        d.wf(),
    ensures
        date_with_number(d.number()) == d,
{
    lemma_number_in_range(d);
    lemma_date_with_number(d.number());
    lemma_number_injective(date_with_number(d.number()), d);
}

/// The date `k` months after `d` (before it for negative `k`), on the same day
/// of the month, or on the month's last day where the month is shorter.
pub open spec fn months_later(d: Date, k: int) -> Date {
    let t = d.year * 12 + (d.month - 1) + k;
    let y = t / 12;
    let m = t % 12 + 1;
    let last = days_in_month(y, m);
    Date { year: y as i32, month: m as u32, day: if (d.day as int) <= last { d.day } else { last as u32 } }
}

/// The month `k` months after the month of `d` lies in the years the library can hold.
pub open spec fn months_later_in_range(d: Date, k: int) -> bool {
    let t = d.year * 12 + (d.month - 1) + k;
    MIN_YEAR <= t / 12 <= MAX_YEAR
}

pub proof fn lemma_months_later(d: Date, k: int)
    requires
        d.wf(),
        months_later_in_range(d, k),
    ensures
        months_later(d, k).wf(),
        months_later(d, k).year as int == (d.year * 12 + (d.month - 1) + k) / 12,
        months_later(d, k).month as int == (d.year * 12 + (d.month - 1) + k) % 12 + 1,
{
    let t = d.year * 12 + (d.month - 1) + k;
    vstd::arithmetic::div_mod::lemma_mod_bound(t, 12);
    lemma_month_boundaries(t / 12, t % 12 + 1);
}

// ---------------------------------------------------------------------------
// Calls into chrono. A date goes in and comes out by its year, month and day.

/// `chrono::NaiveDate::from_ymd_opt`: a date exactly where year, month and day
/// name a day of the proleptic Gregorian calendar within chrono's range of years
/// (which is the library's range).
#[verifier::external_body]
fn chrono_from_ymd(year: i32, month: u32, day: u32) -> (r: Option<Date>)
    ensures
        r is Some <==> is_valid_ymd(year as int, month as int, day as int),
        r matches Some(d) ==> d == (Date { year, month, day }),
{
    match chrono::NaiveDate::from_ymd_opt(year, month, day) {
        Some(n) => Some(Date { year: n.year(), month: n.month(), day: n.day() }),
        None => None,
    }
}

/// `NaiveDate::week(Weekday::Mon).checked_first_day()`: the Monday on or
/// before the date, where that is a day chrono (and the library) can hold.
#[verifier::external_body]
fn chrono_checked_week_first_day(d: Date) -> (r: Option<Date>)
    requires
        d.wf(),
    ensures
        r.is_some() == number_in_range(d.number() - weekday_from_monday(d.number())),
        r matches Some(x) ==> x.wf() && x.number() == d.number() - weekday_from_monday(d.number()),
{
    let n = chrono::NaiveDate::from_ymd_opt(d.year, d.month, d.day).unwrap();
    n.week(chrono::Weekday::Mon).checked_first_day().map(|r| Date { year: r.year(), month: r.month(), day: r.day() })
}

/// `NaiveDate::week(Weekday::Mon).checked_last_day()`: the Sunday on or after
/// the date, where that is a day chrono (and the library) can hold.
#[verifier::external_body]
fn chrono_checked_week_last_day(d: Date) -> (r: Option<Date>)
    requires
        d.wf(),
    ensures
        r.is_some() == number_in_range(d.number() - weekday_from_monday(d.number()) + 6),
        r matches Some(x) ==> x.wf() && x.number() == d.number() - weekday_from_monday(d.number()) + 6,
{
    let n = chrono::NaiveDate::from_ymd_opt(d.year, d.month, d.day).unwrap();
    n.week(chrono::Weekday::Mon).checked_last_day().map(|r| Date { year: r.year(), month: r.month(), day: r.day() })
}

/// `NaiveDate::week(Weekday::Mon).first_day()`: the Monday on or before the date.
#[verifier::external_body]
fn chrono_week_first_day(d: Date) -> (r: Date)
    requires
        d.wf(),
        number_in_range(d.number() - weekday_from_monday(d.number())),
    ensures
        r.wf(),
        r.number() == d.number() - weekday_from_monday(d.number()),
{
    let n = chrono::NaiveDate::from_ymd_opt(d.year, d.month, d.day).unwrap();
    let r = n.week(chrono::Weekday::Mon).first_day();
    Date { year: r.year(), month: r.month(), day: r.day() }
}

/// `NaiveDate::week(Weekday::Mon).last_day()`: the Sunday on or after the date.
#[verifier::external_body]
fn chrono_week_last_day(d: Date) -> (r: Date)
    requires
        d.wf(),
        number_in_range(d.number() - weekday_from_monday(d.number()) + 6),
    ensures
        r.wf(),
        r.number() == d.number() - weekday_from_monday(d.number()) + 6,
{
    let n = chrono::NaiveDate::from_ymd_opt(d.year, d.month, d.day).unwrap();
    let r = n.week(chrono::Weekday::Mon).last_day();
    Date { year: r.year(), month: r.month(), day: r.day() }
}

/// `NaiveDate - Days::new(days)`: the date `days` days earlier.
#[verifier::external_body]
fn chrono_sub_days(d: Date, days: u64) -> (r: Date)
    requires
        d.wf(),
        days <= i32::MAX,
        number_in_range(d.number() - days),
    ensures
        r.wf(),
        r.number() == d.number() - days,
{
    let n = chrono::NaiveDate::from_ymd_opt(d.year, d.month, d.day).unwrap();
    let r = n - chrono::Days::new(days);
    Date { year: r.year(), month: r.month(), day: r.day() }
}

/// `NaiveDate + TimeDelta::days(days)`: the date `days` days later (earlier for
/// negative `days`).
#[verifier::external_body]
fn chrono_add_signed_days(d: Date, days: i64) -> (r: Date)
    requires
        d.wf(),
        number_in_range(d.number() + days),
    ensures
        r.wf(),
        r.number() == d.number() + days,
{
    let n = chrono::NaiveDate::from_ymd_opt(d.year, d.month, d.day).unwrap();
    let r = n + chrono::TimeDelta::days(days);
    Date { year: r.year(), month: r.month(), day: r.day() }
}

/// `NaiveDate::with_day(1)`: the first day of the date's month.
#[verifier::external_body]
fn chrono_first_of_month(d: Date) -> (r: Date)
    requires
        d.wf(),
    ensures
        r == (Date { year: d.year, month: d.month, day: 1 }),
{
    let n = chrono::NaiveDate::from_ymd_opt(d.year, d.month, d.day).unwrap();
    let r = n.with_day(1).unwrap();
    Date { year: r.year(), month: r.month(), day: r.day() }
}

/// `NaiveDate + Months::new(months)`: `months` months later, clamped to the end
/// of a shorter month.
#[verifier::external_body]
fn chrono_add_months(d: Date, months: u32) -> (r: Date)
    requires
        d.wf(),
        months <= i32::MAX,
        months_later_in_range(d, months as int),
    ensures
        r == months_later(d, months as int),
{
    let n = chrono::NaiveDate::from_ymd_opt(d.year, d.month, d.day).unwrap();
    let r = n + chrono::Months::new(months);
    Date { year: r.year(), month: r.month(), day: r.day() }
}

/// `NaiveDate - Months::new(months)`: `months` months earlier, clamped to the
/// end of a shorter month.
#[verifier::external_body]
fn chrono_sub_months(d: Date, months: u32) -> (r: Date)
    requires
        d.wf(),
        months <= i32::MAX,
        months_later_in_range(d, -(months as int)),
    ensures
        r == months_later(d, -(months as int)),
{
    let n = chrono::NaiveDate::from_ymd_opt(d.year, d.month, d.day).unwrap();
    let r = n - chrono::Months::new(months);
    Date { year: r.year(), month: r.month(), day: r.day() }
}

impl Date {
    /// The date of the given year, month and day, where that day exists in the
    /// years the library can hold.
    pub fn from_ymd(year: i32, month: u32, day: u32) -> (r: Option<Date>)
        ensures
            r is Some <==> is_valid_ymd(year as int, month as int, day as int),
            r matches Some(d) ==> d == (Date { year, month, day }),
    {
        chrono_from_ymd(year, month, day)
    }

    /// The Monday on or before this date.
    pub fn monday_of_week(self) -> (r: Date)
        requires
            self.wf(),
            number_in_range(self.number() - weekday_from_monday(self.number())),
        ensures
            r.wf(),
            r.number() == self.number() - weekday_from_monday(self.number()),
    {
        chrono_week_first_day(self)
    }

    /// The Sunday on or after this date.
    pub fn sunday_of_week(self) -> (r: Date)
        requires
            self.wf(),
            number_in_range(self.number() - weekday_from_monday(self.number()) + 6),
        ensures
            r.wf(),
            r.number() == self.number() - weekday_from_monday(self.number()) + 6,
    {
        chrono_week_last_day(self)
    }

    /// The date `days` days earlier.
    pub fn minus_days(self, days: u64) -> (r: Date)
        requires
            self.wf(),
            number_in_range(self.number() - days),
        ensures
            r.wf(),
            r.number() == self.number() - days,
    {
        proof {
            lemma_number_in_range(self);
        }
        chrono_sub_days(self, days)
    }

    /// The date `days` days later (earlier for negative `days`).
    pub fn plus_days(self, days: i64) -> (r: Date)
        requires
            self.wf(),
            number_in_range(self.number() + days),
        ensures
            r.wf(),
            r.number() == self.number() + days,
    {
        chrono_add_signed_days(self, days)
    }

    /// The first day of this date's month.
    pub fn first_of_month(self) -> (r: Date)
        requires
            self.wf(),
        ensures
            r == (Date { year: self.year, month: self.month, day: 1 }),
            r.wf(),
    {
        chrono_first_of_month(self)
    }

    /// The date `months` months later, on the last day of the month where the
    /// month is shorter.
    pub fn plus_months(self, months: u32) -> (r: Date)
        requires
            self.wf(),
            months_later_in_range(self, months as int),
        ensures
            r == months_later(self, months as int),
            r.wf(),
    {
        proof {
            lemma_months_later(self, months as int);
            lemma_months_bound(self, months as int);
        }
        chrono_add_months(self, months)
    }

    /// The date `months` months earlier, on the last day of the month where the
    /// month is shorter.
    pub fn minus_months(self, months: u32) -> (r: Date)
        requires
            self.wf(),
            months_later_in_range(self, -(months as int)),
        ensures
            r == months_later(self, -(months as int)),
            r.wf(),
    {
        proof {
            lemma_months_later(self, -(months as int));
            lemma_months_bound(self, -(months as int));
        }
        chrono_sub_months(self, months)
    }

    /// The Monday on or before this date, where the library holds it.
    pub fn checked_monday_of_week(self) -> (r: Option<Date>)
        requires
            self.wf(),
        ensures
            r.is_some() == number_in_range(self.number() - weekday_from_monday(self.number())),
            r matches Some(x) ==> x.wf() && x.number() == self.number() - weekday_from_monday(
                self.number(),
            ),
    {
        chrono_checked_week_first_day(self)
    }

    /// The Sunday on or after this date, where the library holds it.
    pub fn checked_sunday_of_week(self) -> (r: Option<Date>)
        requires
            self.wf(),
        ensures
            r.is_some() == number_in_range(self.number() - weekday_from_monday(self.number()) + 6),
            r matches Some(x) ==> x.wf() && x.number() == self.number() - weekday_from_monday(
                self.number(),
            ) + 6,
    {
        chrono_checked_week_last_day(self)
    }

    /// This date is on or before `other`.
    pub fn on_or_before(&self, other: &Date) -> (r: bool)
        requires
            self.wf(),
            other.wf(),
        ensures
            r == (self.number() <= other.number()),
    {
        proof {
            lemma_number_injective(*self, *other);
        }
        if self.year != other.year {
            self.year < other.year
        } else if self.month != other.month {
            self.month < other.month
        } else {
            self.day <= other.day
        }
    }
}

/// A month shift that stays within the library's years moves by fewer than
/// 2^31 months.
proof fn lemma_months_bound(d: Date, k: int)
    requires
        d.wf(),
        months_later_in_range(d, k),
    ensures
        -0x7fff_ffff <= k <= 0x7fff_ffff,
{
    let t = d.year * 12 + (d.month - 1) + k;
    vstd::arithmetic::div_mod::lemma_fundamental_div_mod(t, 12);
    vstd::arithmetic::div_mod::lemma_mod_bound(t, 12);
}

/// 1 January 1970.
impl Default for Date {
    fn default() -> (r: Date)
        ensures
            r == (Date { year: 1970, month: 1, day: 1 }),
    {
        Date { year: 1970, month: 1, day: 1 }
    }
}

} // verus!
