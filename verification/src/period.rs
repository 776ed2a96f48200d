//! Reporting periods and the date ranges they cover.

use crate::calendar::{
    date_with_number, days_in_month, first_number, is_valid_ymd, last_number, lemma_date_of_own_number,
    lemma_date_with_number, lemma_months_later, lemma_next_day, lemma_number_in_range,
    lemma_number_injective, months_later, months_later_in_range, next_day, number_in_range,
    weekday_from_monday, ymd_before, Date, MAX_YEAR, MIN_YEAR,
};
use crate::text::{decimal_digits, digit_char, push_char, zero_padded};
use vstd::prelude::*;

verus! {

/// The length of a reporting period.
#[derive(Clone, Copy, Debug, PartialEq, Eq, Structural)]
pub enum TimePeriod {
    Weekly,
    Fortnightly,
    Monthly,
    Yearly,
}

/// The days from `start` to `end`, both included.
#[derive(Clone, Copy, Debug, PartialEq, Eq, Structural)]
pub struct DateRange {
    pub start: Date,
    pub end: Date,
}

/// The number of the Monday that begins the week of `t`.
pub open spec fn week_start_number(t: Date) -> int {
    t.number() - weekday_from_monday(t.number())
}

/// The days from `first` to the day before the same day one month later.
pub open spec fn month_range(first: Date) -> DateRange {
    DateRange { start: first, end: date_with_number(months_later(first, 1).number() - 1) }
}

/// 1 January to 31 December of year `y`.
pub open spec fn year_range(y: int) -> DateRange {
    DateRange {
        start: Date { year: y as i32, month: 1, day: 1 },
        end: Date { year: y as i32, month: 12, day: 31 },
    }
}

/// The range of the given period that contains `t`: its week (Monday to
/// Sunday), its week and the week before, its month, or its year.
pub open spec fn range_containing_spec(p: TimePeriod, t: Date) -> DateRange {
    match p {
        TimePeriod::Weekly => DateRange {
            start: date_with_number(week_start_number(t)),
            end: date_with_number(week_start_number(t) + 6),
        },
        TimePeriod::Fortnightly => DateRange {
            start: date_with_number(week_start_number(t) - 7),
            end: date_with_number(week_start_number(t) + 6),
        },
        TimePeriod::Monthly => month_range(Date { year: t.year, month: t.month, day: 1 }),
        TimePeriod::Yearly => year_range(t.year as int),
    }
}

/// The days of `range_containing_spec(p, t)` lie in the years the library can hold.
pub open spec fn range_containing_defined(p: TimePeriod, t: Date) -> bool {
    &&& t.wf()
    &&& match p {
        TimePeriod::Weekly => number_in_range(week_start_number(t)) && number_in_range(
            week_start_number(t) + 6,
        ),
        TimePeriod::Fortnightly => number_in_range(week_start_number(t) - 7) && number_in_range(
            week_start_number(t) + 6,
        ),
        TimePeriod::Monthly => months_later_in_range(
            Date { year: t.year, month: t.month, day: 1 },
            1,
        ),
        TimePeriod::Yearly => true,
    }
}

/// `r` moved by `n` periods: by `7 * n` or `14 * n` days; to the month range
/// that starts `n` months after `r.start`; or to the year `n` years after
/// the year of `r.start`.
pub open spec fn shift_spec(r: DateRange, p: TimePeriod, n: int) -> DateRange {
    match p {
        TimePeriod::Weekly => DateRange {
            start: date_with_number(r.start.number() + 7 * n),
            end: date_with_number(r.end.number() + 7 * n),
        },
        TimePeriod::Fortnightly => DateRange {
            start: date_with_number(r.start.number() + 14 * n),
            end: date_with_number(r.end.number() + 14 * n),
        },
        TimePeriod::Monthly => month_range(months_later(r.start, n)),
        TimePeriod::Yearly => year_range(r.start.year + n),
    }
}

/// The days of `shift_spec(r, p, n)` lie in the years the library can hold.
pub open spec fn shift_defined(r: DateRange, p: TimePeriod, n: int) -> bool {
    &&& r.start.wf()
    &&& r.end.wf()
    &&& match p {
        TimePeriod::Weekly => r.start.number() <= r.end.number() && number_in_range(
            r.start.number() + 7 * n,
        ) && number_in_range(r.end.number() + 7 * n),
        TimePeriod::Fortnightly => r.start.number() <= r.end.number() && number_in_range(
            r.start.number() + 14 * n,
        ) && number_in_range(r.end.number() + 14 * n),
        TimePeriod::Monthly => months_later_in_range(r.start, n) && months_later_in_range(
            months_later(r.start, n),
            1,
        ),
        TimePeriod::Yearly => MIN_YEAR <= r.start.year + n <= MAX_YEAR,
    }
}

impl DateRange {
    /// Both ends are dates of the library and the range does not end before it starts.
    pub open spec fn wf(self) -> bool {
        &&& self.start.wf()
        &&& self.end.wf()
        &&& self.start.number() <= self.end.number()
    }

    pub fn new(start: Date, end: Date) -> (r: DateRange)
        requires
            start.wf(),
            end.wf(),
            start.number() <= end.number(),
        ensures
            r == (DateRange { start, end }),
            r.wf(),
    {
        DateRange { start, end }
    }

    /// The days from `first` to the day before the same day one month later.
    fn month_starting(first: Date) -> (r: DateRange)
        requires
            first.wf(),
            months_later_in_range(first, 1),
        ensures
            r == month_range(first),
            r.wf(),
    {
        let next = first.plus_months(1);
        proof {
            lemma_month_later_is_after(first);
            lemma_number_injective(first, next);
            lemma_number_in_range(first);
        }
        let end = next.minus_days(1);
        proof {
            lemma_date_of_own_number(end);
        }
        DateRange::new(first, end)
    }

    /// 1 January to 31 December of `year`.
    fn year_of(year: i32) -> (r: DateRange)
        requires
            MIN_YEAR <= year <= MAX_YEAR,
        ensures
            r == year_range(year as int),
            r.wf(),
    {
        let start = Date::from_ymd(year, 1, 1);
        let end = Date::from_ymd(year, 12, 31);
        let start = start.unwrap();
        let end = end.unwrap();
        proof {
            lemma_number_injective(start, end);
        }
        DateRange::new(start, end)
    }

    /// Both ends moved by `days` days.
    fn shift_days(self, days: i64) -> (r: DateRange)
        requires
            self.wf(),
            number_in_range(self.start.number() + days),
            number_in_range(self.end.number() + days),
        ensures
            r.start.number() == self.start.number() + days,
            r.end.number() == self.end.number() + days,
            r.wf(),
    {
        let start = self.start.plus_days(days);
        let end = self.end.plus_days(days);
        DateRange::new(start, end)
    }

    /// The range `n` periods later (earlier for negative `n`).
    pub fn shift(self, period: TimePeriod, n: i32) -> (r: DateRange)
        requires
            shift_defined(self, period, n as int),
        ensures
            r == shift_spec(self, period, n as int),
            r.wf(),
    {
        match period {
            TimePeriod::Weekly => {
                let r = self.shift_days(7 * (n as i64));
                proof {
                    lemma_date_of_own_number(r.start);
                    lemma_date_of_own_number(r.end);
                }
                r
            },
            TimePeriod::Fortnightly => {
                let r = self.shift_days(14 * (n as i64));
                proof {
                    lemma_date_of_own_number(r.start);
                    lemma_date_of_own_number(r.end);
                }
                r
            },
            TimePeriod::Monthly => DateRange::month_starting(shift_months(self.start, n)),
            TimePeriod::Yearly => DateRange::year_of(self.start.year + n),
        }
    }

    /// The range one period later.
    pub fn next(self, period: TimePeriod) -> (r: DateRange)
        requires
            shift_defined(self, period, 1),
        ensures
            r == shift_spec(self, period, 1),
            r.wf(),
    {
        self.shift(period, 1)
    }

    /// The range one period earlier.
    pub fn prev(self, period: TimePeriod) -> (r: DateRange)
        requires
            shift_defined(self, period, -1),
        ensures
            r == shift_spec(self, period, -1),
            r.wf(),
    {
        self.shift(period, -1)
    }

    /// `date` lies between the two ends, both included.
    pub fn contains(&self, date: Date) -> (r: bool)
        requires
            self.start.wf(),
            self.end.wf(),
            date.wf(),
        ensures
            r == (self.start.number() <= date.number() && date.number() <= self.end.number()),
    {
        self.start.on_or_before(&date) && date.on_or_before(&self.end)
    }
}

/// The date `n` months after `date` (before it for negative `n`).
fn shift_months(date: Date, n: i32) -> (r: Date)
    requires
        date.wf(),
        months_later_in_range(date, n as int),
    ensures
        r == months_later(date, n as int),
        r.wf(),
{
    let months: u32 = if n >= 0 { n as u32 } else if n == i32::MIN { 0x8000_0000u32 } else { (-n) as u32 };
    if n >= 0 {
        date.plus_months(months)
    } else {
        proof {
            lemma_months_later_far(date, n as int);
        }
        date.minus_months(months)
    }
}

/// One month after a date is a later date.
proof fn lemma_month_later_is_after(d: Date)
    requires
        d.wf(),
        months_later_in_range(d, 1),
    ensures
        ymd_before(d, months_later(d, 1)),
        months_later(d, 1).wf(),
{
    lemma_months_later(d, 1);
    let t = d.year * 12 + (d.month - 1) + 1;
    if d.month < 12 {
        vstd::arithmetic::div_mod::lemma_fundamental_div_mod_converse(t, 12, d.year as int, d.month as int);
    } else {
        vstd::arithmetic::div_mod::lemma_fundamental_div_mod_converse(t, 12, d.year + 1, 0);
    }
}

/// No month shift that stays in range reaches `i32::MIN` months.
proof fn lemma_months_later_far(d: Date, k: int)
    requires
        d.wf(),
        months_later_in_range(d, k),
    ensures
        k > i32::MIN,
{
    let t = d.year * 12 + (d.month - 1) + k;
    vstd::arithmetic::div_mod::lemma_fundamental_div_mod(t, 12);
    vstd::arithmetic::div_mod::lemma_mod_bound(t, 12);
}

impl TimePeriod {
    /// The range of this period that contains `today`.
    pub fn range_containing(self, today: Date) -> (r: DateRange)
        requires
            range_containing_defined(self, today),
        ensures
            r == range_containing_spec(self, today),
            r.wf(),
    {
        match self {
            TimePeriod::Weekly => {
                let first = today.monday_of_week();
                let last = today.sunday_of_week();
                proof {
                    lemma_date_of_own_number(first);
                    lemma_date_of_own_number(last);
                }
                DateRange::new(first, last)
            },
            TimePeriod::Fortnightly => {
                let first = today.monday_of_week();
                let first = first.minus_days(7);
                let last = today.sunday_of_week();
                proof {
                    lemma_date_of_own_number(first);
                    lemma_date_of_own_number(last);
                }
                DateRange::new(first, last)
            },
            TimePeriod::Monthly => {
                let first = today.first_of_month();
                DateRange::month_starting(first)
            },
            TimePeriod::Yearly => DateRange::year_of(today.year),
        }
    }
}

impl TimePeriod {
    /// Whether the period has a range around `today` whose days the library
    /// can hold (`range_containing_defined`), so that `range_containing` can
    /// be called.
    pub fn has_range_around(self, today: Date) -> (r: bool)
        requires
            today.wf(),
        ensures
            r == range_containing_defined(self, today),
    {
        proof {
            lemma_number_in_range(today);
        }
        match self {
            TimePeriod::Weekly => today.checked_monday_of_week().is_some()
                && today.checked_sunday_of_week().is_some(),
            TimePeriod::Fortnightly => match today.checked_monday_of_week() {
                None => false,
                Some(m) => {
                    proof {
                        crate::calendar::lemma_week_before(m);
                    }
                    (m.year > MIN_YEAR || m.month > 1 || m.day >= 8)
                        && today.checked_sunday_of_week().is_some()
                },
            },
            TimePeriod::Monthly => today.year < MAX_YEAR || today.month < 12,
            TimePeriod::Yearly => true,
        }
    }
}

/// The month range from the first of a month runs to that month's last day.
pub proof fn lemma_whole_month(first: Date)
    requires
        first.wf(),
        first.day == 1,
        months_later_in_range(first, 1),
    ensures
        month_range(first) == (DateRange {
            start: first,
            end: Date {
                year: first.year,
                month: first.month,
                day: days_in_month(first.year as int, first.month as int) as u32,
            },
        }),
        months_later(first, 1) == next_day(month_range(first).end),
{
    let last = Date {
        year: first.year,
        month: first.month,
        day: days_in_month(first.year as int, first.month as int) as u32,
    };
    lemma_months_later(first, 1);
    let t = first.year * 12 + (first.month - 1) + 1;
    if first.month < 12 {
        vstd::arithmetic::div_mod::lemma_fundamental_div_mod_converse(t, 12, first.year as int, first.month as int);
    } else {
        vstd::arithmetic::div_mod::lemma_fundamental_div_mod_converse(t, 12, first.year + 1, 0);
    }
    assert(next_day(last) == months_later(first, 1));
    lemma_next_day(last);
    lemma_date_of_own_number(last);
}

/// The range of a period that contains a day does contain it.
pub proof fn law_range_contains_its_day(p: TimePeriod, t: Date)
    requires
        range_containing_defined(p, t),
    ensures
        range_containing_spec(p, t).start.number() <= t.number(),
        t.number() <= range_containing_spec(p, t).end.number(),
        range_containing_spec(p, t).wf(),
{
    lemma_range_shape(p, t);
    let r = range_containing_spec(p, t);
    match p {
        TimePeriod::Monthly => {
            lemma_number_injective(r.start, t);
            lemma_number_injective(t, r.end);
        },
        TimePeriod::Yearly => {
            lemma_number_injective(r.start, t);
            lemma_number_injective(t, r.end);
        },
        _ => {},
    }
}

/// What each period's range looks like: a week runs Monday to Sunday; a
/// fortnight is the week before and the week itself; a month runs from its
/// first to its last day; a year from 1 January to 31 December.
pub proof fn lemma_range_shape(p: TimePeriod, t: Date)
    requires
        range_containing_defined(p, t),
    ensures
        range_containing_spec(p, t).wf(),
        p == TimePeriod::Weekly ==> {
            &&& weekday_from_monday(range_containing_spec(p, t).start.number()) == 0
            &&& range_containing_spec(p, t).start.number() == week_start_number(t)
            &&& range_containing_spec(p, t).end.number() == week_start_number(t) + 6
            &&& week_start_number(t) <= t.number() <= week_start_number(t) + 6
        },
        p == TimePeriod::Fortnightly ==> {
            &&& weekday_from_monday(range_containing_spec(p, t).start.number()) == 0
            &&& range_containing_spec(p, t).start.number() == week_start_number(t) - 7
            &&& range_containing_spec(p, t).end.number() == week_start_number(t) + 6
            &&& week_start_number(t) <= t.number() <= week_start_number(t) + 6
        },
        p == TimePeriod::Monthly ==> range_containing_spec(p, t) == (DateRange {
            start: Date { year: t.year, month: t.month, day: 1 },
            end: Date {
                year: t.year,
                month: t.month,
                day: days_in_month(t.year as int, t.month as int) as u32,
            },
        }),
        p == TimePeriod::Yearly ==> range_containing_spec(p, t) == year_range(t.year as int),
{
    let n = t.number();
    let w = week_start_number(t);
    vstd::arithmetic::div_mod::lemma_fundamental_div_mod(n - 1, 7);
    vstd::arithmetic::div_mod::lemma_mod_bound(n - 1, 7);
    match p {
        TimePeriod::Weekly => {
            lemma_date_with_number(w);
            lemma_date_with_number(w + 6);
            vstd::arithmetic::div_mod::lemma_fundamental_div_mod_converse(w - 1, 7, (n - 1) / 7, 0);
        },
        TimePeriod::Fortnightly => {
            lemma_date_with_number(w - 7);
            lemma_date_with_number(w + 6);
            vstd::arithmetic::div_mod::lemma_fundamental_div_mod_converse(w - 8, 7, (n - 1) / 7 - 1, 0);
        },
        TimePeriod::Monthly => {
            let first = Date { year: t.year, month: t.month, day: 1 };
            lemma_whole_month(first);
            let last = month_range(first).end;
            lemma_number_injective(first, last);
        },
        TimePeriod::Yearly => {
            let r = year_range(t.year as int);
            lemma_number_injective(r.start, r.end);
        },
    }
}

/// Consecutive ranges meet: the range after the one that contains a day starts
/// the day after it ends.
pub proof fn law_next_range_is_adjacent(p: TimePeriod, t: Date)
    requires
        range_containing_defined(p, t),
        shift_defined(range_containing_spec(p, t), p, 1),
    ensures
        shift_spec(range_containing_spec(p, t), p, 1).start.number()
            == range_containing_spec(p, t).end.number() + 1,
{
    lemma_range_shape(p, t);
    let r = range_containing_spec(p, t);
    match p {
        TimePeriod::Weekly => {
            lemma_date_with_number(r.start.number() + 7);
        },
        TimePeriod::Fortnightly => {
            lemma_date_with_number(r.start.number() + 14);
        },
        TimePeriod::Monthly => {
            let first = Date { year: t.year, month: t.month, day: 1 };
            lemma_whole_month(first);
            lemma_next_day(r.end);
        },
        TimePeriod::Yearly => {
            let last = Date { year: t.year, month: 12, day: 31 };
            assert(next_day(last) == (Date { year: (t.year + 1) as i32, month: 1, day: 1 }));
            lemma_next_day(last);
        },
    }
}

/// Moving the range of a day `n` periods on and then `n` periods back gives
/// the range back.
pub proof fn law_shift_is_reversible(p: TimePeriod, t: Date, n: int)
    requires
        range_containing_defined(p, t),
        shift_defined(range_containing_spec(p, t), p, n),
        shift_defined(shift_spec(range_containing_spec(p, t), p, n), p, -n),
    ensures
        shift_spec(shift_spec(range_containing_spec(p, t), p, n), p, -n)
            == range_containing_spec(p, t),
{
    lemma_range_shape(p, t);
    let r = range_containing_spec(p, t);
    let s = shift_spec(r, p, n);
    match p {
        TimePeriod::Weekly => {
            lemma_date_with_number(r.start.number() + 7 * n);
            lemma_date_with_number(r.end.number() + 7 * n);
            lemma_date_of_own_number(r.start);
            lemma_date_of_own_number(r.end);
        },
        TimePeriod::Fortnightly => {
            lemma_date_with_number(r.start.number() + 14 * n);
            lemma_date_with_number(r.end.number() + 14 * n);
            lemma_date_of_own_number(r.start);
            lemma_date_of_own_number(r.end);
        },
        TimePeriod::Monthly => {
            let first = r.start;
            let g = months_later(first, n);
            lemma_months_later(first, n);
            let tf = first.year * 12 + (first.month - 1);
            vstd::arithmetic::div_mod::lemma_fundamental_div_mod(tf + n, 12);
            assert(g.year * 12 + (g.month - 1) == tf + n);
            vstd::arithmetic::div_mod::lemma_fundamental_div_mod_converse(
                tf,
                12,
                first.year as int,
                first.month - 1,
            );
            assert(months_later(g, -n) == first);
        },
        TimePeriod::Yearly => {},
    }
}

/// A month range moved by whole months: `n` months after the first of a month
/// is the first of the month `n` months later, counting months from year 0.
proof fn lemma_first_of_month_later(first: Date, n: int)
    requires
        first.wf(),
        first.day == 1,
        months_later_in_range(first, n),
    ensures
        months_later(first, n).day == 1,
        months_later(first, n).wf(),
        months_later(first, n).year * 12 + (months_later(first, n).month - 1) == first.year * 12
            + (first.month - 1) + n,
{
    lemma_months_later(first, n);
    let t = first.year * 12 + (first.month - 1) + n;
    vstd::arithmetic::div_mod::lemma_fundamental_div_mod(t, 12);
}

/// Moving a range by no periods leaves it as it is.
pub proof fn law_shift_by_zero(p: TimePeriod, t: Date)
    requires
        range_containing_defined(p, t),
    ensures
        shift_defined(range_containing_spec(p, t), p, 0),
        shift_spec(range_containing_spec(p, t), p, 0) == range_containing_spec(p, t),
{
    lemma_range_shape(p, t);
    let r = range_containing_spec(p, t);
    lemma_number_in_range(r.start);
    lemma_number_in_range(r.end);
    lemma_date_of_own_number(r.start);
    lemma_date_of_own_number(r.end);
    match p {
        TimePeriod::Monthly => {
            let first = r.start;
            lemma_first_of_month_later(first, 0);
            let tf = first.year * 12 + (first.month - 1);
            vstd::arithmetic::div_mod::lemma_fundamental_div_mod_converse(
                tf,
                12,
                first.year as int,
                first.month - 1,
            );
            assert(months_later(first, 0) == first);
            lemma_whole_month(first);
        },
        _ => {},
    }
}

/// Moving a range by `a` periods and then by `b` is moving it by `a + b`.
pub proof fn law_shifts_compose(p: TimePeriod, t: Date, a: int, b: int)
    requires
        range_containing_defined(p, t),
        shift_defined(range_containing_spec(p, t), p, a),
        shift_defined(shift_spec(range_containing_spec(p, t), p, a), p, b),
        shift_defined(range_containing_spec(p, t), p, a + b),
    ensures
        shift_spec(shift_spec(range_containing_spec(p, t), p, a), p, b) == shift_spec(
            range_containing_spec(p, t),
            p,
            a + b,
        ),
{
    lemma_range_shape(p, t);
    let r = range_containing_spec(p, t);
    match p {
        TimePeriod::Weekly => {
            lemma_date_with_number(r.start.number() + 7 * a);
            lemma_date_with_number(r.end.number() + 7 * a);
            assert(r.start.number() + 7 * a + 7 * b == r.start.number() + 7 * (a + b));
            assert(r.end.number() + 7 * a + 7 * b == r.end.number() + 7 * (a + b));
        },
        TimePeriod::Fortnightly => {
            lemma_date_with_number(r.start.number() + 14 * a);
            lemma_date_with_number(r.end.number() + 14 * a);
            assert(r.start.number() + 14 * a + 14 * b == r.start.number() + 14 * (a + b));
            assert(r.end.number() + 14 * a + 14 * b == r.end.number() + 14 * (a + b));
        },
        TimePeriod::Monthly => {
            let first = r.start;
            let g = months_later(first, a);
            lemma_first_of_month_later(first, a);
            lemma_first_of_month_later(g, b);
            lemma_first_of_month_later(first, a + b);
            let h1 = months_later(g, b);
            let h2 = months_later(first, a + b);
            let u = h1.year * 12 + (h1.month - 1);
            vstd::arithmetic::div_mod::lemma_fundamental_div_mod_converse(
                u,
                12,
                h1.year as int,
                h1.month - 1,
            );
            vstd::arithmetic::div_mod::lemma_fundamental_div_mod_converse(
                u,
                12,
                h2.year as int,
                h2.month - 1,
            );
            assert(h1 == h2);
        },
        TimePeriod::Yearly => {},
    }
}

/// Weekly and fortnightly ranges keep their length when they move.
pub proof fn law_shift_keeps_length(p: TimePeriod, t: Date, n: int)
    requires
        p == TimePeriod::Weekly || p == TimePeriod::Fortnightly,
        range_containing_defined(p, t),
        shift_defined(range_containing_spec(p, t), p, n),
    ensures
        shift_spec(range_containing_spec(p, t), p, n).end.number() - shift_spec(
            range_containing_spec(p, t),
            p,
            n,
        ).start.number() == range_containing_spec(p, t).end.number() - range_containing_spec(
            p,
            t,
        ).start.number(),
{
    lemma_range_shape(p, t);
    let r = range_containing_spec(p, t);
    if p == TimePeriod::Weekly {
        lemma_date_with_number(r.start.number() + 7 * n);
        lemma_date_with_number(r.end.number() + 7 * n);
    } else {
        lemma_date_with_number(r.start.number() + 14 * n);
        lemma_date_with_number(r.end.number() + 14 * n);
    }
}

/// The week, month or year after the one that contains a day is the one that
/// contains the day after it ends. (Not so for fortnights: the range of that
/// day is its week and the week before, which overlaps.)
pub proof fn law_next_is_range_of_following_day(p: TimePeriod, t: Date)
    requires
        p != TimePeriod::Fortnightly,
        range_containing_defined(p, t),
        shift_defined(range_containing_spec(p, t), p, 1),
    ensures
        range_containing_defined(
            p,
            date_with_number(range_containing_spec(p, t).end.number() + 1),
        ),
        shift_spec(range_containing_spec(p, t), p, 1) == range_containing_spec(
            p,
            date_with_number(range_containing_spec(p, t).end.number() + 1),
        ),
{
    lemma_range_shape(p, t);
    law_next_range_is_adjacent(p, t);
    let r = range_containing_spec(p, t);
    let s = shift_spec(r, p, 1);
    let u = date_with_number(r.end.number() + 1);
    match p {
        TimePeriod::Weekly => {
            let w = r.start.number();
            lemma_date_with_number(w + 7);
            lemma_date_with_number(r.end.number() + 7);
            assert(u == s.start);
            vstd::arithmetic::div_mod::lemma_fundamental_div_mod(w - 1, 7);
            vstd::arithmetic::div_mod::lemma_fundamental_div_mod_converse(w + 6, 7, (w - 1) / 7 + 1, 0);
            assert(week_start_number(u) == w + 7);
        },
        TimePeriod::Monthly => {
            let first = r.start;
            lemma_first_of_month_later(first, 1);
            let g = months_later(first, 1);
            lemma_whole_month(first);
            lemma_next_day(r.end);
            lemma_date_of_own_number(g);
            assert(u == g);
            assert(g == (Date { year: g.year, month: g.month, day: 1 }));
        },
        TimePeriod::Yearly => {
            let last = Date { year: t.year, month: 12, day: 31 };
            assert(next_day(last) == (Date { year: (t.year + 1) as i32, month: 1, day: 1 }));
            lemma_next_day(last);
            lemma_date_of_own_number(next_day(last));
            assert(u == next_day(last));
        },
        TimePeriod::Fortnightly => {},
    }
}

/// Every day of a week, month or year has that same week, month or year as its
/// range. (A fortnight is no such partition: it is the week of the day and the
/// week before.)
pub proof fn law_ranges_partition_days(p: TimePeriod, t: Date, u: Date)
    requires
        p != TimePeriod::Fortnightly,
        range_containing_defined(p, t),
        u.wf(),
        range_containing_spec(p, t).start.number() <= u.number(),
        u.number() <= range_containing_spec(p, t).end.number(),
    ensures
        range_containing_defined(p, u),
        range_containing_spec(p, u) == range_containing_spec(p, t),
{
    lemma_range_shape(p, t);
    let r = range_containing_spec(p, t);
    match p {
        TimePeriod::Weekly => {
            let w = week_start_number(t);
            let k = u.number() - w;
            vstd::arithmetic::div_mod::lemma_fundamental_div_mod(t.number() - 1, 7);
            vstd::arithmetic::div_mod::lemma_mod_bound(t.number() - 1, 7);
            vstd::arithmetic::div_mod::lemma_fundamental_div_mod_converse(
                u.number() - 1,
                7,
                (t.number() - 1) / 7,
                k,
            );
            assert(week_start_number(u) == w);
        },
        TimePeriod::Monthly => {
            lemma_number_injective(r.start, u);
            lemma_number_injective(u, r.end);
            assert(u.year == t.year && u.month == t.month);
        },
        TimePeriod::Yearly => {
            lemma_number_injective(r.start, u);
            lemma_number_injective(u, r.end);
        },
        TimePeriod::Fortnightly => {},
    }
}

/// The English abbreviation of month `m`.
pub open spec fn short_month_name(m: int) -> Seq<char> {
    if m == 1 {
        seq!['J', 'a', 'n']
    } else if m == 2 {
        seq!['F', 'e', 'b']
    } else if m == 3 {
        seq!['M', 'a', 'r']
    } else if m == 4 {
        seq!['A', 'p', 'r']
    } else if m == 5 {
        seq!['M', 'a', 'y']
    } else if m == 6 {
        seq!['J', 'u', 'n']
    } else if m == 7 {
        seq!['J', 'u', 'l']
    } else if m == 8 {
        seq!['A', 'u', 'g']
    } else if m == 9 {
        seq!['S', 'e', 'p']
    } else if m == 10 {
        seq!['O', 'c', 't']
    } else if m == 11 {
        seq!['N', 'o', 'v']
    } else {
        seq!['D', 'e', 'c']
    }
}

/// A year as four digits at least; outside 0 to 9999 with its sign in front.
pub open spec fn year_text(y: int) -> Seq<char> {
    if 0 <= y <= 9999 {
        zero_padded(decimal_digits(y as nat), 4)
    } else if y < 0 {
        seq!['-'] + zero_padded(decimal_digits((-y) as nat), 4)
    } else {
        seq!['+'] + zero_padded(decimal_digits(y as nat), 4)
    }
}

/// A date as two-digit day, month abbreviation and year: "05 Aug 2026".
pub open spec fn date_text(d: Date) -> Seq<char> {
    seq![digit_char(d.day as int / 10), digit_char(d.day as int % 10), ' '] + short_month_name(d.month as int)
        + seq![' '] + year_text(d.year as int)
}

/// A range as its two dates with an en dash between them.
pub open spec fn range_text(r: DateRange) -> Seq<char> {
    date_text(r.start) + seq![' ', '\u{2013}', ' '] + date_text(r.end)
}

/// The English name of month `m`.
pub open spec fn long_month_name(m: int) -> Seq<char> {
    if m == 1 {
        "January"@
    } else if m == 2 {
        "February"@
    } else if m == 3 {
        "March"@
    } else if m == 4 {
        "April"@
    } else if m == 5 {
        "May"@
    } else if m == 6 {
        "June"@
    } else if m == 7 {
        "July"@
    } else if m == 8 {
        "August"@
    } else if m == 9 {
        "September"@
    } else if m == 10 {
        "October"@
    } else if m == 11 {
        "November"@
    } else {
        "December"@
    }
}

/// Two digits for a number below 100: "05".
pub open spec fn two_digits(n: int) -> Seq<char> {
    seq![digit_char(n / 10), digit_char(n % 10)]
}

/// A date as month name, two-digit day and year: "August 05, 2026".
pub open spec fn long_date_text(d: Date) -> Seq<char> {
    long_month_name(d.month as int) + seq![' '] + two_digits(d.day as int) + seq![',', ' ']
        + year_text(d.year as int)
}

/// A date in ISO form: year, two-digit month, two-digit day: "2026-08-05".
pub open spec fn iso_date_text(d: Date) -> Seq<char> {
    year_text(d.year as int) + seq!['-'] + two_digits(d.month as int) + seq!['-'] + two_digits(
        d.day as int,
    )
}

/// `NaiveDate::format(pattern)` for the three patterns the library writes
/// dates with: `"%d %b %Y"` ("05 Aug 2026"), `"%B %d, %Y"` ("August 05,
/// 2026") and `"%Y-%m-%d"` ("2026-08-05"): zero-padded day and month number,
/// English month abbreviation or name, year zero-padded to four digits (with a
/// sign outside 0 to 9999).
#[verifier::external_body]
pub(crate) fn chrono_format_date(d: Date, pattern: &str) -> (r: String)
    requires
        d.wf(),
        pattern@ == "%d %b %Y"@ || pattern@ == "%B %d, %Y"@ || pattern@ == "%Y-%m-%d"@,
    ensures
        pattern@ == "%d %b %Y"@ ==> r@ == date_text(d),
        pattern@ == "%B %d, %Y"@ ==> r@ == long_date_text(d),
        pattern@ == "%Y-%m-%d"@ ==> r@ == iso_date_text(d),
{
    chrono::NaiveDate::from_ymd_opt(d.year, d.month, d.day).unwrap().format(pattern).to_string()
}

/// `NaiveDate`'s `Display`: the date in ISO form.
#[verifier::external_body]
pub(crate) fn chrono_display_date(d: Date) -> (r: String)
    requires
        d.wf(),
    ensures
        r@ == iso_date_text(d),
{
    chrono::NaiveDate::from_ymd_opt(d.year, d.month, d.day).unwrap().to_string()
}

impl DateRange {
    /// The range as text: "01 Aug 2026 \u{2013} 31 Aug 2026".
    pub fn to_display_string(&self) -> (r: String)
        requires
            self.start.wf(),
            self.end.wf(),
        ensures
            r@ == range_text(*self),
    {
        let mut s = chrono_format_date(self.start, "%d %b %Y");
        push_char(&mut s, ' ');
        push_char(&mut s, '\u{2013}');
        push_char(&mut s, ' ');
        let e = chrono_format_date(self.end, "%d %b %Y");
        s.append(e.as_str());
        s
    }
}

impl TimePeriod {
    /// The period's name: "Weekly", "Fortnightly", "Monthly" or "Yearly".
    pub fn name(&self) -> (r: &'static str)
        ensures
            r@ == period_name(*self),
    {
        proof {
            reveal_strlit("Weekly");
            reveal_strlit("Fortnightly");
            reveal_strlit("Monthly");
            reveal_strlit("Yearly");
        }
        match self {
            TimePeriod::Weekly => "Weekly",
            TimePeriod::Fortnightly => "Fortnightly",
            TimePeriod::Monthly => "Monthly",
            TimePeriod::Yearly => "Yearly",
        }
    }
}

pub open spec fn period_name(p: TimePeriod) -> Seq<char> {
    match p {
        TimePeriod::Weekly => seq!['W', 'e', 'e', 'k', 'l', 'y'],
        TimePeriod::Fortnightly => seq!['F', 'o', 'r', 't', 'n', 'i', 'g', 'h', 't', 'l', 'y'],
        TimePeriod::Monthly => seq!['M', 'o', 'n', 't', 'h', 'l', 'y'],
        TimePeriod::Yearly => seq!['Y', 'e', 'a', 'r', 'l', 'y'],
    }
}

} // verus!
