use cashtrack::calendar::Date;
use cashtrack::period::{DateRange, TimePeriod};

fn d(y: i32, m: u32, d: u32) -> Date {
    Date::from_ymd(y, m, d).unwrap()
}

const TODAY: (i32, u32, u32) = (2026, 8, 5); // Wed, 05 Aug 2026
fn today() -> Date {
    d(TODAY.0, TODAY.1, TODAY.2)
}

#[test]
fn weekly() {
    let r = TimePeriod::Weekly.range_containing(today());
    assert_eq!(r, DateRange::new(d(2026, 8, 3), d(2026, 8, 9)));
}

#[test]
fn weekly_on_monday_and_sunday_edges() {
    let monday = TimePeriod::Weekly.range_containing(d(2026, 8, 3));
    let sunday = TimePeriod::Weekly.range_containing(d(2026, 8, 9));
    assert_eq!(monday, sunday);
    assert_eq!(monday.start, d(2026, 8, 3));
}

#[test]
fn fortnightly() {
    let r = TimePeriod::Fortnightly.range_containing(today());
    assert_eq!(r, DateRange::new(d(2026, 7, 27), d(2026, 8, 9)));
}

#[test]
fn monthly() {
    let r = TimePeriod::Monthly.range_containing(today());
    assert_eq!(r, DateRange::new(d(2026, 8, 1), d(2026, 8, 31)));
}

#[test]
fn monthly_handles_leap_february() {
    let r = TimePeriod::Monthly.range_containing(d(2028, 2, 10));
    assert_eq!(r.end, d(2028, 2, 29));
}

#[test]
fn yearly() {
    let r = TimePeriod::Yearly.range_containing(today());
    assert_eq!(r, DateRange::new(d(2026, 1, 1), d(2026, 12, 31)));
}

#[test]
fn next_fortnight_is_adjacent_not_overlapping() {
    let r = TimePeriod::Fortnightly.range_containing(today());
    let next = r.next(TimePeriod::Fortnightly);
    assert_eq!(next.start, r.end.plus_days(1));
    assert_eq!(next, DateRange::new(d(2026, 8, 10), d(2026, 8, 23)));
}

#[test]
fn prev_month_across_year_boundary() {
    let jan = TimePeriod::Monthly.range_containing(d(2026, 1, 15));
    let dec = jan.prev(TimePeriod::Monthly);
    assert_eq!(dec, DateRange::new(d(2025, 12, 1), d(2025, 12, 31)));
}

#[test]
fn shifting_months_realigns_end_to_month_length() {
    let jan = TimePeriod::Monthly.range_containing(d(2026, 1, 31));
    let feb = jan.next(TimePeriod::Monthly);
    assert_eq!(feb, DateRange::new(d(2026, 2, 1), d(2026, 2, 28)));
}

#[test]
fn shift_is_reversible() {
    for period in [
        TimePeriod::Weekly,
        TimePeriod::Fortnightly,
        TimePeriod::Monthly,
        TimePeriod::Yearly,
    ] {
        let r = period.range_containing(today());
        assert_eq!(r.next(period).prev(period), r, "{}", period.name());
        assert_eq!(r.shift(period, 3).shift(period, -3), r, "{}", period.name());
    }
}

#[test]
fn display() {
    let r = TimePeriod::Monthly.range_containing(today());
    assert_eq!(r.to_display_string(), "01 Aug 2026 \u{2013} 31 Aug 2026");
}

#[test]
fn range_contains_its_day_for_every_period() {
    for period in [
        TimePeriod::Weekly,
        TimePeriod::Fortnightly,
        TimePeriod::Monthly,
        TimePeriod::Yearly,
    ] {
        let r = period.range_containing(today());
        assert!(r.contains(today()));
        assert!(!r.contains(r.end.plus_days(1)));
        assert!(!r.contains(r.start.plus_days(-1)));
    }
}

#[test]
fn next_range_is_adjacent_for_every_period() {
    for period in [
        TimePeriod::Weekly,
        TimePeriod::Fortnightly,
        TimePeriod::Monthly,
        TimePeriod::Yearly,
    ] {
        let r = period.range_containing(d(2024, 12, 30));
        assert_eq!(r.next(period).start, r.end.plus_days(1));
    }
}

#[test]
fn week_partition_every_day_same_week() {
    let r = TimePeriod::Weekly.range_containing(today());
    for k in 0..7 {
        let day = r.start.plus_days(k);
        assert_eq!(TimePeriod::Weekly.range_containing(day), r);
    }
}

#[test]
fn weeks_cross_year_boundary() {
    let r = TimePeriod::Weekly.range_containing(d(2026, 1, 1));
    assert_eq!(r, DateRange::new(d(2025, 12, 29), d(2026, 1, 4)));
}

#[test]
fn yearly_shift_moves_whole_years() {
    let r = TimePeriod::Yearly.range_containing(d(2024, 2, 29));
    assert_eq!(r.shift(TimePeriod::Yearly, -24), DateRange::new(d(2000, 1, 1), d(2000, 12, 31)));
}

#[test]
fn monthly_shift_by_many_months() {
    let r = TimePeriod::Monthly.range_containing(d(2026, 3, 10));
    assert_eq!(r.shift(TimePeriod::Monthly, -13), DateRange::new(d(2025, 2, 1), d(2025, 2, 28)));
    assert_eq!(r.shift(TimePeriod::Monthly, 11), DateRange::new(d(2027, 2, 1), d(2027, 2, 28)));
}

#[test]
fn date_from_ymd_rejects_invalid_days() {
    assert!(Date::from_ymd(2026, 2, 29).is_none());
    assert!(Date::from_ymd(2028, 2, 29).is_some());
    assert!(Date::from_ymd(2026, 13, 1).is_none());
    assert!(Date::from_ymd(2026, 4, 31).is_none());
    assert!(Date::from_ymd(400000, 1, 1).is_none());
    assert!(Date::from_ymd(-4, 2, 29).is_some());
}

#[test]
fn date_text_outside_four_digit_years() {
    let r = DateRange::new(d(-1, 3, 9), d(12345, 11, 30));
    assert_eq!(r.to_display_string(), "09 Mar -0001 \u{2013} 30 Nov +12345");
}

#[test]
fn period_names() {
    assert_eq!(TimePeriod::Weekly.name(), "Weekly");
    assert_eq!(TimePeriod::Fortnightly.name(), "Fortnightly");
    assert_eq!(TimePeriod::Monthly.name(), "Monthly");
    assert_eq!(TimePeriod::Yearly.name(), "Yearly");
}

#[test]
fn shifts_compose_and_zero_shift_is_identity() {
    for period in [TimePeriod::Weekly, TimePeriod::Fortnightly, TimePeriod::Monthly, TimePeriod::Yearly] {
        let r = period.range_containing(today());
        assert_eq!(r.shift(period, 0), r);
        assert_eq!(r.shift(period, 5).shift(period, -2), r.shift(period, 3));
    }
}

#[test]
fn next_range_is_range_of_following_day() {
    for period in [TimePeriod::Weekly, TimePeriod::Monthly, TimePeriod::Yearly] {
        let r = period.range_containing(today());
        let following = r.end.plus_days(1);
        assert_eq!(r.next(period), period.range_containing(following));
    }
    let f = TimePeriod::Fortnightly.range_containing(today());
    let n = f.next(TimePeriod::Fortnightly);
    assert_eq!(n.start, d(2026, 8, 10));
    assert_eq!(n.end, d(2026, 8, 23));
}

#[test]
fn ranges_exist_except_at_the_calendar_ends() {
    assert!(TimePeriod::Weekly.has_range_around(today()));
    assert!(TimePeriod::Fortnightly.has_range_around(today()));
    assert!(TimePeriod::Monthly.has_range_around(today()));
    assert!(TimePeriod::Yearly.has_range_around(today()));
    let last_month = d(262142, 12, 5);
    assert!(!TimePeriod::Monthly.has_range_around(last_month));
    assert!(TimePeriod::Yearly.has_range_around(last_month));
    assert!(TimePeriod::Monthly.has_range_around(d(262142, 11, 5)));
    assert!(TimePeriod::Weekly.has_range_around(d(262142, 11, 5)));
}
