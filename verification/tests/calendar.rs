use jiji_hamster_bridge::calendar::Date;
use jiji_hamster_bridge::resume::day_range;

fn date(year: i32, month: u32, day: u32) -> Date {
    Date::new(year, month, day).unwrap()
}

#[test]
fn only_days_of_the_calendar_are_dates() {
    assert!(Date::new(2024, 2, 29).is_some());
    assert!(Date::new(2023, 2, 29).is_none());
    assert!(Date::new(1900, 2, 29).is_none());
    assert!(Date::new(2000, 2, 29).is_some());
    assert!(Date::new(0, 2, 29).is_some());
    assert!(Date::new(-4, 2, 29).is_some());
    assert!(Date::new(-1, 2, 29).is_none());
    assert!(Date::new(2026, 4, 31).is_none());
    assert!(Date::new(2026, 13, 1).is_none());
    assert!(Date::new(2026, 0, 1).is_none());
    assert!(Date::new(2026, 1, 0).is_none());
    assert!(Date::new(-262143, 1, 1).is_some());
    assert!(Date::new(-262144, 12, 31).is_none());
    assert!(Date::new(262142, 12, 31).is_some());
    assert!(Date::new(262143, 1, 1).is_none());
}

#[test]
fn dates_are_those_of_chrono() {
    for year in [-262144, -262143, -401, -400, -100, -1, 0, 1, 1900, 2000, 2023, 2024, 262142, 262143] {
        for month in 0..14 {
            for day in 0..33 {
                assert_eq!(
                    Date::new(year, month, day).is_some(),
                    chrono::NaiveDate::from_ymd_opt(year, month, day).is_some(),
                    "{year} {month} {day}"
                );
            }
        }
    }
}

#[test]
fn a_range_of_no_days_is_today_alone() {
    assert_eq!(day_range(date(2024, 2, 29), 0), "2024-02-29 2024-02-29");
}

#[test]
fn ranges_cross_months_years_and_leap_days() {
    assert_eq!(day_range(date(2024, 3, 1), 1), "2024-02-29 2024-03-01");
    assert_eq!(day_range(date(2023, 3, 1), 1), "2023-02-28 2023-03-01");
    assert_eq!(day_range(date(2026, 1, 3), 5), "2025-12-29 2026-01-03");
    assert_eq!(day_range(date(2000, 1, 1), 146097), "1600-01-01 2000-01-01");
}

#[test]
fn years_beyond_four_digits_have_a_sign() {
    assert_eq!(day_range(date(10000, 1, 1), 1), "9999-12-31 +10000-01-01");
    assert_eq!(day_range(date(0, 1, 1), 1), "-0001-12-31 0000-01-01");
    assert_eq!(day_range(date(7, 1, 1), 0), "0007-01-01 0007-01-01");
    assert_eq!(day_range(date(-12345, 6, 7), 0), "-12345-06-07 -12345-06-07");
}

#[test]
fn the_first_date_is_the_limit() {
    let first = date(-262143, 1, 1);
    assert!(first.can_go_back(0));
    assert!(!first.can_go_back(1));
    assert_eq!(day_range(first, 0), "-262143-01-01 -262143-01-01");
    assert!(date(-262143, 3, 1).can_go_back(59));
    assert!(!date(-262143, 3, 1).can_go_back(60));
    assert_eq!(day_range(date(-262143, 3, 1), 59), "-262143-01-01 -262143-03-01");
    let today = date(2026, 6, 13);
    assert!(today.can_go_back(5));
    assert!(!today.can_go_back(u64::MAX));
}

#[test]
fn going_back_reaches_as_far_as_chrono_does() {
    let today = chrono::NaiveDate::from_ymd_opt(2026, 6, 13).unwrap();
    let most = (today - chrono::NaiveDate::MIN).num_days() as u64;
    assert!(date(2026, 6, 13).can_go_back(most));
    assert!(!date(2026, 6, 13).can_go_back(most + 1));
    assert_eq!(day_range(date(2026, 6, 13), most), "-262143-01-01 2026-06-13");
}
