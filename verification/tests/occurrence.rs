use anni::{Anniversary, AnnoDiff, Date};

fn date(y: i32, m: u32, d: u32) -> Date {
    Date::from_ymd_opt(y, m, d).unwrap()
}

fn diff(anniversary: Date, current: Date) -> Option<AnnoDiff> {
    Anniversary::from(anniversary, String::from("x")).anni_diff(current)
}

fn some(which_anni: u32, days_till: u32) -> Option<AnnoDiff> {
    Some(AnnoDiff { which_anni, days_till })
}

#[test]
fn five_days_before_the_second() {
    assert_eq!(diff(date(2023, 3, 7), date(2025, 3, 2)), some(2, 5));
}

#[test]
fn one_day_after_the_second() {
    assert_eq!(diff(date(2023, 3, 7), date(2025, 3, 8)), some(3, 364));
}

#[test]
fn on_the_second() {
    assert_eq!(diff(date(2023, 3, 7), date(2025, 3, 7)), some(2, 0));
}

#[test]
fn one_day_before_the_thirty_seventh() {
    assert_eq!(diff(date(1989, 2, 9), date(2026, 2, 8)), some(37, 1));
}

#[test]
fn across_the_turn_of_the_year() {
    assert_eq!(diff(date(2025, 12, 31), date(2026, 2, 8)), some(1, 326));
}

#[test]
fn the_day_after_the_first_day() {
    assert_eq!(diff(date(2026, 2, 7), date(2026, 2, 8)), some(1, 364));
}

#[test]
fn nothing_before_the_first_day() {
    assert_eq!(diff(date(2023, 3, 7), date(2023, 3, 6)), None);
    assert_eq!(diff(date(2023, 3, 7), date(2022, 12, 31)), None);
    assert_eq!(diff(date(2023, 3, 7), date(1900, 3, 7)), None);
    assert_eq!(diff(date(2024, 2, 29), date(2023, 6, 1)), None);
}

#[test]
fn on_the_first_day_itself() {
    assert_eq!(diff(date(2023, 3, 7), date(2023, 3, 7)), some(1, 0));
    assert_eq!(diff(date(2023, 12, 31), date(2023, 12, 31)), some(1, 0));
    assert_eq!(diff(date(262142, 12, 31), date(262142, 12, 31)), some(1, 0));
}

#[test]
fn first_return_of_the_day_is_number_one_too() {
    assert_eq!(diff(date(2023, 3, 7), date(2023, 3, 8)), some(1, 365));
    assert_eq!(diff(date(2023, 3, 7), date(2024, 3, 6)), some(1, 1));
    assert_eq!(diff(date(2023, 3, 7), date(2024, 3, 7)), some(1, 0));
    assert_eq!(diff(date(2023, 3, 7), date(2024, 3, 8)), some(2, 364));
}

#[test]
fn whole_years_are_counted() {
    assert_eq!(diff(date(2024, 2, 3), date(2025, 2, 2)), some(1, 1));
    assert_eq!(diff(date(2024, 2, 3), date(2025, 2, 3)), some(1, 0));
    assert_eq!(diff(date(2024, 2, 3), date(2025, 2, 4)), some(2, 364));
}

#[test]
fn a_leap_year_lies_between() {
    assert_eq!(diff(date(2023, 3, 7), date(2023, 3, 8)), some(1, 365));
    assert_eq!(diff(date(2020, 1, 1), date(2024, 1, 2)), some(5, 365));
    assert_eq!(diff(date(2020, 12, 31), date(2024, 1, 1)), some(4, 365));
}

#[test]
fn leap_day_in_a_common_year_has_no_result() {
    assert_eq!(diff(date(2024, 2, 29), date(2025, 2, 28)), None);
    assert_eq!(diff(date(2024, 2, 29), date(2025, 3, 1)), None);
    assert_eq!(diff(date(2024, 2, 29), date(2100, 2, 28)), None);
}

#[test]
fn leap_day_in_a_leap_year() {
    assert_eq!(diff(date(2024, 2, 29), date(2028, 2, 1)), some(4, 28));
    assert_eq!(diff(date(2024, 2, 29), date(2028, 2, 29)), some(4, 0));
    assert_eq!(diff(date(2024, 2, 29), date(2024, 2, 29)), some(1, 0));
}

#[test]
fn leap_day_once_passed_falls_on_the_last_of_february() {
    assert_eq!(diff(date(2024, 2, 29), date(2024, 3, 1)), some(1, 364));
    assert_eq!(diff(date(2024, 2, 29), date(2028, 12, 31)), some(5, 59));
}

#[test]
fn the_last_year_has_no_next_occurrence() {
    assert_eq!(diff(date(2000, 6, 1), date(262142, 6, 2)), None);
    assert_eq!(diff(date(2000, 6, 1), date(262142, 6, 1)), some(260142, 0));
    assert_eq!(diff(date(2000, 6, 1), date(262142, 5, 31)), some(260142, 1));
}

#[test]
fn years_before_the_common_era() {
    assert_eq!(diff(date(-4, 2, 29), date(0, 2, 28)), some(4, 1));
    assert_eq!(diff(date(-262143, 1, 1), date(262142, 1, 1)), some(524285, 0));
}

#[test]
fn days_never_exceed_a_year() {
    let first = date(2019, 7, 15);
    for (m, d) in [(1u32, 1u32), (2, 28), (7, 14), (7, 15), (7, 16), (12, 31)] {
        for y in 2019..2030 {
            let current = date(y, m, d);
            match diff(first, current) {
                Some(r) => {
                    assert!(r.days_till <= 365);
                    assert!(r.which_anni >= 1);
                }
                None => assert!(current.is_before(&first)),
            }
        }
    }
}
