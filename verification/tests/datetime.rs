use arewevarietyyet::datetime::{
    days_in_current_year, days_in_year, end_of_day, first_day_in_year, first_time_in_day,
    leap_year, year_of_time,
};
use arewevarietyyet::model::Year;

const DAY: u64 = 86400;

#[test]
fn leap_years_follow_the_gregorian_rule() {
    assert!(leap_year(2020));
    assert!(!leap_year(2021));
    assert!(!leap_year(1900));
    assert!(leap_year(2000));
}

#[test]
fn year_lengths() {
    assert_eq!(days_in_year(2020), 366);
    assert_eq!(days_in_year(2021), 365);
    assert_eq!(days_in_year(2000), 366);
    assert_eq!(days_in_year(1900), 365);
}

#[test]
fn known_year_starts() {
    assert_eq!(first_day_in_year(1970), 0);
    // 2022-01-01T00:00:00Z
    assert_eq!(first_day_in_year(2022), 1_640_995_200);
    // 2000-01-01T00:00:00Z
    assert_eq!(first_day_in_year(2000), 946_684_800);
}

#[test]
fn day_boundaries() {
    let noon = first_day_in_year(2022) + 12 * 3600;
    assert_eq!(first_time_in_day(noon), first_day_in_year(2022));
    assert_eq!(end_of_day(noon), first_day_in_year(2022) + DAY);
    let midnight = first_day_in_year(2022);
    assert_eq!(first_time_in_day(midnight), midnight);
    assert_eq!(end_of_day(midnight), midnight + DAY);
}

#[test]
fn the_year_of_an_instant() {
    assert_eq!(year_of_time(0), 1970);
    assert_eq!(year_of_time(first_day_in_year(2022)), 2022);
    assert_eq!(year_of_time(first_day_in_year(2022) - 1), 2021);
    assert_eq!(year_of_time(first_day_in_year(2023) - 1), 2022);
}

#[test]
fn days_elapsed_in_the_running_year() {
    // January 1st counts as one elapsed day.
    assert_eq!(days_in_current_year(first_day_in_year(2022)), 1);
    assert_eq!(days_in_current_year(first_day_in_year(2022) + 12 * 3600), 1);
    assert_eq!(days_in_current_year(first_day_in_year(2022) + 9 * DAY), 10);
    // December 31st of a leap year is day 366.
    assert_eq!(days_in_current_year(first_day_in_year(2021) - 1), 366);
}

#[test]
fn days_till_today_per_year_kind() {
    let now = first_day_in_year(2022) + 9 * DAY;
    assert_eq!(Year::Current.days_till_today(now), 10);
    assert_eq!(Year::Last(2020).days_till_today(now), 366);
    assert_eq!(Year::Last(2021).days_till_today(now), 365);
    assert_eq!(Year::Current.number(now), 2022);
    assert_eq!(Year::Last(2019).number(now), 2019);
}
