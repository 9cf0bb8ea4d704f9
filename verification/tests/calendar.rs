use reminder_calendar::calendar::get_days_from_month;

#[test]
fn month_lengths_of_a_common_year() {
    let expected = [31, 28, 31, 30, 31, 30, 31, 31, 30, 31, 30, 31];
    for (m, days) in expected.iter().enumerate() {
        assert_eq!(get_days_from_month(2023, m as u32 + 1), *days);
    }
}

#[test]
fn february_in_leap_years() {
    assert_eq!(get_days_from_month(2024, 2), 29);
    assert_eq!(get_days_from_month(2000, 2), 29);
    assert_eq!(get_days_from_month(1900, 2), 28);
    assert_eq!(get_days_from_month(-4, 2), 29);
    assert_eq!(get_days_from_month(0, 2), 29);
}

#[test]
fn december_spans_into_next_year() {
    assert_eq!(get_days_from_month(1999, 12), 31);
    assert_eq!(get_days_from_month(-262143, 12), 31);
}

#[test]
fn months_of_a_year_add_up() {
    let total: i64 = (1..=12).map(|m| get_days_from_month(2024, m)).sum();
    assert_eq!(total, 366);
    let total: i64 = (1..=12).map(|m| get_days_from_month(2100, m)).sum();
    assert_eq!(total, 365);
}
