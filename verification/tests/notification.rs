use reminder_calendar::notification::{notification_info, notification_is_defined};
use reminder_calendar::reminders::{Reminder, RemindersData};

fn reminder(name: &str, day: u8, checked: bool, month: u8, deadline_remind: i32) -> Reminder {
    Reminder { name: name.to_string(), day, checked, month, deadline_remind }
}

fn names() -> Vec<String> {
    ["January", "February", "March", "April", "May", "June", "July", "August", "September", "October",
        "November", "December"]
        .iter()
        .map(|s| s.to_string())
        .collect()
}

fn data(lists: Vec<Vec<Reminder>>) -> RemindersData {
    let mut months_reminders: Vec<Vec<Reminder>> = (0..12).map(|_| Vec::new()).collect();
    for (i, l) in lists.into_iter().enumerate() {
        months_reminders[i] = l;
    }
    RemindersData { months_names: names(), months_reminders }
}

#[test]
fn reminder_due_early_in_its_own_month() {
    let d = data(vec![vec![reminder("rent", 10, false, 0, 3)]]);
    assert!(notification_is_defined(&d, 2024, 1, 7));
    assert_eq!(notification_info(&d, 2024, 1, 7), "rent : January 10, ");
    assert_eq!(notification_info(&d, 2024, 1, 10), "");
}

#[test]
fn zero_deadline_due_on_its_day() {
    let d = data(vec![vec![], vec![reminder("tax", 14, false, 1, 0)]]);
    assert_eq!(notification_info(&d, 2023, 2, 14), "tax : February 14, ");
    assert_eq!(notification_info(&d, 2023, 1, 14), "");
}

#[test]
fn deadline_reaches_into_previous_month() {
    let d = data(vec![vec![], vec![], vec![reminder("bill", 2, false, 2, 5)]]);
    assert_eq!(notification_info(&d, 2024, 2, 26), "bill : March 2, ");
    assert_eq!(notification_info(&d, 2023, 2, 25), "bill : March 2, ");
    assert_eq!(notification_info(&d, 2024, 3, 26), "");
}

#[test]
fn checked_reminders_are_silent() {
    let d = data(vec![vec![reminder("rent", 10, true, 0, 3), reminder("gym", 10, false, 0, 3)]]);
    assert_eq!(notification_info(&d, 2024, 1, 7), "gym : January 10, ");
    let all_checked = data(vec![vec![reminder("rent", 10, true, 0, 3)]]);
    assert_eq!(notification_info(&all_checked, 2024, 1, 7), "");
}

#[test]
fn several_due_reminders_in_order() {
    let d = data(vec![
        vec![reminder("a", 5, false, 0, 0)],
        vec![reminder("b", 3, false, 1, 29)],
    ]);
    // "b" is stored under February (index 1); 3 - 29 goes back into January:
    // 31 + 3 - 29 = 5.
    assert_eq!(notification_info(&d, 2024, 1, 5), "a : January 5, b : February 3, ");
}

#[test]
fn january_counting_back_is_not_defined() {
    let d = data(vec![vec![reminder("new year", 1, false, 0, 2)]]);
    assert!(!notification_is_defined(&d, 2024, 1, 1));
}

#[test]
fn missing_month_name_is_not_defined() {
    let d = RemindersData { months_names: vec![], months_reminders: vec![vec![reminder("x", 4, false, 0, 0)]] };
    assert!(!notification_is_defined(&d, 2024, 1, 4));
    assert!(notification_is_defined(&d, 2024, 1, 5));
    assert_eq!(notification_info(&d, 2024, 1, 5), "");
}

#[test]
fn overflowing_deadline_is_not_defined() {
    let d = data(vec![vec![reminder("x", 200, false, 0, i32::MIN)]]);
    assert!(!notification_is_defined(&d, 2024, 1, 1));
}

#[test]
fn three_digit_day_is_written_in_full() {
    let d = data(vec![vec![reminder("far", 200, false, 0, 0)]]);
    assert_eq!(notification_info(&d, 2024, 1, 200), "far : January 200, ");
}
