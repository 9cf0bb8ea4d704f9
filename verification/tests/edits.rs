use reminder_calendar::edits::{add_reminder, checkbox, delete_reminder, uncheck_reminders};
use reminder_calendar::reminders::{Reminder, RemindersData};
use reminder_calendar::requests::{CheckboxPostData, ReminderAddData, ReminderDeleteData};

fn reminder(name: &str, day: u8, checked: bool, month: u8, deadline_remind: i32) -> Reminder {
    Reminder { name: name.to_string(), day, checked, month, deadline_remind }
}

fn sample() -> RemindersData {
    RemindersData {
        months_names: vec!["January".to_string(), "February".to_string(), "March".to_string()],
        months_reminders: vec![
            vec![reminder("rent", 1, true, 0, 0), reminder("gym", 3, false, 0, 1)],
            vec![reminder("tax", 14, true, 1, 2), reminder("rent", 1, false, 1, 0)],
            vec![],
        ],
    }
}

fn flat(d: &RemindersData) -> Vec<Vec<(String, u8, bool, u8, i32)>> {
    d.months_reminders
        .iter()
        .map(|l| l.iter().map(|r| (r.name.clone(), r.day, r.checked, r.month, r.deadline_remind)).collect())
        .collect()
}

fn names(list: &Vec<Reminder>) -> Vec<String> {
    list.iter().map(|r| r.name.clone()).collect()
}

#[test]
fn uncheck_clears_every_flag() {
    let mut data = sample();
    uncheck_reminders(&mut data);
    for month in &data.months_reminders {
        for r in month {
            assert!(!r.checked);
        }
    }
    assert_eq!(names(&data.months_reminders[0]), vec!["rent", "gym"]);
    assert_eq!(data.months_reminders[1][0].day, 14);
    assert_eq!(data.months_reminders[1][0].deadline_remind, 2);
    assert_eq!(data.months_names.len(), 3);
}

#[test]
fn uncheck_twice_same_as_once() {
    let mut once = sample();
    uncheck_reminders(&mut once);
    let mut twice = sample();
    uncheck_reminders(&mut twice);
    uncheck_reminders(&mut twice);
    assert_eq!(flat(&once), flat(&twice));
}

#[test]
fn add_appends_to_each_listed_month() {
    let mut data = sample();
    add_reminder(
        &mut data,
        ReminderAddData { day: 20, name: "dentist".to_string(), months: vec![2, 0, 2], deadline_remind: 5 },
    );
    assert_eq!(names(&data.months_reminders[0]), vec!["rent", "gym", "dentist"]);
    assert_eq!(names(&data.months_reminders[1]), vec!["tax", "rent"]);
    assert_eq!(names(&data.months_reminders[2]), vec!["dentist", "dentist"]);
    let added = &data.months_reminders[2][0];
    assert_eq!(added.day, 20);
    assert_eq!(added.month, 2);
    assert!(!added.checked);
    assert_eq!(added.deadline_remind, 5);
    assert_eq!(data.months_reminders[0][2].month, 0);
}

#[test]
fn add_truncates_day_to_a_byte() {
    let mut data = sample();
    add_reminder(
        &mut data,
        ReminderAddData { day: 300, name: "odd".to_string(), months: vec![1], deadline_remind: 0 },
    );
    assert_eq!(data.months_reminders[1][2].day, 44);
}

#[test]
fn add_with_no_months_changes_nothing() {
    let mut data = sample();
    add_reminder(&mut data, ReminderAddData { day: 1, name: "x".to_string(), months: vec![], deadline_remind: 0 });
    assert_eq!(flat(&data), flat(&sample()));
}

#[test]
fn delete_removes_every_reminder_of_that_name() {
    let mut data = sample();
    delete_reminder(&mut data, ReminderDeleteData { name: "rent".to_string() });
    assert_eq!(names(&data.months_reminders[0]), vec!["gym"]);
    assert_eq!(names(&data.months_reminders[1]), vec!["tax"]);
    assert!(data.months_reminders[2].is_empty());
}

#[test]
fn delete_unknown_name_changes_nothing() {
    let mut data = sample();
    delete_reminder(&mut data, ReminderDeleteData { name: "nothing".to_string() });
    assert_eq!(flat(&data), flat(&sample()));
}

#[test]
fn delete_twice_same_as_once() {
    let mut once = sample();
    delete_reminder(&mut once, ReminderDeleteData { name: "gym".to_string() });
    let mut twice = sample();
    delete_reminder(&mut twice, ReminderDeleteData { name: "gym".to_string() });
    delete_reminder(&mut twice, ReminderDeleteData { name: "gym".to_string() });
    assert_eq!(flat(&once), flat(&twice));
}

#[test]
fn delete_undoes_add() {
    let mut added = sample();
    add_reminder(
        &mut added,
        ReminderAddData { day: 9, name: "rent".to_string(), months: vec![1, 2], deadline_remind: 1 },
    );
    delete_reminder(&mut added, ReminderDeleteData { name: "rent".to_string() });
    let mut only_deleted = sample();
    delete_reminder(&mut only_deleted, ReminderDeleteData { name: "rent".to_string() });
    assert_eq!(flat(&added), flat(&only_deleted));
}

#[test]
fn checkbox_sets_only_named_in_month() {
    let mut data = sample();
    checkbox(&mut data, CheckboxPostData { checked: true, reminder_name: "rent".to_string(), reminder_month: 1 });
    assert!(data.months_reminders[1][1].checked);
    assert!(data.months_reminders[1][0].checked);
    assert!(data.months_reminders[0][0].checked);
    checkbox(&mut data, CheckboxPostData { checked: false, reminder_name: "rent".to_string(), reminder_month: 0 });
    assert!(!data.months_reminders[0][0].checked);
    assert!(data.months_reminders[1][1].checked);
    assert!(!data.months_reminders[0][1].checked);
}

#[test]
fn uncheck_erases_checkbox() {
    let mut a = sample();
    checkbox(&mut a, CheckboxPostData { checked: true, reminder_name: "gym".to_string(), reminder_month: 0 });
    uncheck_reminders(&mut a);
    let mut b = sample();
    uncheck_reminders(&mut b);
    assert_eq!(flat(&a), flat(&b));
}
