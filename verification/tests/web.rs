use reminder_calendar::form::{month_checkboxes, parse_day, toggle_month};
use reminder_calendar::reminder_item::{checkbox_id, click_checkbox, reminder_label, ReminderProps};
use reminder_calendar::text::push_decimal;
use reminder_calendar::edits::checkbox;
use reminder_calendar::reminders::{Reminder, RemindersData};
use std::collections::HashSet;

#[test]
fn toggle_adds_then_removes() {
    let mut s: HashSet<i32> = HashSet::new();
    toggle_month(&mut s, 3);
    assert!(s.contains(&3));
    toggle_month(&mut s, 5);
    toggle_month(&mut s, 3);
    assert!(!s.contains(&3));
    assert!(s.contains(&5));
    assert_eq!(s.len(), 1);
}

#[test]
fn toggle_twice_restores() {
    let mut s: HashSet<i32> = [1, 2].into_iter().collect();
    let before = s.clone();
    toggle_month(&mut s, 7);
    toggle_month(&mut s, 7);
    assert_eq!(s, before);
}

#[test]
fn checkboxes_for_at_most_twelve_months() {
    let months: Vec<String> = (0..14).map(|i| format!("m{}", i)).collect();
    let boxes = month_checkboxes(&months);
    assert_eq!(boxes.len(), 12);
    assert_eq!(boxes[0], ("m0".to_string(), 0));
    assert_eq!(boxes[11], ("m11".to_string(), 11));
    let few = month_checkboxes(&vec!["Jan".to_string(), "Feb".to_string()]);
    assert_eq!(few, vec![("Jan".to_string(), 0), ("Feb".to_string(), 1)]);
    assert!(month_checkboxes(&vec![]).is_empty());
}

#[test]
fn parse_day_like_str_parse() {
    for s in ["12", "+7", "-3", "0", "007", "2147483647", "-2147483648", "", "-", "+", "1a", " 1", "2147483648",
        "-2147483649", "99999999999999999999"]
    {
        assert_eq!(parse_day(s), s.parse::<i32>().ok(), "input {:?}", s);
    }
}

#[test]
fn decimal_parses_back() {
    for n in [0u8, 9, 10, 99, 100, 255] {
        let mut s = String::new();
        push_decimal(&mut s, n);
        assert_eq!(s, n.to_string());
        assert_eq!(parse_day(&s), Some(n as i32));
    }
}

#[test]
fn click_flips_and_posts_new_state() {
    let props = ReminderProps { name: "rent".to_string(), month: 4, day: 2, checked: false };
    let (shown, post) = click_checkbox(&props, false);
    assert!(shown);
    assert!(post.checked);
    assert_eq!(post.reminder_name, "rent");
    assert_eq!(post.reminder_month, 4);
    let (shown, post) = click_checkbox(&props, true);
    assert!(!shown);
    assert!(!post.checked);
}

#[test]
fn checkbox_id_and_label() {
    let props = ReminderProps { name: "rent".to_string(), month: 11, day: 25, checked: false };
    assert_eq!(checkbox_id(&props), "rent11");
    assert_eq!(reminder_label(&props), "25 - rent");
    let props = ReminderProps { name: "x".to_string(), month: 0, day: 7, checked: true };
    assert_eq!(checkbox_id(&props), "x0");
    assert_eq!(reminder_label(&props), "7 - x");
}

#[test]
fn click_then_server_stores_shown_state() {
    let mut data = RemindersData {
        months_names: vec!["January".to_string()],
        months_reminders: vec![vec![
            Reminder { name: "rent".to_string(), day: 2, checked: false, month: 0, deadline_remind: 0 },
            Reminder { name: "gym".to_string(), day: 3, checked: false, month: 0, deadline_remind: 0 },
        ]],
    };
    let props = ReminderProps { name: "rent".to_string(), month: 0, day: 2, checked: false };
    let (shown, post) = click_checkbox(&props, false);
    checkbox(&mut data, post);
    assert_eq!(data.months_reminders[0][0].checked, shown);
    assert!(!data.months_reminders[0][1].checked);
}
