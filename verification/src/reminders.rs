//! The reminder data that the server keeps: a name for each month and, for
//! each month, the list of its reminders.
use vstd::prelude::*;

verus! {

/// One reminder, as stored under the month with index `month`.
#[derive(Debug, Clone)]
pub struct Reminder {
    pub name: String,
    pub day: u8,
    pub checked: bool,
    pub month: u8,
    pub deadline_remind: i32,
}

/// The mathematical value of a reminder.
pub struct ReminderView {
    pub name: Seq<char>,
    pub day: u8,
    pub checked: bool,
    pub month: u8,
    pub deadline_remind: i32,
}

impl View for Reminder {
    type V = ReminderView;

    open spec fn view(&self) -> ReminderView {
        ReminderView {
            name: self.name@,
            day: self.day,
            checked: self.checked,
            month: self.month,
            deadline_remind: self.deadline_remind,
        }
    }
}

/// Everything the server stores: the month names and one reminder list per month.
#[derive(Debug, Clone)]
pub struct RemindersData {
    pub months_names: Vec<String>,
    pub months_reminders: Vec<Vec<Reminder>>,
}

/// The mathematical value of the stored data.
pub struct RemindersView {
    pub months_names: Seq<Seq<char>>,
    pub months_reminders: Seq<Seq<ReminderView>>,
}

impl View for RemindersData {
    type V = RemindersView;

    open spec fn view(&self) -> RemindersView {
        RemindersView {
            months_names: Seq::new(
                self.months_names@.len(),
                |i: int| self.months_names@[i]@,
            ),
            months_reminders: Seq::new(
                self.months_reminders@.len(),
                |i: int| reminder_list_view(self.months_reminders@[i]),
            ),
        }
    }
}

/// The values of the reminders of one month, in order.
pub open spec fn reminder_list_view(v: Vec<Reminder>) -> Seq<ReminderView> {
    Seq::new(v@.len(), |j: int| v@[j]@)
}

} // verus!
