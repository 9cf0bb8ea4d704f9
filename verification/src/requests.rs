//! The bodies of the requests that the reminder server accepts.
use vstd::prelude::*;

verus! {

/// Adds a reminder named `name` on day `day` to each month whose index is
/// listed in `months`; it is to be shown `deadline_remind` days early.
#[derive(Debug, Clone, PartialEq)]
pub struct ReminderAddData {
    pub day: i32,
    pub name: String,
    pub months: Vec<i32>,
    pub deadline_remind: i32,
}

/// Deletes every reminder called `name`, in every month.
#[derive(Debug, Clone, PartialEq)]
pub struct ReminderDeleteData {
    pub name: String,
}

/// Unchecks every reminder; the flag itself is not read.
#[derive(Debug, Clone, PartialEq)]
pub struct UncheckData {
    pub uncheck: bool,
}

/// Sets the `checked` flag of the reminders called `reminder_name` in the
/// month with index `reminder_month`.
#[derive(Debug, Clone, PartialEq)]
pub struct CheckboxPostData {
    pub checked: bool,
    pub reminder_name: String,
    pub reminder_month: u8,
}

} // verus!
