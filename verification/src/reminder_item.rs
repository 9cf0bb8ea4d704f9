//! The state behind one reminder shown on the web page: its checkbox, the
//! request a click sends, and the texts shown beside it.
use vstd::prelude::*;

use crate::edits::checkbox_applied;
use crate::reminders::RemindersView;
use crate::requests::CheckboxPostData;
use crate::text::{decimal, push_decimal};

verus! {

/// What the page knows of one reminder.
#[derive(Debug, Clone, PartialEq)]
pub struct ReminderProps {
    pub name: String,
    pub month: u8,
    pub day: u8,
    pub checked: bool,
}

/// A click on the reminder's checkbox, which showed `is_checked`: the box
/// now shows the opposite, and the request sent to the server asks for
/// that state for the reminders of this name in this month.
pub fn click_checkbox(props: &ReminderProps, is_checked: bool) -> (result: (bool, CheckboxPostData))
    ensures
        result.0 == !is_checked,
        result.1.checked == !is_checked,
        result.1.reminder_name@ == props.name@,
        result.1.reminder_month == props.month,
{
    let shown = !is_checked;
    let post = CheckboxPostData {
        checked: !is_checked,
        reminder_name: props.name.clone(),
        reminder_month: props.month,
    };
    (shown, post)
}

/// The id of the reminder's checkbox: its name followed by its month index.
pub fn checkbox_id(props: &ReminderProps) -> (id: String)
    ensures
        id@ == props.name@ + decimal(props.month as nat),
{
    let mut id = props.name.clone();
    push_decimal(&mut id, props.month);
    id
}

/// The label shown beside the checkbox: `"{day} - {name}"`.
pub fn reminder_label(props: &ReminderProps) -> (label: String)
    ensures
        label@ == decimal(props.day as nat) + seq![' ', '-', ' '] + props.name@,
{
    let mut label = String::new();
    push_decimal(&mut label, props.day);
    proof {
        reveal_strlit(" - ");
    }
    label.append(" - ");
    label.append(props.name.as_str());
    label
}

/// Once the server has applied the request that a click sends, every
/// reminder of that name in that month is stored with the state `shown`
/// that the checkbox now shows.
pub proof fn lemma_click_matches_server(d: RemindersView, name: Seq<char>, month: u8, shown: bool)
    requires
        (month as int) < d.months_reminders.len(),
    ensures
        forall|j: int|
            0 <= j < d.months_reminders[month as int].len() && d.months_reminders[month as int][j].name == name
                ==> (#[trigger] checkbox_applied(d, month as int, name, shown).months_reminders[month as int][j]).checked
                == shown,
{
}

} // verus!
