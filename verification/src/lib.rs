//! Reminder calendar: the data kept by the reminder server, the edits that its
//! requests make to it, the text of its notification reply, the calendar
//! arithmetic that the reply needs, and the state changes of the web form.
pub mod calendar;
pub mod edits;
pub mod form;
pub mod notification;
pub mod reminder_item;
pub mod reminders;
pub mod requests;
pub mod text;
