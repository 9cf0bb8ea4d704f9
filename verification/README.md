# reminder_calendar

A reminder calendar: a server keeps, for each month, a name and a list of
reminders; a web page lists them, lets the user check them off and add new
ones, and a notification request answers with the reminders that fall due
today.

- `src/` is the verified library (Verus): the data model (`reminders`), the
  request bodies (`requests`), the edits the requests make (`edits`), the
  notification text (`notification`), calendar arithmetic over chrono
  (`calendar`), decimal rendering (`text`), and the state behind the web form
  and the reminder checkboxes (`form`, `reminder_item`). Laws about them are
  public proof functions beside the functions they speak of.
- `app/` is the program around it: the axum server with its JSON data file
  and clock, and the yew components of the web page.
- `tests/` runs the library on concrete values.
