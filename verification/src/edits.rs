//! The edits that the server's requests make to the stored reminders.
use vstd::prelude::*;

use crate::reminders::{reminder_list_view, Reminder, ReminderView, RemindersData, RemindersView};
use crate::requests::{CheckboxPostData, ReminderAddData, ReminderDeleteData};

verus! {

/// A reminder with its `checked` flag cleared.
pub open spec fn cleared(r: ReminderView) -> ReminderView {
    ReminderView { checked: false, ..r }
}

/// The data after every reminder has been unchecked.
pub open spec fn all_unchecked(d: RemindersView) -> RemindersView {
    RemindersView {
        months_names: d.months_names,
        months_reminders: Seq::new(
            d.months_reminders.len(),
            |i: int| cleared_list(d.months_reminders[i]),
        ),
    }
}

/// The reminders of one month, each with its `checked` flag cleared.
pub open spec fn cleared_list(s: Seq<ReminderView>) -> Seq<ReminderView> {
    Seq::new(s.len(), |j: int| cleared(s[j]))
}

fn uncheck_list(row: &mut Vec<Reminder>)
    ensures
        reminder_list_view(*final(row)) == cleared_list(reminder_list_view(*old(row))),
{
    let ghost r0 = reminder_list_view(*row);
    let m = row.len();
    let mut j: usize = 0;
    while j < m
        invariant
            0 <= j <= m,
            m == row@.len(),
            forall|l: int| 0 <= l < j ==> #[trigger] row@[l]@ == cleared(r0[l]),
            forall|l: int| j <= l < m ==> #[trigger] row@[l]@ == r0[l],
        decreases m - j,
    {
        let ghost before = row@;
        assert(before[j as int]@ == r0[j as int]);
        row[j].checked = false;
        assert(row@[j as int]@ == cleared(r0[j as int]));
        j += 1;
    }
    assert(reminder_list_view(*row) =~= cleared_list(r0));
}

/// Clears the `checked` flag of every reminder of every month.
pub fn uncheck_reminders(data: &mut RemindersData)
    ensures
        final(data)@ == all_unchecked(old(data)@),
{
    let n = data.months_reminders.len();
    let ghost d0 = data@;
    let ghost rows0 = data.months_reminders@;
    let mut i: usize = 0;
    while i < n
        invariant
            0 <= i <= n,
            n == data.months_reminders@.len(),
            rows0.len() == n,
            d0 == old(data)@,
            rows0 == old(data).months_reminders@,
            data.months_names == old(data).months_names,
            forall|k: int| 0 <= k < i ==> #[trigger] reminder_list_view(data.months_reminders@[k])
                == cleared_list(reminder_list_view(rows0[k])),
            forall|k: int| i <= k < n ==> #[trigger] data.months_reminders@[k] == rows0[k],
        decreases n - i,
    {
        let mut row: Vec<Reminder> = Vec::new();
        std::mem::swap(&mut row, &mut data.months_reminders[i]);
        uncheck_list(&mut row);
        std::mem::swap(&mut row, &mut data.months_reminders[i]);
        i += 1;
    }
    assert(data@.months_reminders =~= all_unchecked(d0).months_reminders);
}

/// The reminder that an add request with these fields stores under month `m`.
pub open spec fn added_reminder(name: Seq<char>, day: i32, deadline_remind: i32, m: i32) -> ReminderView {
    ReminderView {
        name: name,
        day: day as u8,
        checked: false,
        month: m as u8,
        deadline_remind: deadline_remind,
    }
}

/// The month lists after the new reminder has been appended, in turn, to
/// the list of each month index in `months`.
pub open spec fn with_added(
    lists: Seq<Seq<ReminderView>>,
    name: Seq<char>,
    day: i32,
    deadline_remind: i32,
    months: Seq<i32>,
) -> Seq<Seq<ReminderView>>
    decreases months.len(),
{
    if months.len() == 0 {
        lists
    } else {
        let prev = with_added(lists, name, day, deadline_remind, months.drop_last());
        let m = months.last();
        prev.update(m as int, prev[m as int].push(added_reminder(name, day, deadline_remind, m)))
    }
}

/// Whether every month index of an add request names a stored month.
pub open spec fn months_in_range(months: Seq<i32>, n: int) -> bool {
    forall|k: int| 0 <= k < months.len() ==> 0 <= #[trigger] months[k] < n
}

proof fn lemma_with_added_len(
    lists: Seq<Seq<ReminderView>>,
    name: Seq<char>,
    day: i32,
    deadline_remind: i32,
    months: Seq<i32>,
)
    requires
        months_in_range(months, lists.len() as int),
    ensures
        with_added(lists, name, day, deadline_remind, months).len() == lists.len(),
    decreases months.len(),
{
    if months.len() > 0 {
        lemma_with_added_len(lists, name, day, deadline_remind, months.drop_last());
    }
}

/// Appends, for each month index listed in the request, a new unchecked
/// reminder with the request's name, day and deadline to that month's list.
pub fn add_reminder(data: &mut RemindersData, payload: ReminderAddData)
    requires
        months_in_range(payload.months@, old(data).months_reminders@.len() as int),
    ensures
        final(data)@.months_names == old(data)@.months_names,
        final(data)@.months_reminders == with_added(
            old(data)@.months_reminders,
            payload.name@,
            payload.day,
            payload.deadline_remind,
            payload.months@,
        ),
        final(data)@.months_reminders.len() == old(data)@.months_reminders.len(),
        forall|k: int, j: int|
            0 <= k < old(data)@.months_reminders.len() && 0 <= j < final(data)@.months_reminders[k].len() ==> {
                let r = #[trigger] final(data)@.months_reminders[k][j];
                &&& j < old(data)@.months_reminders[k].len() ==> r == old(data)@.months_reminders[k][j]
                &&& j >= old(data)@.months_reminders[k].len() ==> r == ReminderView {
                    name: payload.name@,
                    day: payload.day as u8,
                    checked: false,
                    month: (k as i32) as u8,
                    deadline_remind: payload.deadline_remind,
                }
            },
{
    let ghost d0 = data@;
    let n = payload.months.len();
    let mut k: usize = 0;
    while k < n
        invariant
            0 <= k <= n,
            n == payload.months@.len(),
            months_in_range(payload.months@, d0.months_reminders.len() as int),
            data.months_reminders@.len() == d0.months_reminders.len(),
            data@.months_names == d0.months_names,
            data@.months_reminders == with_added(
                d0.months_reminders,
                payload.name@,
                payload.day,
                payload.deadline_remind,
                payload.months@.take(k as int),
            ),
        decreases n - k,
    {
        let m = payload.months[k];
        let r = Reminder {
            name: payload.name.clone(),
            day: payload.day as u8,
            checked: false,
            month: m as u8,
            deadline_remind: payload.deadline_remind,
        };
        let ghost rows = data.months_reminders@;
        let ghost v = data@;
        let ghost rv = r@;
        assert(rv == added_reminder(payload.name@, payload.day, payload.deadline_remind, m));
        data.months_reminders[m as usize].push(r);
        proof {
            assert(reminder_list_view(data.months_reminders@[m as int])
                =~= reminder_list_view(rows[m as int]).push(rv));
            let ms = payload.months@.take(k as int + 1);
            assert(ms.drop_last() =~= payload.months@.take(k as int));
            assert(ms.last() == m);
            assert(data.months_reminders@ == rows.update(m as int, data.months_reminders@[m as int]));
            assert(data@.months_reminders =~= v.months_reminders.update(
                m as int,
                v.months_reminders[m as int].push(added_reminder(payload.name@, payload.day, payload.deadline_remind, m)),
            ));
        }
        k += 1;
    }
    assert(payload.months@.take(n as int) =~= payload.months@);
    proof {
        lemma_add_new_reminders(
            d0.months_reminders,
            payload.name@,
            payload.day,
            payload.deadline_remind,
            payload.months@,
        );
        assert forall|k: int, j: int|
            0 <= k < d0.months_reminders.len() && 0 <= j < data@.months_reminders[k].len()
                && j < d0.months_reminders[k].len() implies #[trigger] data@.months_reminders[k][j]
            == d0.months_reminders[k][j] by {
            let new = data@.months_reminders[k];
            assert(new.take(d0.months_reminders[k].len() as int)[j] == new[j]);
        }
    }
}

/// The reminders of a list whose name differs from `name`, in their order.
pub open spec fn without_name(s: Seq<ReminderView>, name: Seq<char>) -> Seq<ReminderView>
    decreases s.len(),
{
    if s.len() == 0 {
        s
    } else {
        let prev = without_name(s.drop_last(), name);
        if s.last().name == name { prev } else { prev.push(s.last()) }
    }
}

/// The data after every reminder called `name` has been removed.
pub open spec fn deleted(d: RemindersView, name: Seq<char>) -> RemindersView {
    RemindersView {
        months_names: d.months_names,
        months_reminders: Seq::new(
            d.months_reminders.len(),
            |i: int| without_name(d.months_reminders[i], name),
        ),
    }
}

fn retain_other_names(row: Vec<Reminder>, name: &String) -> (res: Vec<Reminder>)
    ensures
        reminder_list_view(res) == without_name(reminder_list_view(row), name@),
{
    let ghost s = reminder_list_view(row);
    let mut res: Vec<Reminder> = Vec::new();
    for r in it: row.into_iter()
        invariant
            it.seq().len() == s.len(),
            forall|j: int| 0 <= j < s.len() ==> #[trigger] it.seq()[j]@ == s[j],
            reminder_list_view(res) == without_name(s.take(it.index() as int), name@),
    {
        let ghost rv = r@;
        let ghost before = reminder_list_view(res);
        proof {
            let t = s.take(it.index() as int + 1);
            assert(t.drop_last() =~= s.take(it.index() as int));
        }
        if r.name != *name {
            res.push(r);
            assert(reminder_list_view(res) =~= before.push(rv));
        }
    }
    assert(s.take(s.len() as int) =~= s);
    res
}

/// Removes, from every month's list, each reminder whose name is the
/// request's name; the other reminders keep their order.
pub fn delete_reminder(data: &mut RemindersData, payload: ReminderDeleteData)
    ensures
        final(data)@ == deleted(old(data)@, payload.name@),
{
    let n = data.months_reminders.len();
    let ghost d0 = data@;
    let ghost rows0 = data.months_reminders@;
    let mut i: usize = 0;
    while i < n
        invariant
            0 <= i <= n,
            n == data.months_reminders@.len(),
            rows0.len() == n,
            d0 == old(data)@,
            rows0 == old(data).months_reminders@,
            data.months_names == old(data).months_names,
            forall|k: int| 0 <= k < i ==> #[trigger] reminder_list_view(data.months_reminders@[k])
                == without_name(reminder_list_view(rows0[k]), payload.name@),
            forall|k: int| i <= k < n ==> #[trigger] data.months_reminders@[k] == rows0[k],
        decreases n - i,
    {
        let mut row: Vec<Reminder> = Vec::new();
        std::mem::swap(&mut row, &mut data.months_reminders[i]);
        let mut kept = retain_other_names(row, &payload.name);
        std::mem::swap(&mut kept, &mut data.months_reminders[i]);
        i += 1;
    }
    assert(data@.months_reminders =~= deleted(d0, payload.name@).months_reminders);
}

/// A list in which each reminder called `name` has its `checked` flag set to `checked`.
pub open spec fn with_checked(s: Seq<ReminderView>, name: Seq<char>, checked: bool) -> Seq<ReminderView> {
    Seq::new(
        s.len(),
        |j: int| if s[j].name == name { ReminderView { checked: checked, ..s[j] } } else { s[j] },
    )
}

/// The data after a checkbox request: only the list of month `month` changes.
pub open spec fn checkbox_applied(d: RemindersView, month: int, name: Seq<char>, checked: bool) -> RemindersView {
    RemindersView {
        months_names: d.months_names,
        months_reminders: d.months_reminders.update(month, with_checked(d.months_reminders[month], name, checked)),
    }
}

/// In the list of the request's month, sets the `checked` flag of each
/// reminder whose name is the request's name to the request's value.
pub fn checkbox(data: &mut RemindersData, payload: CheckboxPostData)
    requires
        (payload.reminder_month as int) < old(data).months_reminders@.len(),
    ensures
        final(data)@ == checkbox_applied(
            old(data)@,
            payload.reminder_month as int,
            payload.reminder_name@,
            payload.checked,
        ),
{
    let ghost d0 = data@;
    let i = payload.reminder_month as usize;
    let mut row: Vec<Reminder> = Vec::new();
    std::mem::swap(&mut row, &mut data.months_reminders[i]);
    let ghost r0 = reminder_list_view(row);
    assert(r0 == d0.months_reminders[i as int]);
    let m = row.len();
    let mut j: usize = 0;
    while j < m
        invariant
            0 <= j <= m,
            m == row@.len(),
            r0.len() == m,
            forall|l: int| 0 <= l < j ==> #[trigger] row@[l]@ == with_checked(r0, payload.reminder_name@, payload.checked)[l],
            forall|l: int| j <= l < m ==> #[trigger] row@[l]@ == r0[l],
        decreases m - j,
    {
        let ghost before = row@;
        assert(before[j as int]@ == r0[j as int]);
        let same = row[j].name == payload.reminder_name;
        assert(same == (r0[j as int].name == payload.reminder_name@));
        if same {
            row[j].checked = payload.checked;
        }
        assert(row@[j as int]@ == with_checked(r0, payload.reminder_name@, payload.checked)[j as int]);
        j += 1;
    }
    assert(reminder_list_view(row) =~= with_checked(r0, payload.reminder_name@, payload.checked));
    std::mem::swap(&mut row, &mut data.months_reminders[i]);
    assert(data@.months_reminders =~= checkbox_applied(
        d0,
        i as int,
        payload.reminder_name@,
        payload.checked,
    ).months_reminders);
}

/// Unchecking twice leaves the data as unchecking once does.
pub proof fn lemma_uncheck_idempotent(d: RemindersView)
    ensures
        all_unchecked(all_unchecked(d)) == all_unchecked(d),
{
    let once = all_unchecked(d);
    let twice = all_unchecked(once);
    assert forall|i: int| 0 <= i < d.months_reminders.len() implies #[trigger] twice.months_reminders[i]
        == once.months_reminders[i] by {
        assert(twice.months_reminders[i] =~= once.months_reminders[i]);
    }
    assert(twice.months_reminders =~= once.months_reminders);
}

/// After unchecking, no reminder is checked, and each month keeps its
/// reminders in their order with all their other fields.
pub proof fn lemma_uncheck_clears_all(d: RemindersView)
    ensures
        all_unchecked(d).months_names == d.months_names,
        all_unchecked(d).months_reminders.len() == d.months_reminders.len(),
        forall|i: int, j: int|
            0 <= i < d.months_reminders.len() && 0 <= j < d.months_reminders[i].len() ==> {
                let r = #[trigger] all_unchecked(d).months_reminders[i][j];
                &&& all_unchecked(d).months_reminders[i].len() == d.months_reminders[i].len()
                &&& !r.checked
                &&& r.name == d.months_reminders[i][j].name
                &&& r.day == d.months_reminders[i][j].day
                &&& r.month == d.months_reminders[i][j].month
                &&& r.deadline_remind == d.months_reminders[i][j].deadline_remind
            },
{
}

proof fn lemma_without_name_props(s: Seq<ReminderView>, name: Seq<char>)
    ensures
        forall|j: int| 0 <= j < without_name(s, name).len() ==> (#[trigger] without_name(s, name)[j]).name != name,
        forall|j: int| 0 <= j < without_name(s, name).len() ==> s.contains(#[trigger] without_name(s, name)[j]),
        forall|j: int| 0 <= j < s.len() && (#[trigger] s[j]).name != name ==> without_name(s, name).contains(s[j]),
        without_name(s, name).len() <= s.len(),
    decreases s.len(),
{
    if s.len() > 0 {
        let prev = s.drop_last();
        lemma_without_name_props(prev, name);
        let w = without_name(s, name);
        let wp = without_name(prev, name);
        assert forall|j: int| 0 <= j < w.len() implies s.contains(#[trigger] w[j]) by {
            if j < wp.len() {
                assert(w[j] == wp[j]);
                let k = choose|k: int| 0 <= k < prev.len() && prev[k] == wp[j];
                assert(s[k] == prev[k]);
            } else {
                assert(w[j] == s.last());
                assert(s[s.len() - 1] == s.last());
            }
        }
        assert forall|j: int| 0 <= j < s.len() && (#[trigger] s[j]).name != name implies w.contains(s[j]) by {
            if j < s.len() - 1 {
                assert(prev[j] == s[j]);
                let k = choose|k: int| 0 <= k < wp.len() && wp[k] == prev[j];
                assert(w[k] == wp[k]);
            } else {
                assert(w[w.len() - 1] == s[j]);
            }
        }
    }
}

/// After deleting `name`, no month holds a reminder called `name`; every
/// remaining reminder was there before, and every reminder with another
/// name is still there.
pub proof fn lemma_delete_removes_only_name(d: RemindersView, name: Seq<char>)
    ensures
        deleted(d, name).months_names == d.months_names,
        deleted(d, name).months_reminders.len() == d.months_reminders.len(),
        forall|i: int, j: int|
            0 <= i < d.months_reminders.len() && 0 <= j < deleted(d, name).months_reminders[i].len() ==> {
                &&& (#[trigger] deleted(d, name).months_reminders[i][j]).name != name
                &&& d.months_reminders[i].contains(deleted(d, name).months_reminders[i][j])
            },
        forall|i: int, j: int|
            0 <= i < d.months_reminders.len() && 0 <= j < d.months_reminders[i].len()
                && (#[trigger] d.months_reminders[i][j]).name != name ==> deleted(d, name).months_reminders[i].contains(
                d.months_reminders[i][j],
            ),
{
    assert forall|i: int, j: int|
        0 <= i < d.months_reminders.len() && 0 <= j < deleted(d, name).months_reminders[i].len() implies {
            &&& (#[trigger] deleted(d, name).months_reminders[i][j]).name != name
            &&& d.months_reminders[i].contains(deleted(d, name).months_reminders[i][j])
        } by {
        lemma_without_name_props(d.months_reminders[i], name);
    }
    assert forall|i: int, j: int|
        0 <= i < d.months_reminders.len() && 0 <= j < d.months_reminders[i].len()
            && (#[trigger] d.months_reminders[i][j]).name != name implies deleted(d, name).months_reminders[i].contains(
            d.months_reminders[i][j],
        ) by {
        lemma_without_name_props(d.months_reminders[i], name);
    }
}

proof fn lemma_without_name_idempotent(s: Seq<ReminderView>, name: Seq<char>)
    ensures
        without_name(without_name(s, name), name) == without_name(s, name),
    decreases s.len(),
{
    if s.len() > 0 {
        lemma_without_name_idempotent(s.drop_last(), name);
        let wp = without_name(s.drop_last(), name);
        if s.last().name != name {
            assert(wp.push(s.last()).drop_last() =~= wp);
        }
    }
}

/// Deleting the same name twice leaves the data as deleting it once does.
pub proof fn lemma_delete_idempotent(d: RemindersView, name: Seq<char>)
    ensures
        deleted(deleted(d, name), name) == deleted(d, name),
{
    assert forall|i: int| 0 <= i < d.months_reminders.len() implies #[trigger] deleted(deleted(d, name), name).months_reminders[i]
        == deleted(d, name).months_reminders[i] by {
        lemma_without_name_idempotent(d.months_reminders[i], name);
    }
    assert(deleted(deleted(d, name), name).months_reminders =~= deleted(d, name).months_reminders);
}

proof fn lemma_without_name_push_same(s: Seq<ReminderView>, r: ReminderView, name: Seq<char>)
    requires
        r.name == name,
    ensures
        without_name(s.push(r), name) == without_name(s, name),
{
    assert(s.push(r).drop_last() =~= s);
}

/// Adding a reminder and then deleting its name leaves the data as deleting
/// the name alone does: the delete request undoes the add request.
pub proof fn lemma_delete_undoes_add(d: RemindersView, name: Seq<char>, day: i32, deadline_remind: i32, months: Seq<i32>)
    requires
        months_in_range(months, d.months_reminders.len() as int),
    ensures
        deleted(
            RemindersView {
                months_names: d.months_names,
                months_reminders: with_added(d.months_reminders, name, day, deadline_remind, months),
            },
            name,
        ) == deleted(d, name),
    decreases months.len(),
{
    let added = RemindersView {
        months_names: d.months_names,
        months_reminders: with_added(d.months_reminders, name, day, deadline_remind, months),
    };
    lemma_with_added_len(d.months_reminders, name, day, deadline_remind, months);
    if months.len() > 0 {
        let prev_months = months.drop_last();
        assert(months_in_range(prev_months, d.months_reminders.len() as int)) by {
            assert forall|k: int| 0 <= k < prev_months.len() implies 0 <= #[trigger] prev_months[k] < d.months_reminders.len() by {
                assert(prev_months[k] == months[k]);
            }
        }
        lemma_delete_undoes_add(d, name, day, deadline_remind, prev_months);
        lemma_with_added_len(d.months_reminders, name, day, deadline_remind, prev_months);
        let prev = RemindersView {
            months_names: d.months_names,
            months_reminders: with_added(d.months_reminders, name, day, deadline_remind, prev_months),
        };
        let m = months.last();
        assert(0 <= m < d.months_reminders.len()) by {
            assert(months[months.len() - 1] == m);
        }
        assert forall|i: int| 0 <= i < d.months_reminders.len() implies #[trigger] deleted(added, name).months_reminders[i]
            == deleted(prev, name).months_reminders[i] by {
            if i == m as int {
                lemma_without_name_push_same(
                    prev.months_reminders[i],
                    added_reminder(name, day, deadline_remind, m),
                    name,
                );
            }
        }
        assert(deleted(added, name).months_reminders =~= deleted(prev, name).months_reminders);
    } else {
        assert(added == d);
    }
}

/// Checking or unchecking a reminder has no lasting effect once every
/// reminder is unchecked: the uncheck request erases the checkbox request.
pub proof fn lemma_uncheck_erases_checkbox(d: RemindersView, month: int, name: Seq<char>, checked: bool)
    requires
        0 <= month < d.months_reminders.len(),
    ensures
        all_unchecked(checkbox_applied(d, month, name, checked)) == all_unchecked(d),
{
    let a = all_unchecked(checkbox_applied(d, month, name, checked));
    let b = all_unchecked(d);
    assert forall|i: int| 0 <= i < d.months_reminders.len() implies #[trigger] a.months_reminders[i]
        == b.months_reminders[i] by {
        assert(a.months_reminders[i] =~= b.months_reminders[i]);
    }
    assert(a.months_reminders =~= b.months_reminders);
}

/// After a checkbox request, every reminder of that month with that name
/// has the requested flag; every other reminder, and every other month, is
/// as it was.
pub proof fn lemma_checkbox_sets_only_named(d: RemindersView, month: int, name: Seq<char>, checked: bool)
    requires
        0 <= month < d.months_reminders.len(),
    ensures
        ({
            let a = checkbox_applied(d, month, name, checked);
            &&& a.months_names == d.months_names
            &&& a.months_reminders.len() == d.months_reminders.len()
            &&& a.months_reminders[month].len() == d.months_reminders[month].len()
            &&& forall|i: int| 0 <= i < d.months_reminders.len() && i != month ==> #[trigger] a.months_reminders[i]
                == d.months_reminders[i]
            &&& forall|j: int| 0 <= j < d.months_reminders[month].len() ==> {
                let r = #[trigger] a.months_reminders[month][j];
                let r0 = d.months_reminders[month][j];
                &&& r.name == r0.name && r.day == r0.day && r.month == r0.month
                &&& r.deadline_remind == r0.deadline_remind
                &&& r.checked == if r0.name == name { checked } else { r0.checked }
            }
        }),
{
}

/// How many times month index `k` occurs in `months`.
pub open spec fn occurrences(months: Seq<i32>, k: int) -> nat
    decreases months.len(),
{
    if months.len() == 0 {
        0
    } else {
        occurrences(months.drop_last(), k) + if months.last() as int == k { 1nat } else { 0nat }
    }
}

/// An add request appends to each month's list one new reminder for each
/// time the month's index occurs in the request, after the reminders the
/// month already had; months not named keep their lists.
pub proof fn lemma_add_appends_per_occurrence(
    lists: Seq<Seq<ReminderView>>,
    name: Seq<char>,
    day: i32,
    deadline_remind: i32,
    months: Seq<i32>,
)
    requires
        months_in_range(months, lists.len() as int),
    ensures
        with_added(lists, name, day, deadline_remind, months).len() == lists.len(),
        forall|k: int| 0 <= k < lists.len() ==> #[trigger] with_added(lists, name, day, deadline_remind, months)[k]
            == lists[k] + Seq::new(
            occurrences(months, k),
            |j: int| added_reminder(name, day, deadline_remind, k as i32),
        ),
    decreases months.len(),
{
    lemma_with_added_len(lists, name, day, deadline_remind, months);
    if months.len() > 0 {
        let prev_months = months.drop_last();
        assert(months_in_range(prev_months, lists.len() as int)) by {
            assert forall|k: int| 0 <= k < prev_months.len() implies 0 <= #[trigger] prev_months[k] < lists.len() by {
                assert(prev_months[k] == months[k]);
            }
        }
        lemma_add_appends_per_occurrence(lists, name, day, deadline_remind, prev_months);
        let m = months.last();
        assert(0 <= m < lists.len()) by {
            assert(months[months.len() - 1] == m);
        }
        assert forall|k: int| 0 <= k < lists.len() implies #[trigger] with_added(lists, name, day, deadline_remind, months)[k]
            == lists[k] + Seq::new(
            occurrences(months, k),
            |j: int| added_reminder(name, day, deadline_remind, k as i32),
        ) by {
            let f = |j: int| added_reminder(name, day, deadline_remind, k as i32);
            let c = occurrences(prev_months, k);
            if k == m as int {
                assert(Seq::new(c + 1, f) =~= Seq::new(c, f).push(f(c as int)));
                assert(lists[k] + Seq::new(c + 1, f) =~= (lists[k] + Seq::new(c, f)).push(f(c as int)));
                assert((k as i32) == m);
            }
        }
    } else {
        assert forall|k: int| 0 <= k < lists.len() implies #[trigger] with_added(lists, name, day, deadline_remind, months)[k]
            == lists[k] + Seq::new(
            occurrences(months, k),
            |j: int| added_reminder(name, day, deadline_remind, k as i32),
        ) by {
            assert(lists[k] + Seq::new(0, |j: int| added_reminder(name, day, deadline_remind, k as i32)) =~= lists[k]);
        }
    }
}

/// An add request keeps every month's reminders as they were, in front,
/// and appends, for each time the month's index occurs in the request, a
/// reminder that carries the request's name, its day cut to a byte, the
/// month index, no check mark, and the request's deadline unchanged.
pub proof fn lemma_add_new_reminders(
    lists: Seq<Seq<ReminderView>>,
    name: Seq<char>,
    day: i32,
    deadline_remind: i32,
    months: Seq<i32>,
)
    requires
        months_in_range(months, lists.len() as int),
    ensures
        with_added(lists, name, day, deadline_remind, months).len() == lists.len(),
        forall|k: int| 0 <= k < lists.len() ==> {
            let new = #[trigger] with_added(lists, name, day, deadline_remind, months)[k];
            &&& new.len() == lists[k].len() + occurrences(months, k)
            &&& new.take(lists[k].len() as int) == lists[k]
            &&& forall|j: int| lists[k].len() <= j < new.len() ==> #[trigger] new[j] == ReminderView {
                name: name,
                day: day as u8,
                checked: false,
                month: (k as i32) as u8,
                deadline_remind: deadline_remind,
            }
        },
{
    lemma_add_appends_per_occurrence(lists, name, day, deadline_remind, months);
    assert forall|k: int| 0 <= k < lists.len() implies {
        let new = #[trigger] with_added(lists, name, day, deadline_remind, months)[k];
        &&& new.len() == lists[k].len() + occurrences(months, k)
        &&& new.take(lists[k].len() as int) == lists[k]
        &&& forall|j: int| lists[k].len() <= j < new.len() ==> #[trigger] new[j] == ReminderView {
            name: name,
            day: day as u8,
            checked: false,
            month: (k as i32) as u8,
            deadline_remind: deadline_remind,
        }
    } by {
        let new = with_added(lists, name, day, deadline_remind, months)[k];
        assert(new.take(lists[k].len() as int) =~= lists[k]);
    }
}

/// The number of reminders called `name` in a list.
pub open spec fn count_named(s: Seq<ReminderView>, name: Seq<char>) -> nat
    decreases s.len(),
{
    if s.len() == 0 {
        0
    } else {
        count_named(s.drop_last(), name) + if s.last().name == name { 1nat } else { 0nat }
    }
}

/// The number of times reminder `r` occurs in a list.
pub open spec fn count_of(s: Seq<ReminderView>, r: ReminderView) -> nat
    decreases s.len(),
{
    if s.len() == 0 {
        0
    } else {
        count_of(s.drop_last(), r) + if s.last() == r { 1nat } else { 0nat }
    }
}

/// Removing a name from a list made of two parts removes it from each part:
/// the kept reminders of the first part come before those of the second.
pub proof fn lemma_without_name_concat(s1: Seq<ReminderView>, s2: Seq<ReminderView>, name: Seq<char>)
    ensures
        without_name(s1 + s2, name) == without_name(s1, name) + without_name(s2, name),
    decreases s2.len(),
{
    if s2.len() == 0 {
        assert(s1 + s2 =~= s1);
        assert(without_name(s1, name) + without_name(s2, name) =~= without_name(s1, name));
    } else {
        lemma_without_name_concat(s1, s2.drop_last(), name);
        assert((s1 + s2).drop_last() =~= s1 + s2.drop_last());
        assert((s1 + s2).last() == s2.last());
        let a = without_name(s1, name);
        let b = without_name(s2.drop_last(), name);
        if s2.last().name != name {
            assert((a + b).push(s2.last()) =~= a + b.push(s2.last()));
        }
    }
}

/// Removing a name from a list of one reminder removes that reminder
/// exactly when it has the name.
pub proof fn lemma_without_name_single(r: ReminderView, name: Seq<char>)
    ensures
        without_name(seq![r], name) == if r.name == name { Seq::<ReminderView>::empty() } else { seq![r] },
{
    reveal_with_fuel(without_name, 2);
    assert(seq![r].drop_last() =~= Seq::<ReminderView>::empty());
    assert(seq![r].last() == r);
    assert(Seq::<ReminderView>::empty().push(r) =~= seq![r]);
}

/// Removing a name keeps every other reminder as many times as it occurred
/// and keeps none with the name; the list shrinks by exactly the number of
/// reminders with the name.
pub proof fn lemma_without_name_counts(s: Seq<ReminderView>, name: Seq<char>, r: ReminderView)
    ensures
        count_of(without_name(s, name), r) == if r.name == name { 0 } else { count_of(s, r) },
        without_name(s, name).len() == s.len() - count_named(s, name),
    decreases s.len(),
{
    if s.len() > 0 {
        lemma_without_name_counts(s.drop_last(), name, r);
        let w = without_name(s.drop_last(), name);
        if s.last().name != name {
            assert(w.push(s.last()).drop_last() =~= w);
        }
    }
}

/// After a delete request, each month's list is the old list without the
/// reminders of that name: every other reminder is kept as many times as it
/// occurred, and the list shrinks by exactly the number of reminders with
/// the name.
pub proof fn lemma_delete_keeps_others_counted(d: RemindersView, name: Seq<char>, r: ReminderView)
    ensures
        forall|i: int| 0 <= i < d.months_reminders.len() ==> {
            &&& count_of(#[trigger] deleted(d, name).months_reminders[i], r) == if r.name == name {
                0
            } else {
                count_of(d.months_reminders[i], r)
            }
            &&& deleted(d, name).months_reminders[i].len() == d.months_reminders[i].len() - count_named(
                d.months_reminders[i],
                name,
            )
        },
{
    assert forall|i: int| 0 <= i < d.months_reminders.len() implies {
        &&& count_of(#[trigger] deleted(d, name).months_reminders[i], r) == if r.name == name {
            0
        } else {
            count_of(d.months_reminders[i], r)
        }
        &&& deleted(d, name).months_reminders[i].len() == d.months_reminders[i].len() - count_named(
            d.months_reminders[i],
            name,
        )
    } by {
        lemma_without_name_counts(d.months_reminders[i], name, r);
    }
}

} // verus!
