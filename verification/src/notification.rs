//! The text of the server's notification reply: the unchecked reminders
//! that fall due today, after their early-warning deadline is subtracted.
use vstd::prelude::*;

use crate::calendar::{days_in_month, get_days_from_month, month_span_defined, MAX_YEAR, MIN_YEAR};
use crate::reminders::{ReminderView, RemindersData, RemindersView};
use crate::text::{decimal, push_decimal};

verus! {

/// Whether the server counts back into the previous month: the deadline,
/// read as an unsigned 32-bit number, exceeds the day.
pub open spec fn counts_back(r: ReminderView) -> bool {
    (r.day as u32) < (r.deadline_remind as u32)
}

/// The day of the month on which the reminder is announced.
pub open spec fn due_day(r: ReminderView, year: int) -> int {
    if counts_back(r) {
        days_in_month(year, r.month as int) + (r.day - r.deadline_remind)
    } else {
        r.day - r.deadline_remind
    }
}

/// The month (counted from 1) in which the reminder is announced. A
/// reminder is stored under its month index counted from 0, so this is the
/// month of the reminder, or the one before it when `counts_back` holds.
pub open spec fn due_month(r: ReminderView) -> int {
    if counts_back(r) { r.month as int } else { r.month + 1 }
}

/// Whether the server can compute the announcement date of a reminder in
/// `year` without an arithmetic overflow and without asking chrono for a
/// month that it cannot hold.
pub open spec fn due_date_defined(r: ReminderView, year: int) -> bool {
    &&& r.month < 255
    &&& r.day - r.deadline_remind <= i32::MAX
    &&& counts_back(r) ==> month_span_defined(year, r.month as int) && due_day(r, year) <= i32::MAX
}

/// Whether the reminder is announced on day `day` of month `month` (counted
/// from 1): it is unchecked and its announcement date, read as unsigned
/// numbers, is that day.
pub open spec fn is_due(r: ReminderView, year: int, month: u32, day: u32) -> bool {
    &&& !r.checked
    &&& month as int == due_month(r)
    &&& day == ((due_day(r, year) as i32) as u32)
}

/// The line of the reply for one reminder: `"{name} : {month name} {day}, "`.
pub open spec fn entry_text(r: ReminderView, names: Seq<Seq<char>>) -> Seq<char> {
    r.name + seq![' ', ':', ' '] + names[r.month as int] + seq![' '] + decimal(r.day as nat) + seq![',', ' ']
}

/// The lines of the reminders of one list that are due, in their order.
pub open spec fn list_text(s: Seq<ReminderView>, names: Seq<Seq<char>>, year: int, month: u32, day: u32) -> Seq<char>
    decreases s.len(),
{
    if s.len() == 0 {
        Seq::empty()
    } else {
        list_text(s.drop_last(), names, year, month, day) + if is_due(s.last(), year, month, day) {
            entry_text(s.last(), names)
        } else {
            Seq::empty()
        }
    }
}

/// The lines of all due reminders, month list after month list.
pub open spec fn months_text(
    lists: Seq<Seq<ReminderView>>,
    names: Seq<Seq<char>>,
    year: int,
    month: u32,
    day: u32,
) -> Seq<char>
    decreases lists.len(),
{
    if lists.len() == 0 {
        Seq::empty()
    } else {
        months_text(lists.drop_last(), names, year, month, day) + list_text(lists.last(), names, year, month, day)
    }
}

/// The reply of the notification request on day `day` of month `month` of `year`.
pub open spec fn notification_text(d: RemindersView, year: int, month: u32, day: u32) -> Seq<char> {
    months_text(d.months_reminders, d.months_names, year, month, day)
}

/// Whether the reply can be computed: every unchecked reminder has an
/// announcement date, and every due reminder's month has a name.
pub open spec fn notification_defined(d: RemindersView, year: int, month: u32, day: u32) -> bool {
    forall|i: int, j: int|
        0 <= i < d.months_reminders.len() && 0 <= j < d.months_reminders[i].len() ==> {
            let r = #[trigger] d.months_reminders[i][j];
            &&& !r.checked ==> due_date_defined(r, year)
            &&& is_due(r, year, month, day) ==> (r.month as int) < d.months_names.len()
        }
}

fn due_date(day: u8, month: u8, deadline_remind: i32, year: i32) -> (res: (i32, u8))
    requires
        due_date_defined(
            ReminderView { name: Seq::empty(), day: day, checked: false, month: month, deadline_remind: deadline_remind },
            year as int,
        ),
    ensures
        ({
            let r = ReminderView { name: Seq::empty(), day: day, checked: false, month: month, deadline_remind: deadline_remind };
            res.0 as int == due_day(r, year as int) && res.1 as int == due_month(r)
        }),
{
    let diff: i32 = day as i32 - deadline_remind;
    if (day as u32).checked_sub(deadline_remind as u32).is_none() {
        let days = get_days_from_month(year, (month + 1) as u32 - 1);
        (days as i32 + diff, month)
    } else {
        (diff, month + 1)
    }
}

/// The notification reply: for each unchecked reminder, month list after
/// month list, whose announcement date is today, the line
/// `"{name} : {month name} {day}, "`.
pub fn notification_info(data: &RemindersData, year: i32, month: u32, day: u32) -> (response: String)
    requires
        notification_defined(data@, year as int, month, day),
    ensures
        response@ == notification_text(data@, year as int, month, day),
{
    let ghost d = data@;
    let mut response = String::new();
    let n = data.months_reminders.len();
    let mut i: usize = 0;
    while i < n
        invariant
            0 <= i <= n,
            n == d.months_reminders.len(),
            d == data@,
            notification_defined(d, year as int, month, day),
            response@ == months_text(d.months_reminders.take(i as int), d.months_names, year as int, month, day),
        decreases n - i,
    {
        let row = &data.months_reminders[i];
        let ghost s = d.months_reminders[i as int];
        let m = row.len();
        let mut j: usize = 0;
        while j < m
            invariant
                0 <= j <= m,
                i < n,
                n == d.months_reminders.len(),
                d == data@,
                s == d.months_reminders[i as int],
                m == s.len(),
                row == data.months_reminders@[i as int],
                notification_defined(d, year as int, month, day),
                response@ == months_text(d.months_reminders.take(i as int), d.months_names, year as int, month, day)
                    + list_text(s.take(j as int), d.months_names, year as int, month, day),
            decreases m - j,
        {
            let r = &row[j];
            let ghost rv = s[j as int];
            assert(r@ == rv);
            assert(s.take(j as int + 1).drop_last() =~= s.take(j as int));
            let ghost before = response@;
            if !r.checked {
                let (due_d, due_m) = due_date(r.day, r.month, r.deadline_remind, year);
                if day == due_d as u32 && month == due_m as u32 {
                    assert(is_due(rv, year as int, month, day));
                    let name_of_month = &data.months_names[r.month as usize];
                    response.append(r.name.as_str());
                    proof { reveal_strlit(" : "); }
                    response.append(" : ");
                    response.append(name_of_month.as_str());
                    proof { reveal_strlit(" "); }
                    response.append(" ");
                    push_decimal(&mut response, r.day);
                    proof { reveal_strlit(", "); }
                    response.append(", ");
                    assert(response@ =~= before + entry_text(rv, d.months_names));
                } else {
                    assert(!is_due(rv, year as int, month, day));
                }
            }
            j += 1;
        }
        assert(s.take(m as int) =~= s);
        assert(d.months_reminders.take(i as int + 1).drop_last() =~= d.months_reminders.take(i as int));
        i += 1;
    }
    assert(d.months_reminders.take(n as int) =~= d.months_reminders);
    response
}

/// Whether the reply can be computed for this data and date; the server
/// tests this before it computes the reply.
pub fn notification_is_defined(data: &RemindersData, year: i32, month: u32, day: u32) -> (ok: bool)
    ensures
        ok == notification_defined(data@, year as int, month, day),
{
    let ghost d = data@;
    let n = data.months_reminders.len();
    let mut i: usize = 0;
    while i < n
        invariant
            0 <= i <= n,
            n == d.months_reminders.len(),
            d == data@,
            forall|a: int, b: int|
                0 <= a < i && 0 <= b < d.months_reminders[a].len() ==> {
                    let r = #[trigger] d.months_reminders[a][b];
                    &&& !r.checked ==> due_date_defined(r, year as int)
                    &&& is_due(r, year as int, month, day) ==> (r.month as int) < d.months_names.len()
                },
        decreases n - i,
    {
        let row = &data.months_reminders[i];
        let m = row.len();
        let mut j: usize = 0;
        while j < m
            invariant
                0 <= j <= m,
                i < n,
                n == d.months_reminders.len(),
                d == data@,
                m == d.months_reminders[i as int].len(),
                row == data.months_reminders@[i as int],
                forall|a: int, b: int|
                    0 <= a < i && 0 <= b < d.months_reminders[a].len() ==> {
                        let r = #[trigger] d.months_reminders[a][b];
                        &&& !r.checked ==> due_date_defined(r, year as int)
                        &&& is_due(r, year as int, month, day) ==> (r.month as int) < d.months_names.len()
                    },
                forall|b: int|
                    0 <= b < j ==> {
                        let r = #[trigger] d.months_reminders[i as int][b];
                        &&& !r.checked ==> due_date_defined(r, year as int)
                        &&& is_due(r, year as int, month, day) ==> (r.month as int) < d.months_names.len()
                    },
            decreases m - j,
        {
            let r = &row[j];
            let ghost rv = d.months_reminders[i as int][j as int];
            assert(r@ == rv);
            if !r.checked {
                if r.month == 255 {
                    return false;
                }
                let diff: i64 = r.day as i64 - r.deadline_remind as i64;
                if diff > i32::MAX as i64 {
                    return false;
                }
                if (r.day as u32) < (r.deadline_remind as u32) {
                    if !(1 <= r.month && r.month <= 12 && MIN_YEAR <= year && year <= MAX_YEAR && (r.month
                        != 12 || year < MAX_YEAR)) {
                        return false;
                    }
                    let days = get_days_from_month(year, r.month as u32);
                    if days + diff > i32::MAX as i64 {
                        return false;
                    }
                }
                assert(due_date_defined(rv, year as int));
                let (due_d, due_m) = due_date(r.day, r.month, r.deadline_remind, year);
                if day == due_d as u32 && month == due_m as u32 && r.month as usize >= data.months_names.len() {
                    assert(is_due(rv, year as int, month, day));
                    return false;
                }
            }
            j += 1;
        }
        i += 1;
    }
    true
}

/// When every reminder is checked, the reply is empty.
pub proof fn lemma_all_checked_silent(d: RemindersView, year: int, month: u32, day: u32)
    requires
        forall|i: int, j: int|
            0 <= i < d.months_reminders.len() && 0 <= j < d.months_reminders[i].len() ==> (#[trigger] d.months_reminders[i][j]).checked,
    ensures
        notification_text(d, year, month, day) == Seq::<char>::empty(),
{
    lemma_months_text_all_checked(d.months_reminders, d.months_names, year, month, day);
}

proof fn lemma_list_text_all_checked(s: Seq<ReminderView>, names: Seq<Seq<char>>, year: int, month: u32, day: u32)
    requires
        forall|j: int| 0 <= j < s.len() ==> (#[trigger] s[j]).checked,
    ensures
        list_text(s, names, year, month, day) == Seq::<char>::empty(),
    decreases s.len(),
{
    if s.len() > 0 {
        let p = s.drop_last();
        assert forall|j: int| 0 <= j < p.len() implies (#[trigger] p[j]).checked by {
            assert(p[j] == s[j]);
        }
        lemma_list_text_all_checked(p, names, year, month, day);
        assert(s[s.len() - 1].checked);
        assert(list_text(s, names, year, month, day) =~= Seq::<char>::empty());
    }
}

proof fn lemma_months_text_all_checked(
    lists: Seq<Seq<ReminderView>>,
    names: Seq<Seq<char>>,
    year: int,
    month: u32,
    day: u32,
)
    requires
        forall|i: int, j: int| 0 <= i < lists.len() && 0 <= j < lists[i].len() ==> (#[trigger] lists[i][j]).checked,
    ensures
        months_text(lists, names, year, month, day) == Seq::<char>::empty(),
    decreases lists.len(),
{
    if lists.len() > 0 {
        let p = lists.drop_last();
        assert forall|i: int, j: int| 0 <= i < p.len() && 0 <= j < p[i].len() implies (#[trigger] p[i][j]).checked by {
            assert(p[i] == lists[i]);
        }
        lemma_months_text_all_checked(p, names, year, month, day);
        let l = lists.last();
        assert forall|j: int| 0 <= j < l.len() implies (#[trigger] l[j]).checked by {
            assert(lists[lists.len() - 1][j] == l[j]);
        }
        lemma_list_text_all_checked(l, names, year, month, day);
        assert(months_text(lists, names, year, month, day) =~= Seq::<char>::empty());
    }
}

/// A reminder whose deadline is 0 is announced on its own day: day `day`
/// of the month after index `month`, which is its month counted from 1.
pub proof fn lemma_zero_deadline_due_on_its_day(r: ReminderView, year: int)
    requires
        r.deadline_remind == 0,
    ensures
        !counts_back(r),
        due_day(r, year) == r.day as int,
        due_month(r) == r.month as int + 1,
{
}

/// A reminder whose deadline lies between 0 and its day is announced that
/// many days before its day, in its own month.
pub proof fn lemma_deadline_within_month(r: ReminderView, year: int)
    requires
        0 <= r.deadline_remind <= r.day,
    ensures
        due_day(r, year) == r.day - r.deadline_remind,
        due_month(r) == r.month as int + 1,
{
}

/// A reminder whose deadline is positive and exceeds its day is announced
/// in the month before, counted back from the end of that month.
pub proof fn lemma_deadline_into_previous_month(r: ReminderView, year: int)
    requires
        r.deadline_remind > r.day,
    ensures
        due_day(r, year) == days_in_month(year, r.month as int) + r.day - r.deadline_remind,
        due_month(r) == r.month as int,
{
}

/// The reply for a list made of two parts is the reply for the first part
/// followed by the reply for the second: every due reminder contributes its
/// line, in list order, whatever lines came before it.
pub proof fn lemma_list_text_concat(
    s1: Seq<ReminderView>,
    s2: Seq<ReminderView>,
    names: Seq<Seq<char>>,
    year: int,
    month: u32,
    day: u32,
)
    ensures
        list_text(s1 + s2, names, year, month, day) == list_text(s1, names, year, month, day) + list_text(
            s2,
            names,
            year,
            month,
            day,
        ),
    decreases s2.len(),
{
    if s2.len() == 0 {
        assert(s1 + s2 =~= s1);
        assert(list_text(s1, names, year, month, day) + Seq::<char>::empty() =~= list_text(s1, names, year, month, day));
    } else {
        lemma_list_text_concat(s1, s2.drop_last(), names, year, month, day);
        assert((s1 + s2).drop_last() =~= s1 + s2.drop_last());
        assert((s1 + s2).last() == s2.last());
        let a = list_text(s1, names, year, month, day);
        let b = list_text(s2.drop_last(), names, year, month, day);
        let c = if is_due(s2.last(), year, month, day) { entry_text(s2.last(), names) } else { Seq::empty() };
        assert(a + b + c =~= a + (b + c));
    }
}

/// A list of one reminder gives its line when it is due, and nothing otherwise.
pub proof fn lemma_list_text_single(r: ReminderView, names: Seq<Seq<char>>, year: int, month: u32, day: u32)
    ensures
        list_text(seq![r], names, year, month, day) == if is_due(r, year, month, day) {
            entry_text(r, names)
        } else {
            Seq::<char>::empty()
        },
{
    reveal_with_fuel(list_text, 2);
    assert(seq![r].drop_last() =~= Seq::<ReminderView>::empty());
    assert(seq![r].last() == r);
    assert(Seq::<char>::empty() + entry_text(r, names) =~= entry_text(r, names));
    assert(Seq::<char>::empty() + Seq::<char>::empty() =~= Seq::<char>::empty());
}

/// Each due reminder's line stands in the reply for its list, between the
/// reply for the reminders before it and the reply for those after it.
pub proof fn lemma_due_line_in_place(
    s: Seq<ReminderView>,
    j: int,
    names: Seq<Seq<char>>,
    year: int,
    month: u32,
    day: u32,
)
    requires
        0 <= j < s.len(),
        is_due(s[j], year, month, day),
    ensures
        list_text(s, names, year, month, day) == list_text(s.take(j), names, year, month, day) + entry_text(s[j], names)
            + list_text(s.skip(j + 1), names, year, month, day),
{
    assert(s =~= s.take(j) + seq![s[j]] + s.skip(j + 1));
    lemma_list_text_concat(s.take(j) + seq![s[j]], s.skip(j + 1), names, year, month, day);
    lemma_list_text_concat(s.take(j), seq![s[j]], names, year, month, day);
    lemma_list_text_single(s[j], names, year, month, day);
}

/// The reply for months made of two parts is the reply for the first part
/// followed by the reply for the second.
pub proof fn lemma_months_text_concat(
    l1: Seq<Seq<ReminderView>>,
    l2: Seq<Seq<ReminderView>>,
    names: Seq<Seq<char>>,
    year: int,
    month: u32,
    day: u32,
)
    ensures
        months_text(l1 + l2, names, year, month, day) == months_text(l1, names, year, month, day) + months_text(
            l2,
            names,
            year,
            month,
            day,
        ),
    decreases l2.len(),
{
    if l2.len() == 0 {
        assert(l1 + l2 =~= l1);
        assert(months_text(l1, names, year, month, day) + Seq::<char>::empty() =~= months_text(l1, names, year, month, day));
    } else {
        lemma_months_text_concat(l1, l2.drop_last(), names, year, month, day);
        assert((l1 + l2).drop_last() =~= l1 + l2.drop_last());
        assert((l1 + l2).last() == l2.last());
        let a = months_text(l1, names, year, month, day);
        let b = months_text(l2.drop_last(), names, year, month, day);
        let c = list_text(l2.last(), names, year, month, day);
        assert(a + b + c =~= a + (b + c));
    }
}

/// The reply for a single month list is that list's reply.
pub proof fn lemma_months_text_single(l: Seq<ReminderView>, names: Seq<Seq<char>>, year: int, month: u32, day: u32)
    ensures
        months_text(seq![l], names, year, month, day) == list_text(l, names, year, month, day),
{
    reveal_with_fuel(months_text, 2);
    assert(seq![l].drop_last() =~= Seq::<Seq<ReminderView>>::empty());
    assert(seq![l].last() == l);
    assert(Seq::<char>::empty() + list_text(l, names, year, month, day) =~= list_text(l, names, year, month, day));
}

/// A reminder whose deadline lies between 0 and its day, stored under a
/// month index below 255, always has an announcement date.
pub proof fn lemma_within_month_defined(r: ReminderView, year: int)
    requires
        0 <= r.deadline_remind <= r.day,
        r.month < 255,
    ensures
        due_date_defined(r, year),
        !counts_back(r),
{
}

/// A reminder whose deadline exceeds its day counts back into the month
/// before; stored under a month index from 1 to 12 and given a year that
/// chrono holds together with the next one, it always has an announcement
/// date, which lies in that earlier month.
pub proof fn lemma_counting_back_defined(r: ReminderView, year: int)
    requires
        r.deadline_remind > r.day,
        1 <= r.month <= 12,
        MIN_YEAR <= year < MAX_YEAR,
    ensures
        due_date_defined(r, year),
        counts_back(r),
        due_month(r) == r.month as int,
        due_day(r, year) == days_in_month(year, r.month as int) + r.day - r.deadline_remind,
{
}

/// The reply is defined for data in which every unchecked reminder either
/// has a deadline between 0 and its day and a month index below 255, or
/// counts back into a month from 1 to 12, in a year that chrono holds
/// together with the next one, and in which every due reminder's month has
/// a name.
pub proof fn lemma_regular_data_defined(d: RemindersView, year: int, month: u32, day: u32)
    requires
        MIN_YEAR <= year < MAX_YEAR,
        forall|i: int, j: int|
            0 <= i < d.months_reminders.len() && 0 <= j < d.months_reminders[i].len() ==> {
                let r = #[trigger] d.months_reminders[i][j];
                &&& !r.checked ==> {
                    ||| 0 <= r.deadline_remind <= r.day && r.month < 255
                    ||| r.deadline_remind > r.day && 1 <= r.month <= 12
                }
                &&& is_due(r, year, month, day) ==> (r.month as int) < d.months_names.len()
            },
    ensures
        notification_defined(d, year, month, day),
{
    assert forall|i: int, j: int|
        0 <= i < d.months_reminders.len() && 0 <= j < d.months_reminders[i].len() implies {
            let r = #[trigger] d.months_reminders[i][j];
            &&& !r.checked ==> due_date_defined(r, year)
            &&& is_due(r, year, month, day) ==> (r.month as int) < d.months_names.len()
        } by {
        let r = d.months_reminders[i][j];
        if !r.checked {
            if 0 <= r.deadline_remind <= r.day && r.month < 255 {
                lemma_within_month_defined(r, year);
            } else {
                lemma_counting_back_defined(r, year);
            }
        }
    }
}

} // verus!
