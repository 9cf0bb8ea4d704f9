//! The state behind the web form that adds a reminder: the set of chosen
//! months, the checkboxes offered for them, and the day typed in.
use vstd::prelude::*;
use std::collections::HashSet;

use crate::text::{decimal, digit_char};

verus! {

broadcast use vstd::std_specs::hash::group_hash_axioms;

/// What the form is given: the names of the months.
#[derive(Debug, Clone, PartialEq)]
pub struct FormProps {
    pub months: Vec<String>,
}

/// The add request that the form sends: the day, the name, and the set of
/// chosen month indices.
#[derive(Debug)]
pub struct ReminderAddData {
    pub day: i32,
    pub name: String,
    pub months: HashSet<i32>,
}

/// The set of chosen months after the checkbox of month `i` is clicked.
pub open spec fn toggled(s: Set<i32>, i: i32) -> Set<i32> {
    if s.contains(i) { s.remove(i) } else { s.insert(i) }
}

/// Clicking the checkbox of month `i`: a chosen month is no longer chosen,
/// and a month not chosen becomes chosen.
pub fn toggle_month(chosen: &mut HashSet<i32>, i: i32)
    ensures
        final(chosen)@ == toggled(old(chosen)@, i),
{
    if chosen.contains(&i) {
        chosen.remove(&i);
    } else {
        chosen.insert(i);
    }
}

/// Clicking a month's checkbox twice leaves the set of chosen months as it was.
pub proof fn lemma_toggle_twice(s: Set<i32>, i: i32)
    ensures
        toggled(toggled(s, i), i) == s,
{
    assert(toggled(toggled(s, i), i) =~= s);
}

/// Clicking a month's checkbox flips whether that month is chosen and
/// leaves every other month as it was.
pub proof fn lemma_toggle_flips_one(s: Set<i32>, i: i32)
    ensures
        toggled(s, i).contains(i) == !s.contains(i),
        forall|k: i32| k != i ==> (#[trigger] toggled(s, i).contains(k) == s.contains(k)),
{
}

/// The number of month checkboxes: one per month name, twelve at most.
pub open spec fn checkbox_count(n: int) -> int {
    if n < 12 { n } else { 12 }
}

/// The form offers one month checkbox per month name while there are at
/// most twelve names, every name included, and twelve checkboxes when there
/// are more.
pub proof fn lemma_checkbox_count(n: int)
    requires
        n >= 0,
    ensures
        n <= 12 ==> checkbox_count(n) == n,
        n >= 12 ==> checkbox_count(n) == 12,
        checkbox_count(n) <= n,
        checkbox_count(n) <= 12,
{
}

/// The month checkboxes of the form: the first twelve month names, each
/// with its index.
pub fn month_checkboxes(months: &Vec<String>) -> (boxes: Vec<(String, i32)>)
    ensures
        boxes@.len() == checkbox_count(months@.len() as int),
        months@.len() <= 12 ==> boxes@.len() == months@.len(),
        months@.len() >= 12 ==> boxes@.len() == 12,
        forall|k: int| 0 <= k < boxes@.len() ==> (#[trigger] boxes@[k]).0@ == months@[k]@ && boxes@[k].1 == k,
{
    let mut boxes: Vec<(String, i32)> = Vec::new();
    let n = if months.len() < 12 { months.len() } else { 12 };
    let mut k: usize = 0;
    while k < n
        invariant
            0 <= k <= n,
            n == checkbox_count(months@.len() as int),
            boxes@.len() == k,
            forall|l: int| 0 <= l < k ==> (#[trigger] boxes@[l]).0@ == months@[l]@ && boxes@[l].1 == l,
        decreases n - k,
    {
        boxes.push((months[k].clone(), k as i32));
        k += 1;
    }
    boxes
}

/// Whether a character is an ASCII decimal digit.
pub open spec fn is_digit(c: char) -> bool {
    '0' <= c && c <= '9'
}

/// The value of a character that is a decimal digit.
pub open spec fn digit_value(c: char) -> int {
    (c as int) - ('0' as int)
}

/// The value of a sequence of decimal digits, most significant first.
pub open spec fn digits_value(s: Seq<char>) -> int
    decreases s.len(),
{
    if s.len() == 0 {
        0
    } else {
        digits_value(s.drop_last()) * 10 + digit_value(s.last())
    }
}

/// Whether every character of `s` is a decimal digit.
pub open spec fn all_digits(s: Seq<char>) -> bool {
    forall|k: int| 0 <= k < s.len() ==> is_digit(#[trigger] s[k])
}

/// Whether the text starts with a sign character.
pub open spec fn has_sign(s: Seq<char>) -> bool {
    s.len() > 0 && (s[0] == '-' || s[0] == '+')
}

/// The digits of the text, after its sign if it has one.
pub open spec fn unsigned_part(s: Seq<char>) -> Seq<char> {
    if has_sign(s) { s.drop_first() } else { s }
}

/// The number that a text denotes as a signed 32-bit integer: an optional
/// `+` or `-`, then one or more decimal digits, and a value in the range of
/// `i32`; `None` for any other text.
pub open spec fn parsed_i32(s: Seq<char>) -> Option<int> {
    let body = unsigned_part(s);
    let v = if s.len() > 0 && s[0] == '-' { -digits_value(body) } else { digits_value(body) };
    if body.len() > 0 && all_digits(body) && i32::MIN <= v <= i32::MAX {
        Some(v)
    } else {
        None
    }
}

proof fn lemma_digits_value_grows(s: Seq<char>, k: int)
    requires
        all_digits(s),
        0 <= k <= s.len(),
    ensures
        0 <= digits_value(s.take(k)) <= digits_value(s),
    decreases s.len(),
{
    if s.len() > 0 {
        let p = s.drop_last();
        assert(all_digits(p)) by {
            assert forall|j: int| 0 <= j < p.len() implies is_digit(#[trigger] p[j]) by {
                assert(p[j] == s[j]);
            }
        }
        assert(is_digit(s[s.len() - 1]));
        if k == s.len() {
            assert(s.take(k) =~= s);
            lemma_digits_value_grows(p, p.len() as int);
            assert(p.take(p.len() as int) =~= p);
        } else {
            assert(s.take(k) =~= p.take(k));
            lemma_digits_value_grows(p, k);
        }
    }
}

/// The day typed into the form's day field, read as `str::parse::<i32>`
/// reads it; `None` where that parse fails.
pub fn parse_day(input: &str) -> (day: Option<i32>)
    ensures
        match day {
            Some(v) => parsed_i32(input@) == Some(v as int),
            None => parsed_i32(input@) is None,
        },
{
    let ghost t = input@;
    let len = input.unicode_len();
    let mut start: usize = 0;
    let mut negative = false;
    if len > 0 {
        let c = input.get_char(0);
        if c == '-' {
            negative = true;
            start = 1;
        } else if c == '+' {
            start = 1;
        }
    }
    let ghost body = unsigned_part(t);
    assert(body =~= t.subrange(start as int, len as int));
    if start == len {
        return None;
    }
    let mut acc: i64 = 0;
    let mut k: usize = start;
    while k < len
        invariant
            start <= k <= len,
            len == t.len(),
            body == t.subrange(start as int, len as int),
            body == unsigned_part(t),
            negative == (t.len() > 0 && t[0] == '-'),
            all_digits(body.take(k - start)),
            acc as int == digits_value(body.take(k - start)),
            0 <= acc <= 2147483648,
            t == input@,
        decreases len - k,
    {
        let c = input.get_char(k);
        assert(body[k - start] == c);
        assert(body.take(k - start + 1).drop_last() =~= body.take(k - start));
        if !('0' <= c && c <= '9') {
            assert(!all_digits(body));
            return None;
        }
        let d: i64 = (c as u32 - '0' as u32) as i64;
        acc = acc * 10 + d;
        assert(all_digits(body.take(k - start + 1))) by {
            let b = body.take(k - start + 1);
            assert forall|j: int| 0 <= j < b.len() implies is_digit(#[trigger] b[j]) by {
                if j < k - start {
                    assert(b[j] == body.take(k - start)[j]);
                }
            }
        }
        if acc > 2147483648 {
            proof {
                if all_digits(body) {
                    lemma_digits_value_grows(body, k - start + 1);
                }
            }
            return None;
        }
        k += 1;
    }
    assert(body.take(len - start) =~= body);
    if negative {
        Some((0 - acc) as i32)
    } else if acc <= 2147483647 {
        Some(acc as i32)
    } else {
        None
    }
}

proof fn lemma_digit_char_value(d: int)
    requires
        0 <= d < 10,
    ensures
        is_digit(digit_char(d)),
        digit_value(digit_char(d)) == d,
{
}

proof fn lemma_decimal_digits(n: nat)
    ensures
        decimal(n).len() > 0,
        all_digits(decimal(n)),
        digits_value(decimal(n)) == n,
    decreases n,
{
    lemma_digit_char_value((n % 10) as int);
    if n >= 10 {
        vstd::arithmetic::div_mod::lemma_fundamental_div_mod(n as int, 10);
        lemma_decimal_digits(n / 10);
        let p = decimal(n / 10);
        let d = decimal(n);
        assert(d.drop_last() =~= p);
        assert(d.last() == digit_char((n % 10) as int));
        assert(digits_value(d) == digits_value(p) * 10 + (n % 10));
        assert((n / 10) * 10 + n % 10 == n) by (nonlinear_arith)
            requires
                n == 10 * (n / 10) + n % 10,
        ;
        assert(digits_value(d) == n);
        assert forall|k: int| 0 <= k < d.len() implies is_digit(#[trigger] d[k]) by {
            if k < p.len() {
                assert(d[k] == p[k]);
            }
        }
    } else {
        let d = decimal(n);
        assert(d.drop_last() =~= Seq::<char>::empty());
        assert(d.last() == digit_char(n as int));
        lemma_digit_char_value(n as int);
        assert(digits_value(d) == digits_value(Seq::<char>::empty()) * 10 + digit_value(d.last()));
        assert(digits_value(d) == n);
    }
}

/// A day written out in decimal by the server reads back, in the form's
/// day field, as the same number.
pub proof fn lemma_decimal_parses_back(n: nat)
    requires
        n <= i32::MAX,
    ensures
        parsed_i32(decimal(n)) == Some(n as int),
{
    lemma_decimal_digits(n);
    let d = decimal(n);
    assert(is_digit(d[0]));
    assert(!has_sign(d));
    assert(unsigned_part(d) == d);
}

} // verus!
