//! Calendar dates and clock minutes as plain values, and the textual forms
//! in which the agent writes them.

use vstd::prelude::*;
use crate::text::{decimal, push_char, push_decimal_padded, push_str, zero_pad};

verus! {

/// A local calendar date.  `weekday` counts days from Monday (Monday is 0).
#[derive(Clone, Copy)]
pub struct CalendarDate {
    pub year: i32,
    pub month: u32,
    pub day: u32,
    pub weekday: u32,
}

/// A local date with a time of day to the minute.
#[derive(Clone, Copy)]
pub struct LocalMinute {
    pub date: CalendarDate,
    pub hour: u32,
    pub minute: u32,
}

impl CalendarDate {
    /// The ranges that a calendar date keeps.
    pub open spec fn wf(self) -> bool {
        &&& 1 <= self.month <= 12
        &&& 1 <= self.day <= 31
        &&& self.weekday < 7
    }
}

impl LocalMinute {
    pub open spec fn wf(self) -> bool {
        &&& self.date.wf()
        &&& self.hour < 24
        &&& self.minute < 60
    }
}

/// A number below 100 written with two digits (`%m`, `%d`, `%H`, `%M`).
pub open spec fn two_digits(n: nat) -> Seq<char> {
    zero_pad(decimal(n), 2)
}

/// The year as `%Y` writes it: four digits at least, with a sign outside
/// the years 0 to 9999.
pub open spec fn year_text(y: int) -> Seq<char> {
    if 0 <= y <= 9999 {
        zero_pad(decimal(y as nat), 4)
    } else if y < 0 {
        seq!['-'] + zero_pad(decimal((-y) as nat), 4)
    } else {
        seq!['+'] + zero_pad(decimal(y as nat), 4)
    }
}

/// The full English name of the weekday, Monday being 0 (`%A`).
pub open spec fn weekday_name(w: nat) -> Seq<char> {
    if w == 0 {
        "Monday"@
    } else if w == 1 {
        "Tuesday"@
    } else if w == 2 {
        "Wednesday"@
    } else if w == 3 {
        "Thursday"@
    } else if w == 4 {
        "Friday"@
    } else if w == 5 {
        "Saturday"@
    } else {
        "Sunday"@
    }
}

/// The names that `%A` gives the days of the week, from Monday.
pub open spec fn week_names() -> Seq<Seq<char>> {
    seq!["Monday"@, "Tuesday"@, "Wednesday"@, "Thursday"@, "Friday"@, "Saturday"@, "Sunday"@]
}

/// A weekday counted from Monday is named as in the week from Monday to
/// Sunday; the day after weekday `w` gets the next name, Sunday being
/// followed by Monday, and no two days share a name.
pub proof fn lemma_weekday_names(w: nat)
    requires
        w < 7,
    ensures
        weekday_name(w) == week_names()[w as int],
        weekday_name((w + 1) % 7) == week_names()[((w + 1) % 7) as int],
        forall|v: nat| v < 7 && v != w ==> weekday_name(v) != weekday_name(w),
{
    reveal_strlit("Monday");
    reveal_strlit("Tuesday");
    reveal_strlit("Wednesday");
    reveal_strlit("Thursday");
    reveal_strlit("Friday");
    reveal_strlit("Saturday");
    reveal_strlit("Sunday");
    assert forall|v: nat| v < 7 && v != w implies weekday_name(v) != weekday_name(w) by {
        let a = weekday_name(v);
        let b = weekday_name(w);
        if a.len() == b.len() {
            if a[0] == b[0] {
                assert(a[1] != b[1]);
            } else {
                assert(a[0] != b[0]);
            }
        }
    }
}

/// `YYYY<sep>MM<sep>DD`.
pub open spec fn date_text(d: CalendarDate, sep: char) -> Seq<char> {
    year_text(d.year as int) + seq![sep] + two_digits(d.month as nat) + seq![sep] + two_digits(
        d.day as nat,
    )
}

/// `%Y-%m-%d (%A)`, the form in which the agent shows a day.
pub open spec fn date_display(d: CalendarDate) -> Seq<char> {
    date_text(d, '-') + " ("@ + weekday_name(d.weekday as nat) + ")"@
}

/// `%Y-%m-%d %H:%M`.
pub open spec fn minute_text(t: LocalMinute) -> Seq<char> {
    date_text(t.date, '-') + seq![' '] + two_digits(t.hour as nat) + seq![':'] + two_digits(
        t.minute as nat,
    )
}

fn push_year(out: &mut String, y: i32)
    ensures
        final(out)@ == old(out)@ + year_text(y as int),
{
    if 0 <= y && y <= 9999 {
        push_decimal_padded(out, y as u64, 4);
    } else if y < 0 {
        push_char(out, '-');
        let a: i64 = -(y as i64);
        push_decimal_padded(out, a as u64, 4);
        assert(out@ =~= old(out)@ + year_text(y as int));
    } else {
        push_char(out, '+');
        push_decimal_padded(out, y as u64, 4);
        assert(out@ =~= old(out)@ + year_text(y as int));
    }
}

/// Appends `YYYY<sep>MM<sep>DD`.
pub fn push_date(out: &mut String, d: &CalendarDate, sep: char)
    ensures
        final(out)@ == old(out)@ + date_text(*d, sep),
{
    push_year(out, d.year);
    push_char(out, sep);
    push_decimal_padded(out, d.month as u64, 2);
    push_char(out, sep);
    push_decimal_padded(out, d.day as u64, 2);
    assert(out@ =~= old(out)@ + date_text(*d, sep));
}

/// `YYYY<sep>MM<sep>DD` as a new string.
pub fn format_date(d: &CalendarDate, sep: char) -> (r: String)
    ensures
        r@ == date_text(*d, sep),
{
    let mut r = String::new();
    push_date(&mut r, d, sep);
    assert(r@ =~= date_text(*d, sep));
    r
}

/// The full English name of a weekday, Monday being 0.
pub fn weekday_str(w: u32) -> (r: &'static str)
    ensures
        r@ == weekday_name(w as nat),
{
    if w == 0 {
        "Monday"
    } else if w == 1 {
        "Tuesday"
    } else if w == 2 {
        "Wednesday"
    } else if w == 3 {
        "Thursday"
    } else if w == 4 {
        "Friday"
    } else if w == 5 {
        "Saturday"
    } else {
        "Sunday"
    }
}

/// `%Y-%m-%d (%A)`.
pub fn format_date_display(d: &CalendarDate) -> (r: String)
    ensures
        r@ == date_display(*d),
{
    let mut r = String::new();
    push_date(&mut r, d, '-');
    push_str(&mut r, " (");
    push_str(&mut r, weekday_str(d.weekday));
    push_str(&mut r, ")");
    assert(r@ =~= date_display(*d));
    r
}

/// `%Y-%m-%d %H:%M`.
pub fn format_minute(t: &LocalMinute) -> (r: String)
    ensures
        r@ == minute_text(*t),
{
    let mut r = String::new();
    push_date(&mut r, &t.date, '-');
    push_char(&mut r, ' ');
    push_decimal_padded(&mut r, t.hour as u64, 2);
    push_char(&mut r, ':');
    push_decimal_padded(&mut r, t.minute as u64, 2);
    assert(r@ =~= minute_text(*t));
    r
}

} // verus!
