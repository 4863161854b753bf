use vstd::prelude::*;
use vstd::string::{StrSliceExecFns, StringExecFns};

use crate::text::{
    push_char, push_dec, push_two_digits, push_four_digits, spec_dec, spec_two_digits,
    spec_four_digits,
};

verus! {

/// A calendar date with a time of day, minute precision, no time zone:
/// the optional deadline of a task.
#[derive(Clone, Copy, Debug, PartialEq, Eq, Structural)]
pub struct DueDate {
    pub year: u32,
    pub month: u32,
    pub day: u32,
    pub hour: u32,
    pub minute: u32,
}

/// Whether `year` is a leap year of the proleptic Gregorian calendar.
pub open spec fn spec_is_leap_year(year: int) -> bool {
    year % 4 == 0 && (year % 100 != 0 || year % 400 == 0)
}

/// Number of days of `month` in `year`.
pub open spec fn spec_days_in_month(year: int, month: int) -> int {
    if month == 2 {
        if spec_is_leap_year(year) {
            29
        } else {
            28
        }
    } else if month == 4 || month == 6 || month == 9 || month == 11 {
        30
    } else {
        31
    }
}

impl DueDate {
    /// A real calendar date that the four-digit year rendering can hold.
    pub open spec fn wf(self) -> bool {
        &&& self.year <= 9999
        &&& 1 <= self.month <= 12
        &&& 1 <= self.day <= spec_days_in_month(self.year as int, self.month as int)
        &&& self.hour < 24
        &&& self.minute < 60
    }
}

/// One recorded task.
#[derive(Debug, PartialEq, Eq)]
pub struct Task {
    pub description: String,
    pub urgent: bool,
    pub due_date: Option<DueDate>,
}

/// The mathematical value of a task: its description as a sequence of
/// characters, the urgency flag, and the optional due date.
pub ghost struct TaskView {
    pub description: Seq<char>,
    pub urgent: bool,
    pub due_date: Option<DueDate>,
}

impl TaskView {
    /// The due date, if any, is a real calendar date.
    pub open spec fn wf(self) -> bool {
        match self.due_date {
            Some(d) => d.wf(),
            None => true,
        }
    }
}

impl View for Task {
    type V = TaskView;

    open spec fn view(&self) -> TaskView {
        TaskView { description: self.description@, urgent: self.urgent, due_date: self.due_date }
    }
}

/// The values of a whole task list.
pub open spec fn views_of(ts: Seq<Task>) -> Seq<TaskView> {
    ts.map_values(|t: Task| t@)
}

/// Every task of the list has a well-formed due date.
pub open spec fn all_wf(ts: Seq<TaskView>) -> bool {
    forall|i: int| 0 <= i < ts.len() ==> (#[trigger] ts[i]).wf()
}

/// `YYYY-MM-DD HH:MM`: the store and export rendering of a due date.
pub open spec fn spec_due_text(d: DueDate) -> Seq<char> {
    spec_four_digits(d.year as int) + seq!['-'] + spec_two_digits(d.month as int) + seq!['-']
        + spec_two_digits(d.day as int) + seq![' '] + spec_two_digits(d.hour as int) + seq![':']
        + spec_two_digits(d.minute as int)
}

/// `YYYY-MM-DD @ HH:MM`: the display rendering of a due date.
pub open spec fn spec_due_display(d: DueDate) -> Seq<char> {
    spec_four_digits(d.year as int) + seq!['-'] + spec_two_digits(d.month as int) + seq!['-']
        + spec_two_digits(d.day as int) + seq![' ', '@', ' '] + spec_two_digits(d.hour as int)
        + seq![':'] + spec_two_digits(d.minute as int)
}

/// Appends `YYYY-MM-DD HH:MM` for `d`.
pub fn push_due_text(out: &mut String, d: &DueDate)
    requires
        d.wf(),
    ensures
        final(out)@ == old(out)@ + spec_due_text(*d),
{
    push_four_digits(out, d.year);
    push_char(out, '-');
    push_two_digits(out, d.month);
    push_char(out, '-');
    push_two_digits(out, d.day);
    push_char(out, ' ');
    push_two_digits(out, d.hour);
    push_char(out, ':');
    push_two_digits(out, d.minute);
    assert(out@ =~= old(out)@ + spec_due_text(*d));
}

/// The export rendering of a due date, as its own text.
pub fn due_text(d: &DueDate) -> (r: String)
    requires
        d.wf(),
    ensures
        r@ == spec_due_text(*d),
{
    let mut out = String::new();
    push_due_text(&mut out, d);
    out
}

/// The display rendering of a due date, as its own text.
pub fn due_display(d: &DueDate) -> (r: String)
    requires
        d.wf(),
    ensures
        r@ == spec_due_display(*d),
{
    let mut out = String::new();
    push_four_digits(&mut out, d.year);
    push_char(&mut out, '-');
    push_two_digits(&mut out, d.month);
    push_char(&mut out, '-');
    push_two_digits(&mut out, d.day);
    push_char(&mut out, ' ');
    push_char(&mut out, '@');
    push_char(&mut out, ' ');
    push_two_digits(&mut out, d.hour);
    push_char(&mut out, ':');
    push_two_digits(&mut out, d.minute);
    assert(out@ =~= spec_due_display(*d));
    out
}

/// A decimal digit, by code point.
pub open spec fn spec_is_digit(c: char) -> bool {
    48 <= c as int <= 57
}

/// The value of a decimal digit character.
pub open spec fn spec_digit_val(c: char) -> int {
    c as int - 48
}

/// The number read from two digit characters.
pub open spec fn spec_two_val(s: Seq<char>, i: int) -> int {
    spec_digit_val(s[i]) * 10 + spec_digit_val(s[i + 1])
}

/// The number read from four digit characters.
pub open spec fn spec_four_val(s: Seq<char>, i: int) -> int {
    spec_two_val(s, i) * 100 + spec_two_val(s, i + 2)
}

/// What `parse_due` accepts: exactly `YYYY-MM-DD HH:MM`, all five fields
/// numeric, naming a real calendar date and time of day.
pub open spec fn spec_parse_due(s: Seq<char>) -> Option<DueDate> {
    if s.len() == 16 && spec_is_digit(s[0]) && spec_is_digit(s[1]) && spec_is_digit(s[2])
        && spec_is_digit(s[3]) && s[4] == '-' && spec_is_digit(s[5]) && spec_is_digit(s[6])
        && s[7] == '-' && spec_is_digit(s[8]) && spec_is_digit(s[9]) && s[10] == ' '
        && spec_is_digit(s[11]) && spec_is_digit(s[12]) && s[13] == ':' && spec_is_digit(s[14])
        && spec_is_digit(s[15]) {
        let d = DueDate {
            year: spec_four_val(s, 0) as u32,
            month: spec_two_val(s, 5) as u32,
            day: spec_two_val(s, 8) as u32,
            hour: spec_two_val(s, 11) as u32,
            minute: spec_two_val(s, 14) as u32,
        };
        if d.wf() {
            Some(d)
        } else {
            None
        }
    } else {
        None
    }
}

/// Reads one digit character, if `i` is in range and holds one.
fn read_digit(s: &str, n: usize, i: usize) -> (r: Option<u32>)
    requires
        n == s@.len(),
    ensures
        match r {
            Some(v) => i < s@.len() && spec_is_digit(s@[i as int]) && v == spec_digit_val(
                s@[i as int],
            ),
            None => !(i < s@.len() && spec_is_digit(s@[i as int])),
        },
{
    if i >= n {
        return None;
    }
    let c: u32 = s.get_char(i) as u32;
    if 48 <= c && c <= 57 {
        Some(c - 48)
    } else {
        None
    }
}

/// Reads two digit characters as a number.
fn read_two(s: &str, n: usize, i: usize) -> (r: Option<u32>)
    requires
        n == s@.len(),
        i + 1 < usize::MAX,
    ensures
        match r {
            Some(v) => i + 1 < s@.len() && spec_is_digit(s@[i as int]) && spec_is_digit(
                s@[i + 1],
            ) && v == spec_two_val(s@, i as int) && v < 100,
            None => !(i + 1 < s@.len() && spec_is_digit(s@[i as int]) && spec_is_digit(s@[i + 1])),
        },
{
    let a = read_digit(s, n, i);
    let b = read_digit(s, n, i + 1);
    match (a, b) {
        (Some(x), Some(y)) => Some(x * 10 + y),
        _ => None,
    }
}

/// Whether `c` stands at position `i`.
fn char_at_is(s: &str, n: usize, i: usize, c: char) -> (r: bool)
    requires
        n == s@.len(),
    ensures
        r == (i < s@.len() && s@[i as int] == c),
{
    i < n && s.get_char(i) == c
}

/// Number of days of `month` in `year`.
pub fn days_in_month(year: u32, month: u32) -> (r: u32)
    ensures
        r == spec_days_in_month(year as int, month as int),
{
    if month == 2 {
        if year % 4 == 0 && (year % 100 != 0 || year % 400 == 0) {
            29
        } else {
            28
        }
    } else if month == 4 || month == 6 || month == 9 || month == 11 {
        30
    } else {
        31
    }
}

/// Parses a due date out of `YYYY-MM-DD HH:MM` text. Returns `None` on
/// any other shape, and on a date that the calendar does not contain.
pub fn parse_due(s: &str) -> (r: Option<DueDate>)
    ensures
        r == spec_parse_due(s@),
{
    let n: usize = s.unicode_len();
    if n != 16 {
        return None;
    }
    let y_hi = read_two(s, n, 0);
    let y_lo = read_two(s, n, 2);
    let mo = read_two(s, n, 5);
    let dy = read_two(s, n, 8);
    let hr = read_two(s, n, 11);
    let mi = read_two(s, n, 14);
    if !(char_at_is(s, n, 4, '-') && char_at_is(s, n, 7, '-') && char_at_is(s, n, 10, ' ')
        && char_at_is(s, n, 13, ':')) {
        return None;
    }
    match (y_hi, y_lo, mo, dy, hr, mi) {
        (Some(yh), Some(yl), Some(mo), Some(dy), Some(hr), Some(mi)) => {
            let year: u32 = yh * 100 + yl;
            let d = DueDate { year, month: mo, day: dy, hour: hr, minute: mi };
            assert(year == spec_four_val(s@, 0));
            if 1 <= mo && mo <= 12 && 1 <= dy && dy <= days_in_month(year, mo) && hr < 24 && mi
                < 60 {
                assert(d.wf());
                Some(d)
            } else {
                assert(!d.wf());
                None
            }
        },
        _ => None,
    }
}

/// Whether a due date names a real calendar date and time of day.
pub fn due_valid(d: &DueDate) -> (r: bool)
    ensures
        r == d.wf(),
{
    d.year <= 9999 && 1 <= d.month && d.month <= 12 && 1 <= d.day && d.day <= days_in_month(
        d.year,
        d.month,
    ) && d.hour < 24 && d.minute < 60
}

/// Whether a task's due date, if any, is well formed.
pub fn task_wf(t: &Task) -> (r: bool)
    ensures
        r == t@.wf(),
{
    match &t.due_date {
        None => true,
        Some(d) => due_valid(d),
    }
}

/// Removes the task with 1-based index `index`. Index `0` and indices
/// beyond the end of the list are invalid: the list is left unchanged
/// and `None` says so. A valid index removes exactly that task; later
/// tasks shift down by one place.
pub fn remove_task(tasks: &mut Vec<Task>, index: usize) -> (r: Option<Task>)
    ensures
        (index == 0 || index > old(tasks).len()) ==> final(tasks)@ == old(tasks)@ && r is None,
        (1 <= index <= old(tasks).len()) ==> final(tasks)@ == old(tasks)@.remove(index - 1)
            && (match r {
            Some(t) => t == old(tasks)@[index - 1],
            None => false,
        }),
{
    if index == 0 || index > tasks.len() {
        None
    } else {
        Some(tasks.remove(index - 1))
    }
}

/// The line that the list command shows for the task at 1-based
/// position `index`.
pub open spec fn spec_display_line(index: nat, t: TaskView) -> Seq<char> {
    spec_dec(index) + ": "@ + t.description + " "@ + (if t.urgent {
        "[URGENT]"@
    } else {
        Seq::<char>::empty()
    }) + (match t.due_date {
        Some(d) => " [Due: "@ + spec_due_display(d) + "]"@,
        None => Seq::<char>::empty(),
    })
}

/// Renders one task for the list command.
pub fn display_line(index: usize, t: &Task) -> (r: String)
    requires
        t@.wf(),
    ensures
        r@ == spec_display_line(index as nat, t@),
{
    let mut out = String::new();
    push_dec(&mut out, index);
    out.append(": ");
    out.append(t.description.as_str());
    out.append(" ");
    if t.urgent {
        out.append("[URGENT]");
    }
    match &t.due_date {
        Some(d) => {
            out.append(" [Due: ");
            let shown = due_display(d);
            out.append(shown.as_str());
            out.append("]");
        },
        None => {},
    }
    assert(out@ =~= spec_display_line(index as nat, t@));
    out
}

/// The three export columns of a task: description, urgency as `true`
/// or `false`, due date as `YYYY-MM-DD HH:MM` or empty.
pub fn export_fields(t: &Task) -> (r: (String, String, String))
    requires
        t@.wf(),
    ensures
        r.0@ == t@.description,
        r.1@ == (if t@.urgent {
            "true"@
        } else {
            "false"@
        }),
        r.2@ == (match t@.due_date {
            Some(d) => spec_due_text(d),
            None => Seq::<char>::empty(),
        }),
{
    let description = t.description.clone();
    let urgent = if t.urgent {
        String::from_str("true")
    } else {
        String::from_str("false")
    };
    let due = match &t.due_date {
        Some(d) => due_text(d),
        None => String::new(),
    };
    (description, urgent, due)
}

} // verus!
