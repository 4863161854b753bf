//! The text codec of the store file: a task list is kept as a JSON
//! document, an array of objects with fields `description` (string),
//! `urgent` (boolean) and `due_date` (string in `YYYY-MM-DD HH:MM` form,
//! or null, or absent).
//!
//! `encode_tasks` produces the pretty-printed layout that the store is
//! always written in. `decode_tasks` reads the document back with
//! insignificant whitespace free between tokens, the fields in their
//! written order, and the `due_date` field optional, defaulting to
//! absent; anything else is reported as malformed. The tolerant load
//! policy that maps a malformed store to the empty list lives in
//! `store`, not here.
use vstd::prelude::*;

use vstd::string::{StrSliceExecFns, StringExecFns};

use crate::errors::DecodeError;
use crate::task::{
    all_wf, spec_digit_val, spec_due_text, spec_four_val, spec_is_digit, spec_parse_due,
    spec_two_val, views_of, parse_due, due_text, DueDate, Task, TaskView,
};
use vstd::arithmetic::div_mod::lemma_fundamental_div_mod;
use crate::text::{digit_char, hex_char, push_char};

verus! {

/// How one character of a description is written inside a JSON string:
/// itself, one of the short escapes, or a `\u00XX` escape for the
/// remaining control characters.
pub open spec fn spec_enc_char(c: char) -> Seq<char> {
    if c == '"' {
        seq!['\\', '"']
    } else if c == '\\' {
        seq!['\\', '\\']
    } else if c == '\u{8}' {
        seq!['\\', 'b']
    } else if c == '\t' {
        seq!['\\', 't']
    } else if c == '\n' {
        seq!['\\', 'n']
    } else if c == '\u{c}' {
        seq!['\\', 'f']
    } else if c == '\r' {
        seq!['\\', 'r']
    } else if (c as int) < 32 {
        seq!['\\', 'u', '0', '0', hex_char(c as int / 16), hex_char(c as int % 16)]
    } else {
        seq![c]
    }
}

/// The written form of a string body, character by character.
pub open spec fn spec_enc_body(s: Seq<char>) -> Seq<char>
    decreases s.len(),
{
    if s.len() == 0 {
        Seq::empty()
    } else {
        spec_enc_char(s[0]) + spec_enc_body(s.drop_first())
    }
}

/// A JSON string: quote, escaped body, quote.
pub open spec fn spec_enc_string(s: Seq<char>) -> Seq<char> {
    seq!['"'] + spec_enc_body(s) + seq!['"']
}

/// The written form of the `due_date` field value.
pub open spec fn spec_enc_due(d: Option<DueDate>) -> Seq<char> {
    match d {
        None => "null"@,
        Some(dd) => spec_enc_string(spec_due_text(dd)),
    }
}

/// The indentation written before a field of a task object: a line
/// break and four spaces.
pub open spec fn ws_field() -> Seq<char> {
    seq!['\n', ' ', ' ', ' ', ' ']
}

/// The indentation written before a task object and before its
/// closing brace: a line break and two spaces.
pub open spec fn ws_line() -> Seq<char> {
    seq!['\n', ' ', ' ']
}

/// The written form of a field header: the token before it (the
/// object's opening brace or a comma), the field indentation, the
/// quoted key, a colon and one space.
pub open spec fn spec_enc_field(lead: Seq<char>, key: Seq<char>) -> Seq<char> {
    lead + ws_field() + key + ":"@ + seq![' ']
}

/// The written form of one task object, indented two levels.
pub open spec fn spec_enc_task(t: TaskView) -> Seq<char> {
    spec_enc_field("{"@, "\"description\""@) + spec_enc_string(t.description) + spec_enc_field(
        ","@,
        "\"urgent\""@,
    ) + (if t.urgent {
        "true"@
    } else {
        "false"@
    }) + spec_enc_field(","@, "\"due_date\""@) + spec_enc_due(t.due_date) + ws_line() + "}"@
}

/// The written form of everything after the first task: each further
/// task behind a separator, then the closing bracket.
pub open spec fn spec_enc_tail(ts: Seq<TaskView>) -> Seq<char>
    decreases ts.len(),
{
    if ts.len() == 0 {
        seq!['\n'] + "]"@
    } else {
        ","@ + ws_line() + spec_enc_task(ts[0]) + spec_enc_tail(ts.drop_first())
    }
}

/// The whole store document for a task list.
pub open spec fn spec_encode(ts: Seq<TaskView>) -> Seq<char> {
    if ts.len() == 0 {
        "["@ + "]"@
    } else {
        "["@ + ws_line() + spec_enc_task(ts[0]) + spec_enc_tail(ts.drop_first())
    }
}

/// Appends the written form of one description character.
fn push_enc_char(out: &mut String, c: char)
    ensures
        final(out)@ == old(out)@ + spec_enc_char(c),
{
    let v: u32 = c as u32;
    if c == '"' {
        push_char(out, '\\');
        push_char(out, '"');
    } else if c == '\\' {
        push_char(out, '\\');
        push_char(out, '\\');
    } else if c == '\u{8}' {
        push_char(out, '\\');
        push_char(out, 'b');
    } else if c == '\t' {
        push_char(out, '\\');
        push_char(out, 't');
    } else if c == '\n' {
        push_char(out, '\\');
        push_char(out, 'n');
    } else if c == '\u{c}' {
        push_char(out, '\\');
        push_char(out, 'f');
    } else if c == '\r' {
        push_char(out, '\\');
        push_char(out, 'r');
    } else if v < 32 {
        push_char(out, '\\');
        push_char(out, 'u');
        push_char(out, '0');
        push_char(out, '0');
        let hi: u32 = v / 16;
        let lo: u32 = v % 16;
        push_char(out, if hi < 10 { (48 + hi) as u8 as char } else { (87 + hi) as u8 as char });
        push_char(out, if lo < 10 { (48 + lo) as u8 as char } else { (87 + lo) as u8 as char });
    } else {
        push_char(out, c);
    }
    assert(out@ =~= old(out)@ + spec_enc_char(c));
}

/// Appends the written form of the body of `s`, from position `i` on.
fn push_enc_body_from(out: &mut String, s: &str, n: usize, i: usize)
    requires
        n == s@.len(),
        i <= n,
    ensures
        final(out)@ == old(out)@ + spec_enc_body(s@.skip(i as int)),
    decreases n - i,
{
    if i == n {
        assert(s@.skip(i as int) =~= Seq::<char>::empty());
    } else {
        let c = s.get_char(i);
        push_enc_char(out, c);
        push_enc_body_from(out, s, n, i + 1);
        proof {
            let rest = s@.skip(i as int);
            assert(rest[0] == c);
            assert(rest.drop_first() =~= s@.skip(i + 1));
            assert(out@ =~= old(out)@ + spec_enc_body(s@.skip(i as int)));
        }
    }
}

/// Appends the quoted, escaped form of `s`.
fn push_enc_string(out: &mut String, s: &str)
    ensures
        final(out)@ == old(out)@ + spec_enc_string(s@),
{
    let n: usize = s.unicode_len();
    push_char(out, '"');
    push_enc_body_from(out, s, n, 0);
    push_char(out, '"');
    proof {
        assert(s@.skip(0) =~= s@);
        assert(out@ =~= old(out)@ + spec_enc_string(s@));
    }
}

/// Appends the field indentation: a line break and four spaces.
fn push_ws_field(out: &mut String)
    ensures
        final(out)@ == old(out)@ + ws_field(),
{
    push_char(out, '\n');
    push_char(out, ' ');
    push_char(out, ' ');
    push_char(out, ' ');
    push_char(out, ' ');
    assert(out@ =~= old(out)@ + ws_field());
}

/// Appends the item indentation: a line break and two spaces.
fn push_ws_line(out: &mut String)
    ensures
        final(out)@ == old(out)@ + ws_line(),
{
    push_char(out, '\n');
    push_char(out, ' ');
    push_char(out, ' ');
    assert(out@ =~= old(out)@ + ws_line());
}

/// Appends a field header.
fn push_enc_field(out: &mut String, lead: &str, key: &str)
    ensures
        final(out)@ == old(out)@ + spec_enc_field(lead@, key@),
{
    out.append(lead);
    push_ws_field(out);
    out.append(key);
    out.append(":");
    push_char(out, ' ');
    assert(out@ =~= old(out)@ + spec_enc_field(lead@, key@));
}

/// Appends the written form of one task object.
fn push_enc_task(out: &mut String, t: &Task)
    requires
        t@.wf(),
    ensures
        final(out)@ == old(out)@ + spec_enc_task(t@),
{
    push_enc_field(out, "{", "\"description\"");
    push_enc_string(out, t.description.as_str());
    push_enc_field(out, ",", "\"urgent\"");
    if t.urgent {
        out.append("true");
    } else {
        out.append("false");
    }
    push_enc_field(out, ",", "\"due_date\"");
    match &t.due_date {
        None => {
            out.append("null");
        },
        Some(d) => {
            let txt = due_text(d);
            push_enc_string(out, txt.as_str());
        },
    }
    push_ws_line(out);
    out.append("}");
    assert(out@ =~= old(out)@ + spec_enc_task(t@));
}

/// Appends the separators, tasks and closing bracket that follow the
/// task at position `i - 1`.
fn push_enc_rest(out: &mut String, tasks: &Vec<Task>, i: usize)
    requires
        1 <= i <= tasks.len(),
        all_wf(views_of(tasks@)),
    ensures
        final(out)@ == old(out)@ + spec_enc_tail(views_of(tasks@).skip(i as int)),
    decreases tasks.len() - i,
{
    if i == tasks.len() {
        push_char(out, '\n');
        out.append("]");
        assert(views_of(tasks@).skip(i as int) =~= Seq::<TaskView>::empty());
    } else {
        out.append(",");
        push_ws_line(out);
        assert(views_of(tasks@)[i as int] == tasks@[i as int]@);
        assert(views_of(tasks@)[i as int].wf());
        push_enc_task(out, &tasks[i]);
        push_enc_rest(out, tasks, i + 1);
        proof {
            let vs = views_of(tasks@).skip(i as int);
            assert(vs[0] == views_of(tasks@)[i as int]);
            assert(vs.drop_first() =~= views_of(tasks@).skip(i + 1));
            assert(out@ =~= old(out)@ + spec_enc_tail(views_of(tasks@).skip(i as int)));
        }
    }
}

/// Writes the whole task list as the store document.
pub fn encode_tasks(tasks: &Vec<Task>) -> (r: String)
    requires
        all_wf(views_of(tasks@)),
    ensures
        r@ == spec_encode(views_of(tasks@)),
{
    if tasks.len() == 0 {
        let mut r = String::from_str("[");
        r.append("]");
        assert(views_of(tasks@).len() == 0);
        return r;
    }
    let mut out = String::from_str("[");
    push_ws_line(&mut out);
    assert(views_of(tasks@)[0] == tasks@[0]@);
    assert(views_of(tasks@)[0].wf());
    push_enc_task(&mut out, &tasks[0]);
    push_enc_rest(&mut out, tasks, 1);
    proof {
        assert(views_of(tasks@).skip(1) =~= views_of(tasks@).drop_first());
        assert(out@ =~= spec_encode(views_of(tasks@)));
    }
    out
}

// ---------------------------------------------------------------------
// The strict decoder.
// ---------------------------------------------------------------------

/// If the characters of `lit` stand at position `i`, the position just
/// after them; otherwise nothing.
pub open spec fn spec_lit_at(s: Seq<char>, i: int, lit: Seq<char>) -> Option<int> {
    if 0 <= i && i + lit.len() <= s.len() && s.subrange(i, i + lit.len()) == lit {
        Some(i + lit.len())
    } else {
        None
    }
}

/// An upper- or lower-case hexadecimal digit.
pub open spec fn spec_is_hex(c: char) -> bool {
    48 <= c as int <= 57 || 97 <= c as int <= 102 || 65 <= c as int <= 70
}

/// The value of a hexadecimal digit character.
pub open spec fn spec_hex_val(c: char) -> int {
    if 48 <= c as int <= 57 {
        c as int - 48
    } else if 97 <= c as int <= 102 {
        c as int - 87
    } else {
        c as int - 55
    }
}

/// Reads one escape sequence, positioned just after the backslash.
/// `\u` escapes are accepted in the `\u00XX` range the encoder writes.
pub open spec fn spec_parse_escape(s: Seq<char>, i: int) -> Option<(char, int)> {
    if !(0 <= i < s.len()) {
        None
    } else {
        let c = s[i];
        if c == '"' {
            Some(('"', i + 1))
        } else if c == '\\' {
            Some(('\\', i + 1))
        } else if c == '/' {
            Some(('/', i + 1))
        } else if c == 'b' {
            Some(('\u{8}', i + 1))
        } else if c == 'f' {
            Some(('\u{c}', i + 1))
        } else if c == 'n' {
            Some(('\n', i + 1))
        } else if c == 'r' {
            Some(('\r', i + 1))
        } else if c == 't' {
            Some(('\t', i + 1))
        } else if c == 'u' {
            if i + 5 <= s.len() && s[i + 1] == '0' && s[i + 2] == '0' && spec_is_hex(s[i + 3])
                && spec_is_hex(s[i + 4]) {
                Some((((spec_hex_val(s[i + 3]) * 16 + spec_hex_val(s[i + 4])) as u8) as char, i + 5))
            } else {
                None
            }
        } else {
            None
        }
    }
}

/// Reads a string body up to and over its closing quote, undoing the
/// escapes; the position starts just after the opening quote.
pub open spec fn spec_parse_body(s: Seq<char>, i: int) -> Option<(Seq<char>, int)>
    decreases s.len() - i,
{
    if !(0 <= i < s.len()) {
        None
    } else {
        let c = s[i];
        if c == '"' {
            Some((Seq::empty(), i + 1))
        } else if c == '\\' {
            match spec_parse_escape(s, i + 1) {
                None => None,
                Some((ch, j)) => if i < j && j <= s.len() {
                    match spec_parse_body(s, j) {
                        None => None,
                        Some((rest, k)) => Some((seq![ch] + rest, k)),
                    }
                } else {
                    None
                },
            }
        } else if (c as int) < 32 {
            None
        } else {
            match spec_parse_body(s, i + 1) {
                None => None,
                Some((rest, k)) => Some((seq![c] + rest, k)),
            }
        }
    }
}

/// Reads a whole JSON string at position `i`.
pub open spec fn spec_parse_string(s: Seq<char>, i: int) -> Option<(Seq<char>, int)> {
    if 0 <= i < s.len() && s[i] == '"' {
        spec_parse_body(s, i + 1)
    } else {
        None
    }
}

/// Reads `true` or `false`.
pub open spec fn spec_parse_bool(s: Seq<char>, i: int) -> Option<(bool, int)> {
    match spec_lit_at(s, i, "true"@) {
        Some(j) => Some((true, j)),
        None => match spec_lit_at(s, i, "false"@) {
            Some(j) => Some((false, j)),
            None => None,
        },
    }
}

/// Reads the `due_date` value: `null`, or a quoted due date. A quoted
/// value of any other shape fails the whole document.
pub open spec fn spec_parse_due_value(s: Seq<char>, i: int) -> Option<(Option<DueDate>, int)> {
    match spec_lit_at(s, i, "null"@) {
        Some(j) => Some((None, j)),
        None => match spec_parse_string(s, i) {
            None => None,
            Some((content, j)) => match spec_parse_due(content) {
                None => None,
                Some(d) => Some((Some(d), j)),
            },
        },
    }
}

/// Insignificant whitespace between the tokens of a store document.
pub open spec fn spec_is_ws(c: char) -> bool {
    c == ' ' || c == '\n' || c == '\t' || c == '\r'
}

/// The position of the first non-whitespace character at or after `i`.
pub open spec fn spec_skip_ws(s: Seq<char>, i: int) -> int
    decreases s.len() - i,
{
    if 0 <= i < s.len() && spec_is_ws(s[i]) {
        spec_skip_ws(s, i + 1)
    } else {
        i
    }
}

/// The next token: whitespace skipped, then the characters of `lit`.
pub open spec fn spec_tok_at(s: Seq<char>, i: int, lit: Seq<char>) -> Option<int> {
    spec_lit_at(s, spec_skip_ws(s, i), lit)
}

/// Reads one task object: braces, the fields `description` and
/// `urgent` in that order, then optionally `due_date`, whose absence
/// leaves the due date unset. Whitespace between tokens is free.
pub open spec fn spec_parse_task(s: Seq<char>, i: int) -> Option<(TaskView, int)> {
    match spec_tok_at(s, i, "{"@) {
        None => None,
        Some(j1) => match spec_tok_at(s, j1, "\"description\""@) {
            None => None,
            Some(j2) => match spec_tok_at(s, j2, ":"@) {
                None => None,
                Some(j3) => match spec_parse_string(s, spec_skip_ws(s, j3)) {
                    None => None,
                    Some((desc, j4)) => match spec_tok_at(s, j4, ","@) {
                        None => None,
                        Some(j5) => match spec_tok_at(s, j5, "\"urgent\""@) {
                            None => None,
                            Some(j6) => match spec_tok_at(s, j6, ":"@) {
                                None => None,
                                Some(j7) => match spec_parse_bool(s, spec_skip_ws(s, j7)) {
                                    None => None,
                                    Some((urgent, j8)) => spec_parse_task_end(s, desc, urgent, j8),
                                },
                            },
                        },
                    },
                },
            },
        },
    }
}

/// Reads what follows the `urgent` field of a task object: the closing
/// brace, or the optional `due_date` field and then the brace.
pub open spec fn spec_parse_task_end(s: Seq<char>, desc: Seq<char>, urgent: bool, i: int) -> Option<
    (TaskView, int),
> {
    match spec_tok_at(s, i, "}"@) {
        Some(j) => Some((TaskView { description: desc, urgent, due_date: None }, j)),
        None => match spec_tok_at(s, i, ","@) {
            None => None,
            Some(j1) => match spec_tok_at(s, j1, "\"due_date\""@) {
                None => None,
                Some(j2) => match spec_tok_at(s, j2, ":"@) {
                    None => None,
                    Some(j3) => match spec_parse_due_value(s, spec_skip_ws(s, j3)) {
                        None => None,
                        Some((due_date, j4)) => match spec_tok_at(s, j4, "}"@) {
                            None => None,
                            Some(j5) => Some((TaskView { description: desc, urgent, due_date }, j5)),
                        },
                    },
                },
            },
        },
    }
}

/// Reads what follows a task: the closing bracket, or a separator and
/// the remaining tasks.
pub open spec fn spec_parse_items(s: Seq<char>, i: int) -> Option<(Seq<TaskView>, int)>
    decreases s.len() - i,
{
    match spec_tok_at(s, i, "]"@) {
        Some(j) => Some((Seq::empty(), j)),
        None => match spec_tok_at(s, i, ","@) {
            None => None,
            Some(j) => match spec_parse_task(s, j) {
                None => None,
                Some((t, k)) => if i < k && k <= s.len() {
                    match spec_parse_items(s, k) {
                        None => None,
                        Some((rest, e)) => Some((seq![t] + rest, e)),
                    }
                } else {
                    None
                },
            },
        },
    }
}

/// The task list that a store document holds, if it is well formed:
/// an array of task objects, with free whitespace around the tokens
/// and nothing after the closing bracket.
pub open spec fn spec_decode(s: Seq<char>) -> Option<Seq<TaskView>> {
    match spec_tok_at(s, 0, "["@) {
        None => None,
        Some(j) => match spec_tok_at(s, j, "]"@) {
            Some(e) => if spec_skip_ws(s, e) == s.len() {
                Some(Seq::empty())
            } else {
                None
            },
            None => match spec_parse_task(s, j) {
                None => None,
                Some((t, k)) => match spec_parse_items(s, k) {
                    None => None,
                    Some((rest, e)) => if spec_skip_ws(s, e) == s.len() {
                        Some(seq![t] + rest)
                    } else {
                        None
                    },
                },
            },
        },
    }
}

// ---------------------------------------------------------------------
// The executable decoder, step for step the functions above.
// ---------------------------------------------------------------------

/// Whether `lit` stands at position `i` of `s`.
fn lit_at(s: &str, n: usize, i: usize, lit: &str) -> (r: Option<usize>)
    requires
        n == s@.len(),
    ensures
        match r {
            Some(j) => spec_lit_at(s@, i as int, lit@) == Some(j as int),
            None => spec_lit_at(s@, i as int, lit@) is None,
        },
{
    let m: usize = lit.unicode_len();
    if i > n || m > n - i {
        return None;
    }
    for k in 0..m
        invariant
            n == s@.len(),
            m == lit@.len(),
            i + m <= n,
            forall|q: int| 0 <= q < k ==> s@[i + q] == lit@[q],
    {
        if s.get_char(i + k) != lit.get_char(k) {
            proof {
                let ii = i as int;
                if ii + m <= s@.len() && s@.subrange(ii, ii + m as int) == lit@ {
                    assert(s@.subrange(ii, ii + m as int)[k as int] == lit@[k as int]);
                    assert(false);
                }
            }
            return None;
        }
    }
    proof {
        assert(s@.subrange(i as int, i + m) =~= lit@);
    }
    Some(i + m)
}

/// Reads one escape sequence, positioned just after the backslash.
fn parse_escape(s: &str, n: usize, i: usize) -> (r: Option<(char, usize)>)
    requires
        n == s@.len(),
    ensures
        match r {
            Some((c, j)) => spec_parse_escape(s@, i as int) == Some((c, j as int)),
            None => spec_parse_escape(s@, i as int) is None,
        },
{
    if i >= n {
        return None;
    }
    let c = s.get_char(i);
    match c {
        '"' => Some(('"', i + 1)),
        '\\' => Some(('\\', i + 1)),
        '/' => Some(('/', i + 1)),
        'b' => Some(('\u{8}', i + 1)),
        'f' => Some(('\u{c}', i + 1)),
        'n' => Some(('\n', i + 1)),
        'r' => Some(('\r', i + 1)),
        't' => Some(('\t', i + 1)),
        'u' => {
            if n - i >= 5 && s.get_char(i + 1) == '0' && s.get_char(i + 2) == '0' {
                let h1: u32 = s.get_char(i + 3) as u32;
                let h2: u32 = s.get_char(i + 4) as u32;
                let v1: u32 = if 48 <= h1 && h1 <= 57 {
                    h1 - 48
                } else if 97 <= h1 && h1 <= 102 {
                    h1 - 87
                } else if 65 <= h1 && h1 <= 70 {
                    h1 - 55
                } else {
                    return None;
                };
                let v2: u32 = if 48 <= h2 && h2 <= 57 {
                    h2 - 48
                } else if 97 <= h2 && h2 <= 102 {
                    h2 - 87
                } else if 65 <= h2 && h2 <= 70 {
                    h2 - 55
                } else {
                    return None;
                };
                Some(((v1 * 16 + v2) as u8 as char, i + 5))
            } else {
                None
            }
        },
        _ => None,
    }
}

/// Reads a string body up to and over its closing quote.
fn parse_body(s: &str, n: usize, i: usize) -> (r: Option<(String, usize)>)
    requires
        n == s@.len(),
    ensures
        match r {
            Some((d, j)) => spec_parse_body(s@, i as int) == Some((d@, j as int)),
            None => spec_parse_body(s@, i as int) is None,
        },
    decreases n - i,
{
    if i >= n {
        return None;
    }
    let c = s.get_char(i);
    if c == '"' {
        Some((String::new(), i + 1))
    } else if c == '\\' {
        match parse_escape(s, n, i + 1) {
            None => None,
            Some((ch, j)) => {
                if i < j && j <= n {
                    match parse_body(s, n, j) {
                        None => None,
                        Some((rest, k)) => {
                            let mut w = String::new();
                            push_char(&mut w, ch);
                            w.append(rest.as_str());
                            assert(w@ =~= seq![ch] + rest@);
                            Some((w, k))
                        },
                    }
                } else {
                    None
                }
            },
        }
    } else if (c as u32) < 32 {
        None
    } else {
        match parse_body(s, n, i + 1) {
            None => None,
            Some((rest, k)) => {
                let mut w = String::new();
                push_char(&mut w, c);
                w.append(rest.as_str());
                assert(w@ =~= seq![c] + rest@);
                Some((w, k))
            },
        }
    }
}

/// Reads a whole JSON string at position `i`.
fn parse_string(s: &str, n: usize, i: usize) -> (r: Option<(String, usize)>)
    requires
        n == s@.len(),
    ensures
        match r {
            Some((d, j)) => spec_parse_string(s@, i as int) == Some((d@, j as int)),
            None => spec_parse_string(s@, i as int) is None,
        },
{
    if i < n && s.get_char(i) == '"' {
        parse_body(s, n, i + 1)
    } else {
        None
    }
}

/// Reads `true` or `false`.
fn parse_bool(s: &str, n: usize, i: usize) -> (r: Option<(bool, usize)>)
    requires
        n == s@.len(),
    ensures
        match r {
            Some((b, j)) => spec_parse_bool(s@, i as int) == Some((b, j as int)),
            None => spec_parse_bool(s@, i as int) is None,
        },
{
    match lit_at(s, n, i, "true") {
        Some(j) => Some((true, j)),
        None => match lit_at(s, n, i, "false") {
            Some(j) => Some((false, j)),
            None => None,
        },
    }
}

/// Reads the `due_date` value.
fn parse_due_value(s: &str, n: usize, i: usize) -> (r: Option<(Option<DueDate>, usize)>)
    requires
        n == s@.len(),
    ensures
        match r {
            Some((d, j)) => spec_parse_due_value(s@, i as int) == Some((d, j as int)) && (match d {
                Some(dd) => dd.wf(),
                None => true,
            }),
            None => spec_parse_due_value(s@, i as int) is None,
        },
{
    match lit_at(s, n, i, "null") {
        Some(j) => Some((None, j)),
        None => match parse_string(s, n, i) {
            None => None,
            Some((content, j)) => match parse_due(content.as_str()) {
                None => None,
                Some(d) => Some((Some(d), j)),
            },
        },
    }
}

/// The position of the first non-whitespace character at or after `i`.
fn ws_end(s: &str, n: usize, i: usize) -> (r: usize)
    requires
        n == s@.len(),
    ensures
        r as int == spec_skip_ws(s@, i as int),
    decreases n - i,
{
    if i < n {
        let c = s.get_char(i);
        if c == ' ' || c == '\n' || c == '\t' || c == '\r' {
            return ws_end(s, n, i + 1);
        }
    }
    i
}

/// Skips whitespace, then matches the characters of `lit`.
fn tok_at(s: &str, n: usize, i: usize, lit: &str) -> (r: Option<usize>)
    requires
        n == s@.len(),
    ensures
        match r {
            Some(j) => spec_tok_at(s@, i as int, lit@) == Some(j as int),
            None => spec_tok_at(s@, i as int, lit@) is None,
        },
{
    let j = ws_end(s, n, i);
    lit_at(s, n, j, lit)
}

/// Reads one task object.
fn parse_task(s: &str, n: usize, i: usize) -> (r: Option<(Task, usize)>)
    requires
        n == s@.len(),
    ensures
        match r {
            Some((t, j)) => spec_parse_task(s@, i as int) == Some((t@, j as int)) && t@.wf(),
            None => spec_parse_task(s@, i as int) is None,
        },
{
    let j1 = match tok_at(s, n, i, "{") {
        None => {
            return None;
        },
        Some(j) => j,
    };
    let j2 = match tok_at(s, n, j1, "\"description\"") {
        None => {
            return None;
        },
        Some(j) => j,
    };
    let j3 = match tok_at(s, n, j2, ":") {
        None => {
            return None;
        },
        Some(j) => j,
    };
    let (description, j4) = match parse_string(s, n, ws_end(s, n, j3)) {
        None => {
            return None;
        },
        Some(p) => p,
    };
    let j5 = match tok_at(s, n, j4, ",") {
        None => {
            return None;
        },
        Some(j) => j,
    };
    let j6 = match tok_at(s, n, j5, "\"urgent\"") {
        None => {
            return None;
        },
        Some(j) => j,
    };
    let j7 = match tok_at(s, n, j6, ":") {
        None => {
            return None;
        },
        Some(j) => j,
    };
    let (urgent, j8) = match parse_bool(s, n, ws_end(s, n, j7)) {
        None => {
            return None;
        },
        Some(p) => p,
    };
    match tok_at(s, n, j8, "}") {
        Some(j9) => Some((Task { description, urgent, due_date: None }, j9)),
        None => {
            let j9 = match tok_at(s, n, j8, ",") {
                None => {
                    return None;
                },
                Some(j) => j,
            };
            let j10 = match tok_at(s, n, j9, "\"due_date\"") {
                None => {
                    return None;
                },
                Some(j) => j,
            };
            let j11 = match tok_at(s, n, j10, ":") {
                None => {
                    return None;
                },
                Some(j) => j,
            };
            let (due_date, j12) = match parse_due_value(s, n, ws_end(s, n, j11)) {
                None => {
                    return None;
                },
                Some(p) => p,
            };
            match tok_at(s, n, j12, "}") {
                None => None,
                Some(j13) => Some((Task { description, urgent, due_date }, j13)),
            }
        },
    }
}

/// Reads what follows a task.
fn parse_items(s: &str, n: usize, i: usize) -> (r: Option<(Vec<Task>, usize)>)
    requires
        n == s@.len(),
    ensures
        match r {
            Some((ts, j)) => spec_parse_items(s@, i as int) == Some((views_of(ts@), j as int))
                && all_wf(views_of(ts@)),
            None => spec_parse_items(s@, i as int) is None,
        },
    decreases n - i,
{
    match tok_at(s, n, i, "]") {
        Some(j) => {
            let ts: Vec<Task> = Vec::new();
            assert(views_of(ts@) =~= Seq::<TaskView>::empty());
            Some((ts, j))
        },
        None => {
            let j = match tok_at(s, n, i, ",") {
                None => {
                    return None;
                },
                Some(j) => j,
            };
            let (t, k) = match parse_task(s, n, j) {
                None => {
                    return None;
                },
                Some(p) => p,
            };
            if i < k && k <= n {
                match parse_items(s, n, k) {
                    None => None,
                    Some((rest, e)) => {
                        let ghost tv = t@;
                        let ghost restv = views_of(rest@);
                        let mut ts = rest;
                        ts.insert(0, t);
                        assert(views_of(ts@) =~= seq![tv] + restv);
                        Some((ts, e))
                    },
                }
            } else {
                None
            }
        },
    }
}

/// Reads a whole store document: the task list it holds, or the strict
/// report that it is malformed.
pub fn decode_tasks(s: &str) -> (r: Result<Vec<Task>, DecodeError>)
    ensures
        match r {
            Ok(ts) => spec_decode(s@) == Some(views_of(ts@)) && all_wf(views_of(ts@)),
            Err(e) => spec_decode(s@) is None && e == DecodeError::Malformed,
        },
{
    let n: usize = s.unicode_len();
    let j = match tok_at(s, n, 0, "[") {
        None => {
            return Err(DecodeError::Malformed);
        },
        Some(j) => j,
    };
    if let Some(e) = tok_at(s, n, j, "]") {
        if ws_end(s, n, e) == n {
            let ts: Vec<Task> = Vec::new();
            assert(views_of(ts@) =~= Seq::<TaskView>::empty());
            return Ok(ts);
        } else {
            return Err(DecodeError::Malformed);
        }
    }
    let (t, k) = match parse_task(s, n, j) {
        None => {
            return Err(DecodeError::Malformed);
        },
        Some(p) => p,
    };
    let (rest, e) = match parse_items(s, n, k) {
        None => {
            return Err(DecodeError::Malformed);
        },
        Some(p) => p,
    };
    if ws_end(s, n, e) == n {
        let ghost tv = t@;
        let ghost restv = views_of(rest@);
        let mut ts = rest;
        ts.insert(0, t);
        assert(views_of(ts@) =~= seq![tv] + restv);
        Ok(ts)
    } else {
        Err(DecodeError::Malformed)
    }
}


// ---------------------------------------------------------------------
// The decoder reads back exactly what the encoder wrote.
// ---------------------------------------------------------------------

/// A decimal digit character reads back as its value.
proof fn lemma_digit_char_val()
    ensures
        forall|x: int|
            0 <= x <= 9 ==> spec_is_digit(#[trigger] digit_char(x)) && spec_digit_val(
                digit_char(x),
            ) == x,
{
}

/// Parsing the rendering of a well-formed due date gives it back.
pub proof fn lemma_parse_due_roundtrip(d: DueDate)
    requires
        d.wf(),
    ensures
        spec_parse_due(spec_due_text(d)) == Some(d),
{
    let y = d.year as int;
    let mo = d.month as int;
    let dy = d.day as int;
    let hr = d.hour as int;
    let mi = d.minute as int;
    let hi = y / 100;
    let lo = y % 100;
    assert(0 <= y / 100 <= 99 && 0 <= y % 100 <= 99) by (nonlinear_arith)
        requires
            0 <= y <= 9999,
    ;
    assert(0 <= hi / 10 <= 9 && 0 <= hi % 10 <= 9) by (nonlinear_arith)
        requires
            0 <= hi <= 99,
    ;
    assert(0 <= lo / 10 <= 9 && 0 <= lo % 10 <= 9) by (nonlinear_arith)
        requires
            0 <= lo <= 99,
    ;
    assert(0 <= mo / 10 <= 9 && 0 <= mo % 10 <= 9) by (nonlinear_arith)
        requires
            0 <= mo <= 12,
    ;
    assert(0 <= dy / 10 <= 9 && 0 <= dy % 10 <= 9) by (nonlinear_arith)
        requires
            0 <= dy <= 31,
    ;
    assert(0 <= hr / 10 <= 9 && 0 <= hr % 10 <= 9) by (nonlinear_arith)
        requires
            0 <= hr <= 23,
    ;
    assert(0 <= mi / 10 <= 9 && 0 <= mi % 10 <= 9) by (nonlinear_arith)
        requires
            0 <= mi <= 59,
    ;
    lemma_fundamental_div_mod(y, 100);
    lemma_fundamental_div_mod(hi, 10);
    lemma_fundamental_div_mod(lo, 10);
    lemma_fundamental_div_mod(mo, 10);
    lemma_fundamental_div_mod(dy, 10);
    lemma_fundamental_div_mod(hr, 10);
    lemma_fundamental_div_mod(mi, 10);
    lemma_digit_char_val();
    let s = spec_due_text(d);
    let c = seq![
        digit_char(hi / 10),
        digit_char(hi % 10),
        digit_char(lo / 10),
        digit_char(lo % 10),
        '-',
        digit_char(mo / 10),
        digit_char(mo % 10),
        '-',
        digit_char(dy / 10),
        digit_char(dy % 10),
        ' ',
        digit_char(hr / 10),
        digit_char(hr % 10),
        ':',
        digit_char(mi / 10),
        digit_char(mi % 10),
    ];
    assert(s =~= c);
    assert(spec_four_val(s, 0) == y);
    assert(spec_two_val(s, 5) == mo);
    assert(spec_two_val(s, 8) == dy);
    assert(spec_two_val(s, 11) == hr);
    assert(spec_two_val(s, 14) == mi);
    assert(spec_parse_due(s) == Some(d));
}

/// Every character value is a valid code point; one below 256 survives
/// the round trip through a byte.
proof fn lemma_char_facts(c: char)
    ensures
        0 <= c as int,
        (c as int) < 256 ==> (((c as int) as u8) as char) == c,
{
}

/// Parsing at the start of an embedded, escaped string body gives back
/// the original text and stops just after the closing quote.
#[verifier::rlimit(100)]
proof fn lemma_parse_body_enc(s: Seq<char>, i: int, d: Seq<char>)
    requires
        0 <= i,
        i + spec_enc_body(d).len() + 1 <= s.len(),
        forall|q: int|
            0 <= q < spec_enc_body(d).len() ==> s[i + q] == #[trigger] spec_enc_body(d)[q],
        s[i + spec_enc_body(d).len()] == '"',
    ensures
        spec_parse_body(s, i) == Some((d, i + spec_enc_body(d).len() + 1)),
    decreases d.len(),
{
    let eb = spec_enc_body(d);
    if d.len() == 0 {
        assert(s[i] == '"');
    } else {
        let c = d[0];
        let e = spec_enc_char(c);
        let d2 = d.drop_first();
        let eb2 = spec_enc_body(d2);
        assert(eb == e + eb2);
        assert forall|q: int| 0 <= q < e.len() implies s[i + q] == e[q] by {
            assert(s[i + q] == spec_enc_body(d)[q]);
            assert((e + eb2)[q] == e[q]);
        }
        assert forall|q: int| 0 <= q < eb2.len() implies s[i + e.len() + q] == #[trigger] eb2[q]
            by {
            assert(s[i + (e.len() + q)] == spec_enc_body(d)[e.len() + q]);
            assert((e + eb2)[e.len() + q] == eb2[q]);
        }
        assert(s[i + e.len() + eb2.len()] == '"');
        lemma_parse_body_enc(s, i + e.len(), d2);
        if c == '"' || c == '\\' {
            assert(s[i] == e[0] && s[i + 1] == e[1]);
            assert(s[i] == '\\');
            assert(spec_parse_escape(s, i + 1) == Some((c, i + 2)));
        } else if c == '\u{8}' || c == '\t' || c == '\n' || c == '\u{c}' || c == '\r' {
            assert(s[i] == e[0] && s[i + 1] == e[1]);
            assert(s[i] == '\\');
            assert(spec_parse_escape(s, i + 1) == Some((c, i + 2)));
        } else if (c as int) < 32 {
            assert(s[i] == e[0] && s[i + 1] == e[1] && s[i + 2] == e[2] && s[i + 3] == e[3]
                && s[i + 4] == e[4] && s[i + 5] == e[5]);
            let v = c as int;
            lemma_char_facts(c);
            assert(0 <= v && v < 32);
            assert(0 <= v / 16 <= 1 && 0 <= v % 16 <= 15) by (nonlinear_arith)
                requires
                    0 <= v < 32,
            ;
            lemma_fundamental_div_mod(v, 16);
            assert(spec_is_hex(hex_char(v / 16)) && spec_hex_val(hex_char(v / 16)) == v / 16);
            assert(spec_is_hex(hex_char(v % 16)) && spec_hex_val(hex_char(v % 16)) == v % 16);
            assert(((spec_hex_val(s[i + 4]) * 16 + spec_hex_val(s[i + 5])) as u8) as char == c);
            assert(spec_parse_escape(s, i + 1) == Some((c, i + 6)));
        } else {
            assert(s[i] == e[0]);
            assert(s[i] == c);
        }
        assert(seq![c] + d2 =~= d);
        assert(spec_parse_body(s, i) == Some((d, i + eb.len() + 1)));
    }
}

/// Parsing at the start of an embedded encoded string gives it back.
proof fn lemma_parse_string_enc(s: Seq<char>, i: int, d: Seq<char>)
    requires
        0 <= i,
        i + spec_enc_string(d).len() <= s.len(),
        forall|q: int|
            0 <= q < spec_enc_string(d).len() ==> s[i + q] == #[trigger] spec_enc_string(d)[q],
    ensures
        spec_parse_string(s, i) == Some((d, i + spec_enc_string(d).len())),
{
    let es = spec_enc_string(d);
    let eb = spec_enc_body(d);
    assert(es == seq!['"'] + eb + seq!['"']);
    assert(s[i] == spec_enc_string(d)[0]);
    assert(s[i] == '"');
    assert forall|q: int| 0 <= q < eb.len() implies s[i + 1 + q] == #[trigger] eb[q] by {
        assert(s[i + (1 + q)] == spec_enc_string(d)[1 + q]);
        assert((seq!['"'] + eb + seq!['"'])[1 + q] == eb[q]);
    }
    assert(s[i + 1 + eb.len() as int] == spec_enc_string(d)[1 + eb.len() as int]);
    assert((seq!['"'] + eb + seq!['"'])[1 + eb.len() as int] == '"');
    lemma_parse_body_enc(s, i + 1, d);
}

/// A literal that stands at `i`, character for character, is found there.
proof fn lemma_lit_at(s: Seq<char>, i: int, lit: Seq<char>)
    requires
        0 <= i,
        i + lit.len() <= s.len(),
        forall|q: int| 0 <= q < lit.len() ==> s[i + q] == #[trigger] lit[q],
    ensures
        spec_lit_at(s, i, lit) == Some(i + lit.len()),
{
    assert(s.subrange(i, i + lit.len() as int) =~= lit);
}

/// A literal whose first character differs is not found.
proof fn lemma_lit_not_at(s: Seq<char>, i: int, lit: Seq<char>)
    requires
        0 <= i < s.len(),
        lit.len() > 0,
        s[i] != lit[0],
    ensures
        spec_lit_at(s, i, lit) is None,
{
    if i + lit.len() <= s.len() && s.subrange(i, i + lit.len() as int) == lit {
        assert(s.subrange(i, i + lit.len() as int)[0] == lit[0]);
        assert(false);
    }
}

/// A run of whitespace of known extent, ending before a
/// non-whitespace character, is skipped exactly.
proof fn lemma_skip_ws_exact(s: Seq<char>, i: int, k: int)
    requires
        0 <= i,
        0 <= k,
        i + k < s.len(),
        forall|q: int| 0 <= q < k ==> spec_is_ws(#[trigger] s[i + q]),
        !spec_is_ws(s[i + k]),
    ensures
        spec_skip_ws(s, i) == i + k,
    decreases k,
{
    if k == 0 {
    } else {
        assert(spec_is_ws(s[i + 0]));
        assert forall|q: int| 0 <= q < k - 1 implies spec_is_ws(#[trigger] s[i + 1 + q]) by {
            assert(spec_is_ws(s[i + (1 + q)]));
        }
        lemma_skip_ws_exact(s, i + 1, k - 1);
    }
}

/// Walking an embedded field header: the lead token, the field
/// indentation, the quoted key, the colon and the single space are
/// consumed token by token, and the scan stops at the field's value.
proof fn lemma_field_sep(s: Seq<char>, i: int, p: int, lead: Seq<char>, key: Seq<char>)
    requires
        0 <= i,
        0 <= p,
        spec_skip_ws(s, i) == p,
        p + spec_enc_field(lead, key).len() < s.len(),
        forall|q: int|
            0 <= q < spec_enc_field(lead, key).len() ==> s[p + q] == #[trigger] spec_enc_field(
                lead,
                key,
            )[q],
        lead.len() > 0,
        key.len() > 0,
        !spec_is_ws(key[0]),
        !spec_is_ws(s[p + spec_enc_field(lead, key).len()]),
    ensures
        spec_tok_at(s, i, lead) == Some(p + lead.len() as int),
        spec_tok_at(s, p + lead.len() as int, key) == Some(p + lead.len() + 5 + key.len() as int),
        spec_tok_at(s, p + lead.len() + 5 + key.len() as int, ":"@) == Some(
            p + lead.len() + 6 + key.len() as int,
        ),
        spec_skip_ws(s, p + lead.len() + 6 + key.len() as int) == p + spec_enc_field(
            lead,
            key,
        ).len(),
{
    reveal_strlit(":");
    let f = spec_enc_field(lead, key);
    assert(f == lead + ws_field() + key + ":"@ + seq![' ']);
    assert(f.len() == lead.len() + key.len() + 7);
    assert forall|q: int| 0 <= q < lead.len() implies s[p + q] == #[trigger] lead[q] by {
        assert(s[p + q] == f[q]);
        assert(f[q] == lead[q]);
    }
    lemma_lit_at(s, p, lead);
    let a = p + lead.len() as int;
    assert forall|q: int| 0 <= q < 5 implies spec_is_ws(#[trigger] s[a + q]) by {
        assert(s[p + (lead.len() + q)] == f[lead.len() + q]);
        assert(f[lead.len() + q] == ws_field()[q]);
        assert(spec_is_ws(ws_field()[q]));
    }
    assert forall|q: int| 0 <= q < key.len() implies s[a + 5 + q] == #[trigger] key[q] by {
        assert(s[p + (lead.len() + 5 + q)] == f[lead.len() + 5 + q]);
        assert(f[lead.len() + 5 + q] == key[q]);
    }
    assert(s[a + 5] == key[0]);
    lemma_skip_ws_exact(s, a, 5);
    lemma_lit_at(s, a + 5, key);
    let b0 = a + 5 + key.len() as int;
    assert(s[p + (lead.len() + 5 + key.len() as int)] == f[lead.len() + 5 + key.len() as int]);
    assert(f[lead.len() + 5 + key.len() as int] == ':');
    assert forall|q: int| 0 <= q < 1 implies s[b0 + q] == #[trigger] (":"@)[q] by {
        assert(s[b0 + 0] == ':');
    }
    lemma_skip_ws_exact(s, b0, 0);
    lemma_lit_at(s, b0, ":"@);
    assert(s[p + (lead.len() + 6 + key.len() as int)] == f[lead.len() + 6 + key.len() as int]);
    assert(f[lead.len() + 6 + key.len() as int] == ' ');
    assert forall|q: int| 0 <= q < 1 implies spec_is_ws(#[trigger] s[b0 + 1 + q]) by {
        assert(s[b0 + 1 + q] == s[b0 + 1]);
    }
    lemma_skip_ws_exact(s, b0 + 1, 1);
}

/// Parsing at an embedded encoded task, from any position whose
/// whitespace scan lands on its opening brace, gives it back.
#[verifier::rlimit(100)]
proof fn lemma_parse_task_enc(s: Seq<char>, i0: int, ib: int, t: TaskView)
    requires
        t.wf(),
        0 <= i0,
        0 <= ib,
        spec_skip_ws(s, i0) == ib,
        ib + spec_enc_task(t).len() <= s.len(),
        forall|q: int|
            0 <= q < spec_enc_task(t).len() ==> s[ib + q] == #[trigger] spec_enc_task(t)[q],
    ensures
        spec_parse_task(s, i0) == Some((t, ib + spec_enc_task(t).len() as int)),
{
    reveal_strlit("{");
    reveal_strlit("}");
    reveal_strlit(",");
    reveal_strlit(":");
    reveal_strlit("\"description\"");
    reveal_strlit("\"urgent\"");
    reveal_strlit("\"due_date\"");
    reveal_strlit("true");
    reveal_strlit("false");
    reveal_strlit("null");
    let et = spec_enc_task(t);
    let kd = "\"description\""@;
    let ku = "\"urgent\""@;
    let kdd = "\"due_date\""@;
    let f1 = spec_enc_field("{"@, kd);
    let es = spec_enc_string(t.description);
    let f2 = spec_enc_field(","@, ku);
    let b = if t.urgent {
        "true"@
    } else {
        "false"@
    };
    let f3 = spec_enc_field(","@, kdd);
    let dd = spec_enc_due(t.due_date);
    let wl = ws_line();
    assert(et == f1 + es + f2 + b + f3 + dd + wl + "}"@);
    let o1 = ib + f1.len() as int;
    let o2 = o1 + es.len() as int;
    let o3 = o2 + f2.len() as int;
    let o4 = o3 + b.len() as int;
    let o5 = o4 + f3.len() as int;
    let o6 = o5 + dd.len() as int;
    let o7 = o6 + 4;
    assert(o7 == ib + et.len());
    assert forall|q: int| 0 <= q < f1.len() implies s[ib + q] == #[trigger] f1[q] by {
        assert(s[ib + q] == et[q]);
        assert(et[q] == f1[q]);
    }
    assert forall|q: int| 0 <= q < es.len() implies s[o1 + q] == #[trigger] es[q] by {
        assert(s[ib + (f1.len() + q)] == et[f1.len() + q]);
        assert(et[f1.len() + q] == es[q]);
    }
    assert(es[0] == '"');
    lemma_field_sep(s, i0, ib, "{"@, kd);
    lemma_parse_string_enc(s, o1, t.description);
    assert forall|q: int| 0 <= q < f2.len() implies s[o2 + q] == #[trigger] f2[q] by {
        assert(s[ib + (f1.len() + es.len() + q)] == et[f1.len() + es.len() + q]);
        assert(et[f1.len() + es.len() + q] == f2[q]);
    }
    assert forall|q: int| 0 <= q < b.len() implies s[o3 + q] == #[trigger] b[q] by {
        assert(s[ib + (f1.len() + es.len() + f2.len() + q)] == et[f1.len() + es.len() + f2.len()
            + q]);
        assert(et[f1.len() + es.len() + f2.len() + q] == b[q]);
    }
    assert(!spec_is_ws(b[0]));
    assert(!spec_is_ws(s[o2 + f2.len() as int]));
    assert(s[o2 + 0] == f2[0]);
    assert(f2[0] == ',');
    lemma_skip_ws_exact(s, o2, 0);
    lemma_field_sep(s, o2, o2, ","@, ku);
    if t.urgent {
        lemma_lit_at(s, o3, "true"@);
        assert(spec_parse_bool(s, o3) == Some((true, o4)));
    } else {
        assert(s[o3] == 'f');
        lemma_lit_not_at(s, o3, "true"@);
        lemma_lit_at(s, o3, "false"@);
        assert(spec_parse_bool(s, o3) == Some((false, o4)));
    }
    assert forall|q: int| 0 <= q < f3.len() implies s[o4 + q] == #[trigger] f3[q] by {
        assert(s[ib + (f1.len() + es.len() + f2.len() + b.len() + q)] == et[f1.len() + es.len()
            + f2.len() + b.len() + q]);
        assert(et[f1.len() + es.len() + f2.len() + b.len() + q] == f3[q]);
    }
    assert forall|q: int| 0 <= q < dd.len() implies s[o5 + q] == #[trigger] dd[q] by {
        assert(s[ib + (f1.len() + es.len() + f2.len() + b.len() + f3.len() + q)] == et[f1.len()
            + es.len() + f2.len() + b.len() + f3.len() + q]);
        assert(et[f1.len() + es.len() + f2.len() + b.len() + f3.len() + q] == dd[q]);
    }
    match t.due_date {
        None => {
            assert(dd == "null"@);
            assert(!spec_is_ws(dd[0]));
        },
        Some(d2) => {
            assert(dd == spec_enc_string(spec_due_text(d2)));
            assert(dd[0] == '"');
            assert(!spec_is_ws(dd[0]));
        },
    }
    assert(s[o4 + 0] == f3[0]);
    assert(f3[0] == ',');
    assert(s[o4] == ',');
    lemma_skip_ws_exact(s, o4, 0);
    lemma_lit_not_at(s, o4, "}"@);
    assert(s[o5 + 0] == dd[0]);
    assert(!spec_is_ws(s[o4 + f3.len() as int]));
    lemma_field_sep(s, o4, o4, ","@, kdd);
    match t.due_date {
        None => {
            lemma_lit_at(s, o5, "null"@);
            assert(spec_parse_due_value(s, o5) == Some((Option::<DueDate>::None, o6)));
        },
        Some(d2) => {
            lemma_lit_not_at(s, o5, "null"@);
            assert forall|q: int|
                0 <= q < spec_enc_string(spec_due_text(d2)).len() implies s[o5 + q]
                == #[trigger] spec_enc_string(spec_due_text(d2))[q] by {
                assert(s[o5 + q] == dd[q]);
            }
            lemma_parse_string_enc(s, o5, spec_due_text(d2));
            lemma_parse_due_roundtrip(d2);
            assert(spec_parse_due_value(s, o5) == Some((Some(d2), o6)));
        },
    }
    assert forall|q: int| 0 <= q < 3 implies spec_is_ws(#[trigger] s[o6 + q]) by {
        assert(s[ib + (f1.len() + es.len() + f2.len() + b.len() + f3.len() + dd.len() + q)]
            == et[f1.len() + es.len() + f2.len() + b.len() + f3.len() + dd.len() + q]);
        assert(et[f1.len() + es.len() + f2.len() + b.len() + f3.len() + dd.len() + q] == wl[q]);
        assert(spec_is_ws(wl[q]));
    }
    assert(s[ib + (et.len() - 1)] == et[et.len() - 1]);
    assert(et[et.len() - 1] == '}');
    assert(s[o6 + 3] == '}');
    lemma_skip_ws_exact(s, o6, 3);
    assert forall|q: int| 0 <= q < 1 implies s[o6 + 3 + q] == #[trigger] ("}"@)[q] by {
        assert(s[o6 + 3 + q] == s[o6 + 3]);
    }
    lemma_lit_at(s, o6 + 3, "}"@);
    assert(spec_parse_task(s, i0) == Some((t, o7)));
}

/// An encoded task begins with its opening brace.
proof fn lemma_enc_task_first(t: TaskView)
    ensures
        spec_enc_task(t).len() > 0,
        spec_enc_task(t)[0] == '{',
{
    reveal_strlit("{");
    let f1 = spec_enc_field("{"@, "\"description\""@);
    assert(f1[0] == ("{"@)[0]);
    assert(spec_enc_task(t)[0] == f1[0]);
}

/// Parsing what follows a task in an encoded document gives back the
/// remaining tasks.
#[verifier::rlimit(100)]
proof fn lemma_parse_items_enc(s: Seq<char>, i: int, ts: Seq<TaskView>)
    requires
        all_wf(ts),
        0 <= i,
        i + spec_enc_tail(ts).len() <= s.len(),
        forall|q: int|
            0 <= q < spec_enc_tail(ts).len() ==> s[i + q] == #[trigger] spec_enc_tail(ts)[q],
    ensures
        spec_parse_items(s, i) == Some((ts, i + spec_enc_tail(ts).len() as int)),
    decreases ts.len(),
{
    let el = spec_enc_tail(ts);
    reveal_strlit("]");
    reveal_strlit(",");
    reveal_strlit("{");
    if ts.len() == 0 {
        assert(el == seq!['\n'] + "]"@);
        assert(s[i + 0] == el[0]);
        assert(s[i + 1] == el[1]);
        assert(s[i + 1] == ']');
        assert forall|q: int| 0 <= q < 1 implies spec_is_ws(#[trigger] s[i + q]) by {
            assert(s[i + q] == s[i + 0]);
        }
        lemma_skip_ws_exact(s, i, 1);
        assert forall|q: int| 0 <= q < 1 implies s[i + 1 + q] == #[trigger] ("]"@)[q] by {
            assert(s[i + 1 + q] == s[i + 1]);
        }
        lemma_lit_at(s, i + 1, "]"@);
        assert(spec_parse_items(s, i) == Some((Seq::<TaskView>::empty(), i + 2)));
        assert(ts =~= Seq::<TaskView>::empty());
    } else {
        let t0 = ts[0];
        let rest = ts.drop_first();
        let et = spec_enc_task(t0);
        let tl = spec_enc_tail(rest);
        let wl = ws_line();
        assert(el == ","@ + wl + et + tl);
        assert(s[i + 0] == el[0]);
        assert(s[i] == ',');
        lemma_skip_ws_exact(s, i, 0);
        lemma_lit_not_at(s, i, "]"@);
        assert forall|q: int| 0 <= q < 1 implies s[i + q] == #[trigger] (","@)[q] by {
            assert(s[i + q] == s[i + 0]);
        }
        lemma_lit_at(s, i, ","@);
        assert forall|q: int| 0 <= q < 3 implies spec_is_ws(#[trigger] s[i + 1 + q]) by {
            assert(s[i + (1 + q)] == el[1 + q]);
            assert(el[1 + q] == wl[q]);
            assert(spec_is_ws(wl[q]));
        }
        assert forall|q: int| 0 <= q < et.len() implies s[i + 4 + q] == #[trigger] et[q] by {
            assert(s[i + (4 + q)] == el[4 + q]);
            assert(el[4 + q] == et[q]);
        }
        lemma_enc_task_first(t0);
        assert(s[i + 4 + 0] == et[0]);
        assert(s[i + 4] == '{');
        lemma_skip_ws_exact(s, i + 1, 3);
        assert(t0.wf());
        lemma_parse_task_enc(s, i + 1, i + 4, t0);
        let k = i + 4 + et.len() as int;
        assert(forall|q: int| 0 <= q < rest.len() ==> #[trigger] rest[q] == ts[q + 1]);
        assert(all_wf(rest));
        assert forall|q: int| 0 <= q < tl.len() implies s[k + q] == #[trigger] tl[q] by {
            assert(s[i + (4 + et.len() + q)] == el[4 + et.len() + q]);
            assert(el[4 + et.len() + q] == tl[q]);
        }
        lemma_parse_items_enc(s, k, rest);
        assert(seq![t0] + rest =~= ts);
        assert(spec_parse_items(s, i) == Some((ts, i + el.len())));
    }
}

/// Round trip: decoding an encoded task list gives exactly that list.
pub proof fn lemma_decode_encode(ts: Seq<TaskView>)
    requires
        all_wf(ts),
    ensures
        spec_decode(spec_encode(ts)) == Some(ts),
{
    if ts.len() == 0 {
        lemma_decode_encode_empty(ts);
    } else {
        lemma_decode_encode_some(ts);
    }
}

/// The round trip on the empty list.
proof fn lemma_decode_encode_empty(ts: Seq<TaskView>)
    requires
        all_wf(ts),
        ts.len() == 0,
    ensures
        spec_decode(spec_encode(ts)) == Some(ts),
{
    let s = spec_encode(ts);
    reveal_strlit("[");
    reveal_strlit("]");
    reveal_strlit(",");
    reveal_strlit("{");
    if ts.len() == 0 {
        assert(s == "["@ + "]"@);
        assert(s[0] == '[');
        assert(s[1] == ']');
        lemma_skip_ws_exact(s, 0, 0);
        assert forall|q: int| 0 <= q < 1 implies s[0 + q] == #[trigger] ("["@)[q] by {
            assert(s[0 + q] == s[0]);
        }
        lemma_lit_at(s, 0, "["@);
        lemma_skip_ws_exact(s, 1, 0);
        assert forall|q: int| 0 <= q < 1 implies s[1 + q] == #[trigger] ("]"@)[q] by {
            assert(s[1 + q] == s[1]);
        }
        lemma_lit_at(s, 1, "]"@);
        assert(spec_skip_ws(s, 2) == 2);
        assert(ts =~= Seq::<TaskView>::empty());
        assert(spec_decode(s) == Some(ts));
    }
}

/// Where a text is a concatenation of four parts, each part stands in
/// it character for character at its offset.
proof fn lemma_embed_concat4(s: Seq<char>, a: Seq<char>, b: Seq<char>, c: Seq<char>, d: Seq<char>)
    requires
        s == a + b + c + d,
    ensures
        s.len() == a.len() + b.len() + c.len() + d.len(),
        forall|q: int| 0 <= q < a.len() ==> s[q] == #[trigger] a[q],
        forall|q: int| 0 <= q < b.len() ==> s[a.len() + q] == #[trigger] b[q],
        forall|q: int| 0 <= q < c.len() ==> s[a.len() + b.len() + q] == #[trigger] c[q],
        forall|q: int| 0 <= q < d.len() ==> s[a.len() + b.len() + c.len() + q] == #[trigger] d[q],
{
    assert forall|q: int| 0 <= q < a.len() implies s[q] == #[trigger] a[q] by {
        assert(s[q] == (a + b + c + d)[q]);
    }
    assert forall|q: int| 0 <= q < b.len() implies s[a.len() + q] == #[trigger] b[q] by {
        assert(s[a.len() + q] == (a + b + c + d)[a.len() + q]);
    }
    assert forall|q: int| 0 <= q < c.len() implies s[a.len() + b.len() + q] == #[trigger] c[q] by {
        assert(s[a.len() + b.len() + q] == (a + b + c + d)[a.len() + b.len() + q]);
    }
    assert forall|q: int|
        0 <= q < d.len() implies s[a.len() + b.len() + c.len() + q] == #[trigger] d[q] by {
        assert(s[a.len() + b.len() + c.len() + q] == (a + b + c + d)[a.len() + b.len() + c.len()
            + q]);
    }
}

/// The opening of an encoded non-empty document: the bracket token,
/// no closing bracket yet, and the first task.
#[verifier::rlimit(100)]
proof fn lemma_decode_encode_head(ts: Seq<TaskView>)
    requires
        all_wf(ts),
        ts.len() > 0,
    ensures
        spec_tok_at(spec_encode(ts), 0, "["@) == Some(1int),
        spec_tok_at(spec_encode(ts), 1, "]"@) is None,
        spec_parse_task(spec_encode(ts), 1) == Some(
            (ts[0], 4 + spec_enc_task(ts[0]).len() as int),
        ),
{
    let s = spec_encode(ts);
    reveal_strlit("[");
    reveal_strlit("]");
    let t0 = ts[0];
    let rest = ts.drop_first();
    let et = spec_enc_task(t0);
    let el = spec_enc_tail(rest);
    let wl = ws_line();
    assert(s == "["@ + wl + et + el);
    lemma_embed_concat4(s, "["@, wl, et, el);
    assert(s[0] == ("["@)[0]);
    assert(s[0] == '[');
    lemma_skip_ws_exact(s, 0, 0);
    assert forall|q: int| 0 <= q < 1 implies s[0 + q] == #[trigger] ("["@)[q] by {
        assert(s[0 + q] == s[0]);
    }
    lemma_lit_at(s, 0, "["@);
    assert forall|q: int| 0 <= q < 3 implies spec_is_ws(#[trigger] s[1 + q]) by {
        assert(s[1 + q] == wl[q]);
        assert(spec_is_ws(wl[q]));
    }
    lemma_enc_task_first(t0);
    let ib: int = 4;
    assert(s[ib] == et[0]);
    assert(s[ib] == '{');
    lemma_skip_ws_exact(s, 1, 3);
    lemma_lit_not_at(s, ib, "]"@);
    assert(t0.wf());
    assert forall|q: int| 0 <= q < et.len() implies s[ib + q] == #[trigger] et[q] by {
        assert(s[1 + 3 + q] == et[q]);
    }
    lemma_parse_task_enc(s, 1, ib, t0);
}

/// A document whose opening steps and parts are known decodes to the
/// first task followed by the rest.
proof fn lemma_decode_parts(s: Seq<char>, t0: TaskView, rest: Seq<TaskView>, k: int)
    requires
        spec_tok_at(s, 0, "["@) == Some(1int),
        spec_tok_at(s, 1, "]"@) is None,
        spec_parse_task(s, 1) == Some((t0, k)),
        spec_parse_items(s, k) == Some((rest, s.len() as int)),
        spec_skip_ws(s, s.len() as int) == s.len(),
    ensures
        spec_decode(s) == Some(seq![t0] + rest),
{
}

/// The round trip on a list with at least one task.
#[verifier::rlimit(100)]
proof fn lemma_decode_encode_some(ts: Seq<TaskView>)
    requires
        all_wf(ts),
        ts.len() > 0,
    ensures
        spec_decode(spec_encode(ts)) == Some(ts),
{
    let s = spec_encode(ts);
    let t0 = ts[0];
    let rest = ts.drop_first();
    let et = spec_enc_task(t0);
    let el = spec_enc_tail(rest);
    let wl = ws_line();
    reveal_strlit("[");
    assert(s == "["@ + wl + et + el);
    lemma_embed_concat4(s, "["@, wl, et, el);
    lemma_decode_encode_head(ts);
    let k = 4 + et.len() as int;
    assert(forall|q: int| 0 <= q < rest.len() ==> #[trigger] rest[q] == ts[q + 1]);
    assert(all_wf(rest));
    assert forall|q: int| 0 <= q < el.len() implies s[k + q] == #[trigger] el[q] by {
        assert(s[1 + 3 + et.len() + q] == el[q]);
    }
    lemma_parse_items_enc(s, k, rest);
    assert(k + el.len() == s.len());
    assert(spec_skip_ws(s, s.len() as int) == s.len());
    lemma_decode_parts(s, t0, rest, k);
    assert(seq![t0] + rest =~= ts);
}

} // verus!
