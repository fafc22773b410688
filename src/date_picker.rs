//! A modal editor for a calendar date, edited one digit cell at a time.
//!
//! The draft is eight decimal cells: four for the year, two for the month and
//! two for the day. A cursor addresses one cell. While the editor is open,
//! keys overwrite cells, move the cursor, or step a whole field up or down;
//! committing clamps the draft to a real date and hands it out as
//! `YYYY/MM/DD`.
use vstd::prelude::*;
use vstd::string::*;

use crate::calendar::{get_max_day, is_leap, is_leap_year, month_length};
use crate::key::Key;

verus! {

/// What a date editor holds, as mathematical values.
pub struct Draft {
    /// The result of the last commit or cancel that nobody has taken yet.
    pub date: Option<Seq<char>>,
    /// The eight cells: year, month, day.
    pub digits: Seq<int>,
    /// Index of the cell under the cursor.
    pub cursor: int,
    /// Whether the editor is open.
    pub editing: bool,
}

impl Draft {
    /// Every cell holds a decimal digit and the cursor is on a cell.
    pub open spec fn wf(self) -> bool {
        &&& self.digits.len() == 8
        &&& forall|i: int| 0 <= i < 8 ==> 0 <= #[trigger] self.digits[i] <= 9
        &&& 0 <= self.cursor < 8
    }
}

pub open spec fn year_of(d: Seq<int>) -> int {
    d[0] * 1000 + d[1] * 100 + d[2] * 10 + d[3]
}

pub open spec fn month_of(d: Seq<int>) -> int {
    d[4] * 10 + d[5]
}

pub open spec fn day_of(d: Seq<int>) -> int {
    d[6] * 10 + d[7]
}

/// The four decimal digits of `n`, most significant first.
pub open spec fn four_digits(n: int) -> Seq<int> {
    seq![n / 1000 % 10, n / 100 % 10, n / 10 % 10, n % 10]
}

/// The two last decimal digits of `n`, tens first.
pub open spec fn two_digits(n: int) -> Seq<int> {
    seq![n / 10 % 10, n % 10]
}

pub open spec fn with_year(d: Seq<int>, y: int) -> Seq<int> {
    four_digits(y) + d.subrange(4, 8)
}

pub open spec fn with_day(d: Seq<int>, day: int) -> Seq<int> {
    d.subrange(0, 6) + two_digits(day)
}

pub open spec fn clamp(v: int, lo: int, hi: int) -> int {
    if v < lo {
        lo
    } else if v > hi {
        hi
    } else {
        v
    }
}

/// A field running from 1 to `hi`, one step up: past `hi` it wraps to 1.
pub open spec fn step_up(v: int, hi: int) -> int {
    if v + 1 > hi || v + 1 < 1 {
        1
    } else {
        v + 1
    }
}

/// A field running from 1 to `hi`, one step down: below 1 it wraps to `hi`,
/// and a value still above `hi` is clamped to `hi`.
pub open spec fn step_down(v: int, hi: int) -> int {
    if v - 1 < 1 || v - 1 > hi {
        hi
    } else {
        v - 1
    }
}

/// The first cell of the field that holds cell `cursor`.
pub open spec fn group_start(cursor: int) -> int {
    if cursor < 4 {
        0
    } else if cursor < 6 {
        4
    } else {
        6
    }
}

/// The month that a commit of the cells would give.
pub open spec fn committed_month(d: Seq<int>) -> int {
    clamp(month_of(d), 1, 12)
}

/// The last valid day for the cells' year and (clamped) month.
pub open spec fn last_day(d: Seq<int>) -> int {
    month_length(committed_month(d), is_leap(year_of(d)))
}

/// The day that a commit of the cells would give.
pub open spec fn committed_day(d: Seq<int>) -> int {
    clamp(day_of(d), 1, last_day(d))
}

/// The cells after a month step to `m`: the day is brought back into the
/// days of month `m` of the cells' year.
pub open spec fn with_month_reclamped(d: Seq<int>, m: int) -> Seq<int> {
    d.subrange(0, 4) + two_digits(m) + two_digits(
        clamp(day_of(d), 1, month_length(m, is_leap(year_of(d)))),
    )
}

/// The cells after the field that holds cell `cursor` is stepped up or down.
/// A month step also re-clamps the day to the new month.
pub open spec fn adjust(d: Seq<int>, cursor: int, up: bool) -> Seq<int> {
    if cursor < 4 {
        with_year(d, if up { (year_of(d) + 1) % 10000 } else { (year_of(d) + 9999) % 10000 })
    } else if cursor < 6 {
        with_month_reclamped(
            d,
            if up { step_up(month_of(d), 12) } else { step_down(month_of(d), 12) },
        )
    } else {
        with_day(d, if up { step_up(day_of(d), last_day(d)) } else { step_down(day_of(d), last_day(d)) })
    }
}

pub open spec fn digit_char(n: int) -> char {
    if n == 0 {
        '0'
    } else if n == 1 {
        '1'
    } else if n == 2 {
        '2'
    } else if n == 3 {
        '3'
    } else if n == 4 {
        '4'
    } else if n == 5 {
        '5'
    } else if n == 6 {
        '6'
    } else if n == 7 {
        '7'
    } else if n == 8 {
        '8'
    } else {
        '9'
    }
}

pub open spec fn is_digit(c: char) -> bool {
    '0' <= c <= '9'
}

pub open spec fn digit_value(c: char) -> int {
    c as int - '0' as int
}

/// `YYYY/MM/DD` for a year, month and day of at most four, two and two digits.
pub open spec fn date_text(y: int, m: int, d: int) -> Seq<char> {
    seq![
        digit_char(y / 1000 % 10),
        digit_char(y / 100 % 10),
        digit_char(y / 10 % 10),
        digit_char(y % 10),
        '/',
        digit_char(m / 10 % 10),
        digit_char(m % 10),
        '/',
        digit_char(d / 10 % 10),
        digit_char(d % 10),
    ]
}

/// Whether `s` is a date in the form `YYYY/MM/DD`, digits and separators.
pub open spec fn is_date_text(s: Seq<char>) -> bool {
    &&& s.len() == 10
    &&& s[4] == '/' && s[7] == '/'
    &&& forall|i: int| 0 <= i < 10 && i != 4 && i != 7 ==> is_digit(#[trigger] s[i])
}

/// The eight cells that a date in the form `YYYY/MM/DD` spells.
pub open spec fn cells_of_text(s: Seq<char>) -> Seq<int> {
    seq![
        digit_value(s[0]),
        digit_value(s[1]),
        digit_value(s[2]),
        digit_value(s[3]),
        digit_value(s[5]),
        digit_value(s[6]),
        digit_value(s[8]),
        digit_value(s[9]),
    ]
}

/// The eight cells of a calendar date; a year outside 0..=9999 is clamped
/// into that range.
pub open spec fn cells_of_date(year: int, month: int, day: int) -> Seq<int> {
    four_digits(clamp(year, 0, 9999)) + two_digits(month) + two_digits(day)
}

/// The cells that opening the editor on `due` gives, where `today` is the
/// current date: those of `due` where it is a well-formed date, else today's.
pub open spec fn seed(due: Seq<char>, year: int, month: int, day: int) -> Seq<int> {
    if is_date_text(due) {
        cells_of_text(due)
    } else {
        cells_of_date(year, month, day)
    }
}

/// Whether `s` is exactly `n` decimal digits.
pub open spec fn all_digits(s: Seq<char>, n: int) -> bool {
    s.len() == n && forall|i: int| 0 <= i < n ==> is_digit(#[trigger] s[i])
}

/// The screen column of cell `cursor` in the ten-character display
/// `YYYY/MM/DD`, where a separator follows the year and the month.
pub open spec fn column_of(cursor: int) -> int {
    if cursor >= 6 {
        cursor + 2
    } else if cursor >= 4 {
        cursor + 1
    } else {
        cursor
    }
}

/// The draft after a commit: the cells clamped to a real date, as text.
pub open spec fn commit(v: Draft) -> Draft {
    if v.editing {
        Draft {
            date: Some(date_text(year_of(v.digits), committed_month(v.digits), committed_day(v.digits))),
            editing: false,
            ..v
        }
    } else {
        v
    }
}

/// The draft after a cancel: an empty result, which clears a due date.
pub open spec fn cancel(v: Draft) -> Draft {
    if v.editing {
        Draft { date: Some(Seq::empty()), editing: false, ..v }
    } else {
        v
    }
}

/// What one key does to an open editor.
pub open spec fn key_step(v: Draft, key: Key) -> Draft {
    if key == Key::F(1) {
        commit(v)
    } else if key == Key::Esc {
        cancel(v)
    } else if key == Key::Char('k') || key == Key::Char('j') {
        Draft {
            digits: adjust(v.digits, v.cursor, key == Key::Char('k')),
            cursor: group_start(v.cursor),
            ..v
        }
    } else if key == Key::Char('h') {
        Draft { cursor: if v.cursor > 0 { v.cursor - 1 } else { 7 }, ..v }
    } else if key == Key::Char('l') {
        Draft { cursor: if v.cursor < 7 { v.cursor + 1 } else { 0 }, ..v }
    } else if key == Key::Tab {
        Draft { cursor: if v.cursor < 4 { 4 } else if v.cursor < 6 { 6 } else { 0 }, ..v }
    } else if key == Key::BackTab {
        Draft { cursor: if v.cursor < 4 { 6 } else if v.cursor < 6 { 0 } else { 4 }, ..v }
    } else if key matches Key::Char(c) && is_digit(c) {
        Draft {
            digits: v.digits.update(v.cursor, digit_value(key->Char_0)),
            cursor: if v.cursor < 7 { v.cursor + 1 } else { 0 },
            ..v
        }
    } else {
        v
    }
}

proof fn lemma_digit_char(n: int)
    requires
        0 <= n <= 9,
    ensures
        is_digit(digit_char(n)),
        digit_value(digit_char(n)) == n,
{
}

proof fn lemma_four_digits(n: int)
    requires
        0 <= n <= 9999,
    ensures
        four_digits(n)[0] * 1000 + four_digits(n)[1] * 100 + four_digits(n)[2] * 10
            + four_digits(n)[3] == n,
{
    assert(n / 1000 % 10 * 1000 + n / 100 % 10 * 100 + n / 10 % 10 * 10 + n % 10 == n)
        by (nonlinear_arith)
        requires
            0 <= n <= 9999,
    ;
}

proof fn lemma_two_digits(n: int)
    requires
        0 <= n <= 99,
    ensures
        two_digits(n)[0] * 10 + two_digits(n)[1] == n,
{
    assert(n / 10 % 10 * 10 + n % 10 == n) by (nonlinear_arith)
        requires
            0 <= n <= 99,
    ;
}

proof fn lemma_adjust_wf(d: Seq<int>, cursor: int, up: bool)
    requires
        d.len() == 8,
        forall|i: int| 0 <= i < 8 ==> 0 <= #[trigger] d[i] <= 9,
    ensures
        adjust(d, cursor, up).len() == 8,
        forall|i: int| 0 <= i < 8 ==> 0 <= #[trigger] adjust(d, cursor, up)[i] <= 9,
{
    let a = adjust(d, cursor, up);
    assert forall|i: int| 0 <= i < 8 implies 0 <= #[trigger] a[i] <= 9 by {
        if cursor < 4 {
            let y = if up { (year_of(d) + 1) % 10000 } else { (year_of(d) + 9999) % 10000 };
            assert(a == four_digits(y) + d.subrange(4, 8));
            if i >= 4 {
                assert(a[i] == d[i]);
            }
        } else if cursor < 6 {
            let m = if up { step_up(month_of(d), 12) } else { step_down(month_of(d), 12) };
            let dd = clamp(day_of(d), 1, month_length(m, is_leap(year_of(d))));
            assert(a == d.subrange(0, 4) + two_digits(m) + two_digits(dd));
            if i < 4 {
                assert(a[i] == d[i]);
            }
        } else {
            let hi = last_day(d);
            let dd = if up { step_up(day_of(d), hi) } else { step_down(day_of(d), hi) };
            assert(a == d.subrange(0, 6) + two_digits(dd));
            if i < 6 {
                assert(a[i] == d[i]);
            }
        }
    }
}

/// Every key keeps each cell a decimal digit and the cursor on a cell.
pub proof fn lemma_key_step_wf(v: Draft, key: Key)
    requires
        v.wf(),
    ensures
        key_step(v, key).wf(),
{
    if key == Key::F(1) || key == Key::Esc {
    } else if key == Key::Char('k') || key == Key::Char('j') {
        lemma_adjust_wf(v.digits, v.cursor, key == Key::Char('k'));
    } else if key matches Key::Char(c) && is_digit(c) {
        let w = key_step(v, key);
        assert forall|i: int| 0 <= i < 8 implies 0 <= #[trigger] w.digits[i] <= 9 by {
            if i != v.cursor {
                assert(w.digits[i] == v.digits[i]);
            }
        }
    }
}

/// On the day field, one step up from the month's last day gives day 1, and
/// one step down from day 1 gives the month's last day; the year and the
/// month stay as they are.
pub proof fn lemma_day_wraps(v: Draft)
    requires
        v.wf(),
        v.editing,
        6 <= v.cursor < 8,
    ensures
        day_of(v.digits) == last_day(v.digits) ==> day_of(key_step(v, Key::Char('k')).digits) == 1,
        day_of(v.digits) == 1 ==> day_of(key_step(v, Key::Char('j')).digits) == last_day(v.digits),
        key_step(v, Key::Char('k')).digits.subrange(0, 6) == v.digits.subrange(0, 6),
        key_step(v, Key::Char('j')).digits.subrange(0, 6) == v.digits.subrange(0, 6),
        last_day(key_step(v, Key::Char('j')).digits) == last_day(v.digits),
{
    let d = v.digits;
    let up = key_step(v, Key::Char('k')).digits;
    let down = key_step(v, Key::Char('j')).digits;
    assert(up.subrange(0, 6) =~= d.subrange(0, 6));
    assert(down.subrange(0, 6) =~= d.subrange(0, 6));
    assert(year_of(down) == year_of(d) && month_of(down) == month_of(d)) by {
        assert(down[0] == d[0] && down[1] == d[1] && down[2] == d[2] && down[3] == d[3]);
        assert(down[4] == d[4] && down[5] == d[5]);
    }
}

/// On the month field, one step up from 12 gives 1 and one step down from 1
/// gives 12; the year stays as it is, and the day is clamped into the days of
/// the new month.
pub proof fn lemma_month_wraps(v: Draft)
    requires
        v.wf(),
        v.editing,
        4 <= v.cursor < 6,
    ensures
        month_of(v.digits) == 12 ==> month_of(key_step(v, Key::Char('k')).digits) == 1,
        month_of(v.digits) == 1 ==> month_of(key_step(v, Key::Char('j')).digits) == 12,
        key_step(v, Key::Char('k')).digits.subrange(0, 4) == v.digits.subrange(0, 4),
        key_step(v, Key::Char('j')).digits.subrange(0, 4) == v.digits.subrange(0, 4),
        1 <= month_of(key_step(v, Key::Char('k')).digits) <= 12,
        1 <= month_of(key_step(v, Key::Char('j')).digits) <= 12,
        day_of(key_step(v, Key::Char('k')).digits) == clamp(
            day_of(v.digits),
            1,
            month_length(month_of(key_step(v, Key::Char('k')).digits), is_leap(year_of(v.digits))),
        ),
        day_of(key_step(v, Key::Char('j')).digits) == clamp(
            day_of(v.digits),
            1,
            month_length(month_of(key_step(v, Key::Char('j')).digits), is_leap(year_of(v.digits))),
        ),
{
    let d = v.digits;
    let up = key_step(v, Key::Char('k')).digits;
    let down = key_step(v, Key::Char('j')).digits;
    assert(up.subrange(0, 4) =~= d.subrange(0, 4));
    assert(down.subrange(0, 4) =~= d.subrange(0, 4));
    let mu = step_up(month_of(d), 12);
    let md = step_down(month_of(d), 12);
    let du = clamp(day_of(d), 1, month_length(mu, is_leap(year_of(d))));
    let dd = clamp(day_of(d), 1, month_length(md, is_leap(year_of(d))));
    lemma_two_digits(mu);
    lemma_two_digits(md);
    lemma_two_digits(du);
    lemma_two_digits(dd);
    assert(up == d.subrange(0, 4) + two_digits(mu) + two_digits(du));
    assert(down == d.subrange(0, 4) + two_digits(md) + two_digits(dd));
    assert(month_of(up) == mu && day_of(up) == du);
    assert(month_of(down) == md && day_of(down) == dd);
}

/// Committing an open editor gives a text of the form `YYYY/MM/DD` whose
/// month is 1 to 12 and whose day is 1 to that month's last day.
pub proof fn lemma_commit_is_valid_date(v: Draft)
    requires
        v.wf(),
        v.editing,
    ensures
        commit(v).date is Some,
        is_date_text(commit(v).date->0),
        1 <= month_of(cells_of_text(commit(v).date->0)) <= 12,
        1 <= day_of(cells_of_text(commit(v).date->0)) <= month_length(
            month_of(cells_of_text(commit(v).date->0)),
            is_leap(year_of(cells_of_text(commit(v).date->0))),
        ),
        year_of(cells_of_text(commit(v).date->0)) == year_of(v.digits),
{
    let d = v.digits;
    assert(0 <= d[0] <= 9 && 0 <= d[1] <= 9 && 0 <= d[2] <= 9 && 0 <= d[3] <= 9);
    assert(0 <= d[4] <= 9 && 0 <= d[5] <= 9 && 0 <= d[6] <= 9 && 0 <= d[7] <= 9);
    let y = year_of(d);
    let m = committed_month(d);
    let dd = committed_day(d);
    assert(1 <= dd <= 31);
    lemma_text_cells(y, m, dd);
}

/// The text of a year, month and day of at most four, two and two digits is
/// a date text that spells them back.
proof fn lemma_text_cells(y: int, m: int, dd: int)
    requires
        0 <= y <= 9999,
        0 <= m <= 99,
        0 <= dd <= 99,
    ensures
        is_date_text(date_text(y, m, dd)),
        year_of(cells_of_text(date_text(y, m, dd))) == y,
        month_of(cells_of_text(date_text(y, m, dd))) == m,
        day_of(cells_of_text(date_text(y, m, dd))) == dd,
{
    let t = date_text(y, m, dd);
    let fy = four_digits(y);
    let tm = two_digits(m);
    let td = two_digits(dd);
    lemma_digit_char(fy[0]);
    lemma_digit_char(fy[1]);
    lemma_digit_char(fy[2]);
    lemma_digit_char(fy[3]);
    lemma_digit_char(tm[0]);
    lemma_digit_char(tm[1]);
    lemma_digit_char(td[0]);
    lemma_digit_char(td[1]);
    assert forall|i: int| 0 <= i < 10 && i != 4 && i != 7 implies is_digit(#[trigger] t[i]) by {}
    let c = cells_of_text(t);
    assert(c =~= fy + tm + td);
    lemma_four_digits(y);
    lemma_two_digits(m);
    lemma_two_digits(dd);
}

/// Left and right move the cursor one cell, wrapping at both ends; a digit
/// moves it exactly one cell on, from the last cell back to the first.
pub proof fn lemma_cursor_wraps(v: Draft, c: char)
    requires
        v.wf(),
        is_digit(c),
    ensures
        key_step(v, Key::Char('h')).cursor == (v.cursor + 7) % 8,
        key_step(v, Key::Char('l')).cursor == (v.cursor + 1) % 8,
        key_step(v, Key::Char(c)).cursor == (v.cursor + 1) % 8,
        key_step(v, Key::Char(c)).digits[v.cursor] == digit_value(c),
{
    assert(Key::Char('h') != Key::F(1) && Key::Char('h') != Key::Esc);
    assert(Key::Char('h') != Key::Char('k') && Key::Char('h') != Key::Char('j'));
    assert(key_step(v, Key::Char('h')).cursor == (v.cursor + 7) % 8);
    assert(key_step(v, Key::Char('l')).cursor == (v.cursor + 1) % 8);
    assert(c != 'k' && c != 'j' && c != 'h' && c != 'l');
    assert(Key::Char(c) != Key::Char('k'));
    assert(Key::Char(c) != Key::Char('j'));
    assert(Key::Char(c) != Key::Char('h'));
    assert(Key::Char(c) != Key::Char('l'));
    assert(key_step(v, Key::Char(c)).cursor == (v.cursor + 1) % 8);
}

/// A commit or a cancel on an editor that a commit or a cancel has already
/// closed changes nothing.
pub proof fn lemma_commit_idempotent(v: Draft)
    ensures
        commit(commit(v)) == commit(v),
        cancel(commit(v)) == commit(v),
        cancel(cancel(v)) == cancel(v),
        commit(cancel(v)) == cancel(v),
{
}

enum DatePickerStatus {
    Editing,
    Hiding,
}

/// The date editor: a draft of eight digit cells, a cursor, and whether it is
/// open.
pub struct DatePicker {
    date: Option<String>,
    year: [u8; 4],
    month: [u8; 2],
    day: [u8; 2],
    position: usize,
    status: DatePickerStatus,
}

impl View for DatePicker {
    type V = Draft;

    closed spec fn view(&self) -> Draft {
        Draft {
            date: match self.date {
                Some(s) => Some(s@),
                None => None,
            },
            digits: seq![
                self.year[0] as int,
                self.year[1] as int,
                self.year[2] as int,
                self.year[3] as int,
                self.month[0] as int,
                self.month[1] as int,
                self.day[0] as int,
                self.day[1] as int,
            ],
            cursor: self.position as int,
            editing: self.status is Editing,
        }
    }
}

impl DatePicker {
    #[verifier::type_invariant]
    spec fn inv(&self) -> bool {
        &&& self.year[0] <= 9 && self.year[1] <= 9 && self.year[2] <= 9 && self.year[3] <= 9
        &&& self.month[0] <= 9 && self.month[1] <= 9
        &&& self.day[0] <= 9 && self.day[1] <= 9
        &&& self.position < 8
    }

    /// A closed editor whose draft is 2025/01/01.
    pub fn new() -> (r: Self)
        ensures
            r@ == (Draft {
                date: None,
                digits: seq![2, 0, 2, 5, 0, 1, 0, 1],
                cursor: 0,
                editing: false,
            }),
    {
        Self {
            date: None,
            year: [2, 0, 2, 5],
            month: [0, 1],
            day: [0, 1],
            position: 0,
            status: DatePickerStatus::Hiding,
        }
    }

    fn year_value(&self) -> (r: u16)
        ensures
            r as int == year_of(self@.digits),
            r <= 9999,
    {
        proof {
            use_type_invariant(self);
        }
        self.year[0] as u16 * 1000 + self.year[1] as u16 * 100 + self.year[2] as u16 * 10
            + self.year[3] as u16
    }

    fn month_value(&self) -> (r: u8)
        ensures
            r as int == month_of(self@.digits),
            r <= 99,
    {
        proof {
            use_type_invariant(self);
        }
        self.month[0] * 10 + self.month[1]
    }

    fn day_value(&self) -> (r: u8)
        ensures
            r as int == day_of(self@.digits),
            r <= 99,
    {
        proof {
            use_type_invariant(self);
        }
        self.day[0] * 10 + self.day[1]
    }

    /// The four digits of a year below 10000.
    pub fn split_four(n: u16) -> (r: [u8; 4])
        requires
            n <= 9999,
        ensures
            seq![r[0] as int, r[1] as int, r[2] as int, r[3] as int] == four_digits(n as int),
    {
        [(n / 1000 % 10) as u8, (n / 100 % 10) as u8, (n / 10 % 10) as u8, (n % 10) as u8]
    }

    /// The two last digits of a number.
    pub fn split_two(n: u8) -> (r: [u8; 2])
        ensures
            seq![r[0] as int, r[1] as int] == two_digits(n as int),
    {
        let n = n % 100;
        [n / 10 % 10, n % 10]
    }

    /// The digits of a text of exactly four decimal digits.
    pub fn parse_four(string: &str) -> (r: Option<[u8; 4]>)
        ensures
            r.is_some() == all_digits(string@, 4),
            r matches Some(a) ==> seq![a[0] as int, a[1] as int, a[2] as int, a[3] as int]
                == seq![
                digit_value(string@[0]),
                digit_value(string@[1]),
                digit_value(string@[2]),
                digit_value(string@[3]),
            ],
    {
        if string.unicode_len() != 4 {
            return None;
        }
        let mut cells: [u8; 4] = [0, 0, 0, 0];
        let mut i: usize = 0;
        while i < 4
            invariant
                string@.len() == 4,
                0 <= i <= 4,
                forall|j: int| 0 <= j < i ==> is_digit(#[trigger] string@[j]),
                forall|j: int| 0 <= j < i ==> cells[j] as int == digit_value(#[trigger] string@[j]),
            decreases 4 - i,
        {
            let c = string.get_char(i);
            if !('0' <= c && c <= '9') {
                return None;
            }
            cells[i] = (c as u32 - '0' as u32) as u8;
            i = i + 1;
        }
        Some(cells)
    }

    /// The digits of a text of exactly two decimal digits.
    pub fn parse_two(string: &str) -> (r: Option<[u8; 2]>)
        ensures
            r.is_some() == all_digits(string@, 2),
            r matches Some(a) ==> seq![a[0] as int, a[1] as int] == seq![
                digit_value(string@[0]),
                digit_value(string@[1]),
            ],
    {
        if string.unicode_len() != 2 {
            return None;
        }
        let mut cells: [u8; 2] = [0, 0];
        let mut i: usize = 0;
        while i < 2
            invariant
                string@.len() == 2,
                0 <= i <= 2,
                forall|j: int| 0 <= j < i ==> is_digit(#[trigger] string@[j]),
                forall|j: int| 0 <= j < i ==> cells[j] as int == digit_value(#[trigger] string@[j]),
            decreases 2 - i,
        {
            let c = string.get_char(i);
            if !('0' <= c && c <= '9') {
                return None;
            }
            cells[i] = (c as u32 - '0' as u32) as u8;
            i = i + 1;
        }
        Some(cells)
    }

    /// Opens the editor on the date `due`, given today's date: the cells
    /// are those of `due` where it reads `YYYY/MM/DD`, else today's; the
    /// cursor goes to the first cell.
    pub fn start(&mut self, due: &str, year: i32, month: u32, day: u32)
        requires
            1 <= month <= 12,
            1 <= day <= 31,
        ensures
            final(self)@ == (Draft {
                digits: seed(due@, year as int, month as int, day as int),
                cursor: 0,
                editing: true,
                ..old(self)@
            }),
    {
        proof {
            use_type_invariant(&*self);
        }
        let mut parsed: Option<([u8; 4], [u8; 2], [u8; 2])> = None;
        if due.unicode_len() == 10 && due.get_char(4) == '/' && due.get_char(7) == '/' {
            let y = Self::parse_four(due.substring_char(0, 4));
            let m = Self::parse_two(due.substring_char(5, 7));
            let d = Self::parse_two(due.substring_char(8, 10));
            if let (Some(y), Some(m), Some(d)) = (y, m, d) {
                parsed = Some((y, m, d));
            }
            proof {
                if is_date_text(due@) {
                    assert(all_digits(due@.subrange(0, 4), 4));
                    assert(all_digits(due@.subrange(5, 7), 2));
                    assert(all_digits(due@.subrange(8, 10), 2));
                } else {
                    if parsed.is_some() {
                        assert forall|i: int| 0 <= i < 10 && i != 4 && i != 7 implies is_digit(
                            #[trigger] due@[i],
                        ) by {
                            if i < 4 {
                                assert(due@.subrange(0, 4)[i] == due@[i]);
                            } else if i < 7 {
                                assert(due@.subrange(5, 7)[i - 5] == due@[i]);
                            } else {
                                assert(due@.subrange(8, 10)[i - 8] == due@[i]);
                            }
                        }
                    }
                }
            }
        }
        match parsed {
            Some((y, m, d)) => {
                self.year = y;
                self.month = m;
                self.day = d;
            },
            None => {
                let y: u16 = if year < 0 {
                    0
                } else if year > 9999 {
                    9999
                } else {
                    year as u16
                };
                self.year = Self::split_four(y);
                self.month = Self::split_two(month as u8);
                self.day = Self::split_two(day as u8);
            },
        }
        self.position = 0;
        self.status = DatePickerStatus::Editing;
        assert(self@.digits =~= seed(due@, year as int, month as int, day as int));
    }

    /// Whether the editor is open.
    pub fn is_editing(&self) -> (r: bool)
        ensures
            r == self@.editing,
    {
        match self.status {
            DatePickerStatus::Editing => true,
            DatePickerStatus::Hiding => false,
        }
    }

    /// The index of the cell under the cursor.
    pub fn position(&self) -> (r: usize)
        ensures
            r == self@.cursor,
            r < 8,
            self@.wf(),
    {
        proof {
            use_type_invariant(self);
        }
        self.position
    }

    /// The eight cells: year, month, day.
    pub fn cells(&self) -> (r: [u8; 8])
        ensures
            forall|i: int| 0 <= i < 8 ==> r[i] as int == #[trigger] self@.digits[i],
            forall|i: int| 0 <= i < 8 ==> r[i] <= 9,
            self@.wf(),
    {
        proof {
            use_type_invariant(self);
            assert(forall|i: int| 0 <= i < 8 ==> 0 <= #[trigger] self@.digits[i] <= 9);
        }
        [
            self.year[0],
            self.year[1],
            self.year[2],
            self.year[3],
            self.month[0],
            self.month[1],
            self.day[0],
            self.day[1],
        ]
    }

    /// The screen column of the cursor in the display `YYYY/MM/DD`.
    pub fn cursor_column(&self) -> (r: usize)
        ensures
            r == column_of(self@.cursor),
            r < 10,
    {
        proof {
            use_type_invariant(self);
        }
        if self.position >= 6 {
            self.position + 2
        } else if self.position >= 4 {
            self.position + 1
        } else {
            self.position
        }
    }

    /// Steps the field under the cursor up or down and puts the cursor on
    /// the field's first cell.
    fn step_field(&mut self, up: bool)
        ensures
            final(self)@ == (Draft {
                digits: adjust(old(self)@.digits, old(self)@.cursor, up),
                cursor: group_start(old(self)@.cursor),
                ..old(self)@
            }),
    {
        proof {
            use_type_invariant(&*self);
        }
        if self.position < 4 {
            let year = self.year_value();
            let year = if up {
                (year + 1) % 10000
            } else {
                (year + 9999) % 10000
            };
            self.year = Self::split_four(year);
            self.position = 0;
        } else if self.position < 6 {
            let month = self.month_value();
            let month = if up {
                wrap_up(month, 12)
            } else {
                wrap_down(month, 12)
            };
            let max_day = get_max_day(month, is_leap_year(self.year_value()));
            let mut day = self.day_value();
            if day < 1 {
                day = 1;
            } else if day > max_day {
                day = max_day;
            }
            self.month = Self::split_two(month);
            self.day = Self::split_two(day);
            self.position = 4;
        } else {
            let leap_year = is_leap_year(self.year_value());
            let mut month = self.month_value();
            if month < 1 {
                month = 1;
            } else if month > 12 {
                month = 12;
            }
            let max_day = get_max_day(month, leap_year);
            let day = self.day_value();
            let day = if up {
                wrap_up(day, max_day)
            } else {
                wrap_down(day, max_day)
            };
            self.day = Self::split_two(day);
            self.position = 6;
        }
        assert(self@.digits =~= adjust(old(self)@.digits, old(self)@.cursor, up));
    }

    /// Writes digit `v` into the cell under the cursor and moves the cursor
    /// one cell on, from the last cell back to the first.
    fn put_digit(&mut self, v: u8)
        requires
            v <= 9,
        ensures
            final(self)@ == (Draft {
                digits: old(self)@.digits.update(old(self)@.cursor, v as int),
                cursor: if old(self)@.cursor < 7 { old(self)@.cursor + 1 } else { 0 },
                ..old(self)@
            }),
    {
        proof {
            use_type_invariant(&*self);
        }
        let p = self.position;
        if p < 4 {
            let mut cells = self.year;
            cells[p] = v;
            self.year = cells;
        } else if p < 6 {
            let mut cells = self.month;
            cells[p - 4] = v;
            self.month = cells;
        } else {
            let mut cells = self.day;
            cells[p - 6] = v;
            self.day = cells;
        }
        self.position = if p < 7 {
            p + 1
        } else {
            0
        };
        assert(self@.digits =~= old(self)@.digits.update(old(self)@.cursor, v as int));
    }

    fn move_to(&mut self, p: usize)
        requires
            p < 8,
        ensures
            final(self)@ == (Draft { cursor: p as int, ..old(self)@ }),
    {
        proof {
            use_type_invariant(&*self);
        }
        self.position = p;
    }

    /// Handles one key press. A closed editor takes no key and changes
    /// nothing; an open one takes every key (keys without a meaning change
    /// nothing) and does what `key_step` says.
    pub fn handle_key_press_event(&mut self, key: Key) -> (consumed: bool)
        ensures
            consumed == old(self)@.editing,
            consumed ==> final(self)@ == key_step(old(self)@, key),
            !consumed ==> final(self)@ == old(self)@,
    {
        proof {
            use_type_invariant(&*self);
        }
        if let DatePickerStatus::Hiding = self.status {
            return false;
        }
        let p = self.position;
        match key {
            Key::F(1) => self.done(),
            Key::Esc => self.cancel(),
            Key::Char('k') => self.step_field(true),
            Key::Char('j') => self.step_field(false),
            Key::Char('h') => self.move_to(if p > 0 { p - 1 } else { 7 }),
            Key::Char('l') => self.move_to(if p < 7 { p + 1 } else { 0 }),
            Key::Tab => self.move_to(if p < 4 { 4 } else if p < 6 { 6 } else { 0 }),
            Key::BackTab => self.move_to(if p < 4 { 6 } else if p < 6 { 0 } else { 4 }),
            Key::Char(c) => {
                if '0' <= c && c <= '9' {
                    self.put_digit((c as u32 - '0' as u32) as u8);
                }
            },
            _ => {},
        }
        true
    }

    fn close(&mut self)
        ensures
            final(self)@ == (Draft { editing: false, ..old(self)@ }),
    {
        proof {
            use_type_invariant(&*self);
        }
        self.status = DatePickerStatus::Hiding;
    }

    /// Closes an open editor and leaves the draft, clamped to a real date, as
    /// its result: the month to 1..12 and the day to the days of that month.
    /// A closed editor is left as it is.
    pub fn done(&mut self)
        ensures
            final(self)@ == commit(old(self)@),
            old(self)@.editing ==> (final(self)@.date matches Some(t) && is_date_text(t) && 1
                <= month_of(cells_of_text(t)) <= 12 && 1 <= day_of(cells_of_text(t))
                <= month_length(month_of(cells_of_text(t)), is_leap(year_of(cells_of_text(t))))),
    {
        proof {
            use_type_invariant(&*self);
        }
        if let DatePickerStatus::Hiding = self.status {
            return;
        }
        let year = self.year_value();
        let leap_year = is_leap_year(year);
        let mut month = self.month_value();
        if month < 1 {
            month = 1;
        } else if month > 12 {
            month = 12;
        }
        let mut day = self.day_value();
        let max_day = get_max_day(month, leap_year);
        if day < 1 {
            day = 1;
        } else if day > max_day {
            day = max_day;
        }
        self.date = Some(format_date(year, month, day));
        self.close();
        proof {
            assert(forall|i: int| 0 <= i < 8 ==> 0 <= #[trigger] old(self)@.digits[i] <= 9);
            lemma_commit_is_valid_date(old(self)@);
        }
    }

    /// Closes an open editor with an empty result, which clears a due date.
    /// A closed editor is left as it is.
    pub fn cancel(&mut self)
        ensures
            final(self)@ == cancel(old(self)@),
    {
        proof {
            use_type_invariant(&*self);
        }
        if let DatePickerStatus::Hiding = self.status {
            return;
        }
        self.date = Some(String::new());
        self.close();
    }

    /// Takes the result of the last commit or cancel, if any.
    pub fn get_date(&mut self) -> (r: Option<String>)
        ensures
            r.is_some() == old(self)@.date.is_some(),
            r matches Some(s) ==> old(self)@.date == Some(s@),
            final(self)@ == (Draft { date: None, ..old(self)@ }),
    {
        proof {
            use_type_invariant(&*self);
        }
        let r = match &self.date {
            Some(s) => Some(s.clone()),
            None => None,
        };
        self.date = None;
        r
    }
}

/// One step up of a field that runs from 1 to `hi`.
fn wrap_up(v: u8, hi: u8) -> (r: u8)
    requires
        v <= 99,
    ensures
        r as int == step_up(v as int, hi as int),
{
    if v + 1 > hi {
        1
    } else {
        v + 1
    }
}

/// One step down of a field that runs from 1 to `hi`.
fn wrap_down(v: u8, hi: u8) -> (r: u8)
    ensures
        r as int == step_down(v as int, hi as int),
{
    if v < 2 || v - 1 > hi {
        hi
    } else {
        v - 1
    }
}

/// The one-character text of a decimal digit.
fn digit_text(d: u8) -> (r: &'static str)
    requires
        d <= 9,
    ensures
        r@ == seq![digit_char(d as int)],
{
    proof {
        reveal_strlit("0");
        reveal_strlit("1");
        reveal_strlit("2");
        reveal_strlit("3");
        reveal_strlit("4");
        reveal_strlit("5");
        reveal_strlit("6");
        reveal_strlit("7");
        reveal_strlit("8");
        reveal_strlit("9");
    }
    if d == 0 {
        "0"
    } else if d == 1 {
        "1"
    } else if d == 2 {
        "2"
    } else if d == 3 {
        "3"
    } else if d == 4 {
        "4"
    } else if d == 5 {
        "5"
    } else if d == 6 {
        "6"
    } else if d == 7 {
        "7"
    } else if d == 8 {
        "8"
    } else {
        "9"
    }
}

/// `YYYY/MM/DD`, zero-padded.
fn format_date(y: u16, m: u8, d: u8) -> (r: String)
    ensures
        r@ == date_text(y as int, m as int, d as int),
{
    proof {
        reveal_strlit("/");
    }
    let mut s = String::new();
    s.append(digit_text((y / 1000 % 10) as u8));
    s.append(digit_text((y / 100 % 10) as u8));
    s.append(digit_text((y / 10 % 10) as u8));
    s.append(digit_text((y % 10) as u8));
    s.append("/");
    s.append(digit_text(m / 10 % 10));
    s.append(digit_text(m % 10));
    s.append("/");
    s.append(digit_text(d / 10 % 10));
    s.append(digit_text(d % 10));
    assert(s@ =~= date_text(y as int, m as int, d as int));
    s
}

} // verus!
