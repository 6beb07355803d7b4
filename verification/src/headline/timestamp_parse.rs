//! The grammar of timestamps, and the parsers that follow it.

use vstd::prelude::*;
use crate::headline::timestamp::{
    is_date, is_time, is_valid_date, Activity, Date, Delay, DelayMark, Interval, Point, Range,
    Repeater, RepeaterAndDelay, RepeaterMark, Stamp, Time, TimeRange, TimeSpec, TimeUnit, Times,
    Timestamp, Diary,
};
use crate::text::{
    chars_of, copy_range, is_blank, is_digit, is_space, is_space_char, skip_blanks,
    skip_blanks_exec, string_of,
};

verus! {

/// The value of a decimal digit.
pub open spec fn digit_of(c: char) -> int {
    c as int - 48
}

/// The value of a decimal digit.
pub fn digit_value(c: char) -> (v: u8)
    requires
        is_digit(c),
    ensures
        v == digit_of(c),
        v <= 9,
{
    (c as u32 - 48) as u8
}

/// The digit for a value below ten.
pub open spec fn digit_char(v: int) -> char {
    (v + 48) as char
}

pub fn digit_for(v: u8) -> (c: char)
    requires
        v <= 9,
    ensures
        c == digit_char(v as int),
        is_digit(c),
        digit_of(c) == v,
{
    (v + 48) as char
}

/// Whether what a parser returned is what the grammar says: the same value
/// and the same position after it, or nothing in both.
pub open spec fn agrees<T>(got: Option<(T, usize)>, expect: Option<(T, int)>) -> bool {
    match (got, expect) {
        (Some(a), Some(b)) => a.0 == b.0 && a.1 == b.1,
        (None, None) => true,
        _ => false,
    }
}

/// Whether a character is a decimal digit.
pub fn is_digit_char(c: char) -> (r: bool)
    ensures
        r == is_digit(c),
{
    '0' <= c && c <= '9'
}

/// Two digits at `i`, as a number.
pub open spec fn two_digits(s: Seq<char>, i: int) -> Option<int> {
    if 0 <= i && i + 2 <= s.len() && is_digit(s[i]) && is_digit(s[i + 1]) {
        Some(10 * digit_of(s[i]) + digit_of(s[i + 1]))
    } else {
        None
    }
}

/// Four digits at `i`, as a number.
pub open spec fn four_digits(s: Seq<char>, i: int) -> Option<int> {
    match (two_digits(s, i), two_digits(s, i + 2)) {
        (Some(a), Some(b)) => Some(100 * a + b),
        _ => None,
    }
}

/// One or two digits at `i`, as many as there are, as a number, and the
/// position after them.
pub open spec fn one_or_two_digits(s: Seq<char>, i: int) -> Option<(int, int)> {
    if 0 <= i < s.len() && is_digit(s[i]) {
        if i + 1 < s.len() && is_digit(s[i + 1]) {
            Some((10 * digit_of(s[i]) + digit_of(s[i + 1]), i + 2))
        } else {
            Some((digit_of(s[i]), i + 1))
        }
    } else {
        None
    }
}

/// `time := h or hh ":" mm`, naming a minute of the day.
pub open spec fn time_at(s: Seq<char>, i: int) -> Option<(Time, int)> {
    match one_or_two_digits(s, i) {
        Some((hour, j)) => if j < s.len() && s[j] == ':' {
            match two_digits(s, j + 1) {
                Some(minute) => if is_time(hour, minute) {
                    Some((Time { hour: hour as u8, minute: minute as u8 }, j + 3))
                } else {
                    None
                },
                None => None,
            }
        } else {
            None
        },
        None => None,
    }
}

/// `time "-" time`.
pub open spec fn times_at(s: Seq<char>, i: int) -> Option<(Times, int)> {
    match time_at(s, i) {
        Some((start, j)) => if j < s.len() && s[j] == '-' {
            match time_at(s, j + 1) {
                Some((end, k)) => Some((Times(start, end), k)),
                None => None,
            }
        } else {
            None
        },
        None => None,
    }
}

/// A time, or a range of times where `"-" time` follows.
pub open spec fn time_spec_at(s: Seq<char>, i: int) -> Option<(TimeSpec, int)> {
    match time_at(s, i) {
        Some((start, j)) => match times_at(s, i) {
            Some((times, k)) => Some((TimeSpec::Times(times), k)),
            None => Some((TimeSpec::Time(start), j)),
        },
        None => None,
    }
}

/// `repeater-mark := "++" | "+" | ".+"`.
pub open spec fn repeater_mark_at(s: Seq<char>, i: int) -> Option<(RepeaterMark, int)> {
    if 0 <= i && i + 2 <= s.len() && s[i] == '+' && s[i + 1] == '+' {
        Some((RepeaterMark::CatchUp, i + 2))
    } else if 0 <= i < s.len() && s[i] == '+' {
        Some((RepeaterMark::Cumulate, i + 1))
    } else if 0 <= i && i + 2 <= s.len() && s[i] == '.' && s[i + 1] == '+' {
        Some((RepeaterMark::Restart, i + 2))
    } else {
        None
    }
}

/// `delay-mark := "--" | "-"`.
pub open spec fn delay_mark_at(s: Seq<char>, i: int) -> Option<(DelayMark, int)> {
    if 0 <= i && i + 2 <= s.len() && s[i] == '-' && s[i + 1] == '-' {
        Some((DelayMark::First, i + 2))
    } else if 0 <= i < s.len() && s[i] == '-' {
        Some((DelayMark::All, i + 1))
    } else {
        None
    }
}

/// `unit := "h" | "d" | "w" | "m" | "y"`.
pub open spec fn time_unit_at(s: Seq<char>, i: int) -> Option<(TimeUnit, int)> {
    if 0 <= i < s.len() {
        if s[i] == 'h' {
            Some((TimeUnit::Hour, i + 1))
        } else if s[i] == 'd' {
            Some((TimeUnit::Day, i + 1))
        } else if s[i] == 'w' {
            Some((TimeUnit::Week, i + 1))
        } else if s[i] == 'm' {
            Some((TimeUnit::Month, i + 1))
        } else if s[i] == 'y' {
            Some((TimeUnit::Year, i + 1))
        } else {
            None
        }
    } else {
        None
    }
}

/// The position after the digits that start at `i`.
pub open spec fn digits_end(s: Seq<char>, i: int) -> int
    decreases s.len() - i,
{
    if 0 <= i < s.len() && is_digit(s[i]) {
        digits_end(s, i + 1)
    } else {
        i
    }
}

/// The number that the digits from `i` up to `j` spell.
pub open spec fn number_value(s: Seq<char>, i: int, j: int) -> int
    decreases j - i,
{
    if j <= i {
        0
    } else {
        10 * number_value(s, i, j - 1) + digit_of(s[j - 1])
    }
}

/// `interval := digits unit`, the digits spelling a number that fits.
pub open spec fn interval_at(s: Seq<char>, i: int) -> Option<(Interval, int)> {
    let e = digits_end(s, i);
    if i < e && number_value(s, i, e) <= usize::MAX {
        match time_unit_at(s, e) {
            Some((unit, j)) => Some((Interval { value: number_value(s, i, e) as usize, unit }, j)),
            None => None,
        }
    } else {
        None
    }
}

/// `repeater-mark interval`.
pub open spec fn repeater_at(s: Seq<char>, i: int) -> Option<(Repeater, int)> {
    match repeater_mark_at(s, i) {
        Some((mark, j)) => match interval_at(s, j) {
            Some((interval, k)) => Some((Repeater { mark, interval }, k)),
            None => None,
        },
        None => None,
    }
}

/// `delay-mark interval`.
pub open spec fn delay_at(s: Seq<char>, i: int) -> Option<(Delay, int)> {
    match delay_mark_at(s, i) {
        Some((mark, j)) => match interval_at(s, j) {
            Some((interval, k)) => Some((Delay { mark, interval }, k)),
            None => None,
        },
        None => None,
    }
}

/// One or more spaces and tabs at `i`: the position after them.
pub open spec fn blanks_at(s: Seq<char>, i: int) -> Option<int> {
    if 0 <= i < s.len() && is_blank(s[i]) {
        Some(skip_blanks(s, i))
    } else {
        None
    }
}

/// A repeater, blanks and a delay.
pub open spec fn repeater_then_delay(s: Seq<char>, i: int) -> Option<(RepeaterAndDelay, int)> {
    match repeater_at(s, i) {
        Some((r, j)) => match blanks_at(s, j) {
            Some(k) => match delay_at(s, k) {
                Some((d, e)) => Some((RepeaterAndDelay { repeater: Some(r), delay: Some(d) }, e)),
                None => None,
            },
            None => None,
        },
        None => None,
    }
}

/// A delay, blanks and a repeater.
pub open spec fn delay_then_repeater(s: Seq<char>, i: int) -> Option<(RepeaterAndDelay, int)> {
    match delay_at(s, i) {
        Some((d, j)) => match blanks_at(s, j) {
            Some(k) => match repeater_at(s, k) {
                Some((r, e)) => Some((RepeaterAndDelay { repeater: Some(r), delay: Some(d) }, e)),
                None => None,
            },
            None => None,
        },
        None => None,
    }
}

/// `repeater-and-delay`: a repeater and a delay in either order, one of the
/// two, or nothing at all.
pub open spec fn cookie_at(s: Seq<char>, i: int) -> (RepeaterAndDelay, int) {
    match repeater_then_delay(s, i) {
        Some(r) => r,
        None => match delay_then_repeater(s, i) {
            Some(r) => r,
            None => match delay_at(s, i) {
                Some((d, j)) => (RepeaterAndDelay { repeater: None, delay: Some(d) }, j),
                None => match repeater_at(s, i) {
                    Some((r, j)) => (RepeaterAndDelay { repeater: Some(r), delay: None }, j),
                    None => (RepeaterAndDelay::none(), i),
                },
            },
        },
    }
}

/// Whether a character can stand in the name of a day.
pub open spec fn is_name_char(c: char) -> bool {
    !is_space(c) && c != '>' && c != ']'
}

/// The position after the characters from `i` on that can stand in the name
/// of a day.
pub open spec fn name_end(s: Seq<char>, i: int) -> int
    decreases s.len() - i,
{
    if 0 <= i < s.len() && is_name_char(s[i]) {
        name_end(s, i + 1)
    } else {
        i
    }
}

/// Whether a digit, a `+` or a `-` stands between `i` and `j`.
pub open spec fn has_number_char(s: Seq<char>, i: int, j: int) -> bool {
    exists|k: int| i <= k < j && (is_digit(#[trigger] s[k]) || s[k] == '+' || s[k] == '-')
}

/// The name of a day: a run of characters that are no white space and no
/// closing bracket, none of them a digit, a `+` or a `-`.
pub open spec fn dayname_at(s: Seq<char>, i: int) -> Option<int> {
    let e = name_end(s, i);
    if i < e && !has_number_char(s, i, e) {
        Some(e)
    } else {
        None
    }
}

/// The position after the blanks and the name of a day that may follow a
/// date.
pub open spec fn after_dayname(s: Seq<char>, i: int) -> int {
    match blanks_at(s, i) {
        Some(k) => match dayname_at(s, k) {
            Some(e) => e,
            None => i,
        },
        None => i,
    }
}

/// `date := yyyy "-" mm "-" dd [blanks dayname]`, naming a day of the
/// calendar.
pub open spec fn date_at(s: Seq<char>, i: int) -> Option<(Date, int)> {
    match (four_digits(s, i), two_digits(s, i + 5), two_digits(s, i + 8)) {
        (Some(year), Some(month), Some(day)) => if s[i + 4] == '-' && s[i + 7] == '-' && is_date(
            year,
            month,
            day,
        ) {
            Some(
                (
                    Date { year: year as i32, month: month as u8, day: day as u8 },
                    after_dayname(s, i + 10),
                ),
            )
        } else {
            None
        },
        _ => None,
    }
}

/// The time or range of times that may follow a date after blanks.
pub open spec fn spaced_time_spec(s: Seq<char>, i: int) -> (Option<TimeSpec>, int) {
    match blanks_at(s, i) {
        Some(k) => match time_spec_at(s, k) {
            Some((t, e)) => (Some(t), e),
            None => (None, i),
        },
        None => (None, i),
    }
}

/// The repeater and delay of a timestamp: after blanks, one that is not
/// empty; or right here, the empty one. A repeater or delay that is not
/// set off by blanks is an error.
pub open spec fn spaced_cookie(s: Seq<char>, i: int) -> Option<(RepeaterAndDelay, int)> {
    let spaced = match blanks_at(s, i) {
        Some(k) => if cookie_at(s, k).0 != RepeaterAndDelay::none() {
            Some(cookie_at(s, k))
        } else {
            None
        },
        None => None,
    };
    match spaced {
        Some(r) => Some(r),
        None => if cookie_at(s, i).0 == RepeaterAndDelay::none() {
            Some((RepeaterAndDelay::none(), i))
        } else {
            None
        },
    }
}

/// The position after the characters from `i` on that are neither a
/// closing bracket nor a line feed.
pub open spec fn junk_end(s: Seq<char>, i: int) -> int
    decreases s.len() - i,
{
    if 0 <= i < s.len() && s[i] != '>' && s[i] != ']' && s[i] != '\n' {
        junk_end(s, i + 1)
    } else {
        i
    }
}

/// What stands between two brackets: a point and, where a range of times
/// was given, the time at which it ends.
pub open spec fn atom_at(s: Seq<char>, i: int) -> Option<((Point, Option<Time>), int)> {
    if 0 <= i < s.len() && (s[i] == '<' || s[i] == '[') {
        let active = if s[i] == '<' {
            Activity::Active
        } else {
            Activity::Inactive
        };
        match date_at(s, i + 1) {
            Some((date, j)) => {
                let (spec, k) = spaced_time_spec(s, j);
                match spaced_cookie(s, k) {
                    Some((cookie, e)) => {
                        let close = junk_end(s, e);
                        if close < s.len() && (s[close] == ']' || s[close] == '>') {
                            let start = match spec {
                                None => None,
                                Some(TimeSpec::Time(t)) => Some(t),
                                Some(TimeSpec::Times(t)) => Some(t.0),
                            };
                            let end = match spec {
                                Some(TimeSpec::Times(t)) => Some(t.1),
                                _ => None,
                            };
                            Some(((Point { active, date, time: start, cookie }, end), close + 1))
                        } else {
                            None
                        }
                    },
                    None => None,
                }
            },
            None => None,
        }
    } else {
        None
    }
}

/// `point`: what stands between two brackets, without a range of times.
pub open spec fn point_at(s: Seq<char>, i: int) -> Option<(Point, int)> {
    match atom_at(s, i) {
        Some(((point, None), e)) => Some((point, e)),
        _ => None,
    }
}

/// `time-range`: what stands between two brackets, with a range of times.
pub open spec fn time_range_at(s: Seq<char>, i: int) -> Option<(TimeRange, int)> {
    match atom_at(s, i) {
        Some(((start, Some(end_time)), e)) => Some((TimeRange { start, end_time }, e)),
        _ => None,
    }
}

/// `range := point "--" point`; the end is active where the start is.
pub open spec fn range_at(s: Seq<char>, i: int) -> Option<(Range, int)> {
    match point_at(s, i) {
        Some((start, j)) => if j + 2 <= s.len() && s[j] == '-' && s[j + 1] == '-' {
            match point_at(s, j + 2) {
                Some((end, e)) => Some(
                    (Range { start, end: Point { active: start.active, ..end } }, e),
                ),
                None => None,
            }
        } else {
            None
        },
        None => None,
    }
}

/// The position after the characters from `i` on that are neither `>` nor
/// a line feed.
pub open spec fn sexp_end(s: Seq<char>, i: int) -> int
    decreases s.len() - i,
{
    if 0 <= i < s.len() && s[i] != '>' && s[i] != '\n' {
        sexp_end(s, i + 1)
    } else {
        i
    }
}

/// `diary := "<%%(" text ")>"`, the text holding neither `>` nor a line
/// feed.
pub open spec fn diary_at(s: Seq<char>, i: int) -> Option<(Seq<char>, int)> {
    if 0 <= i && i + 4 <= s.len() && s[i] == '<' && s[i + 1] == '%' && s[i + 2] == '%' && s[i + 3]
        == '(' {
        let e = sexp_end(s, i + 4);
        if i + 4 < e && e < s.len() && s[e] == '>' && s[e - 1] == ')' {
            Some((s.subrange(i + 4, e - 1), e + 1))
        } else {
            None
        }
    } else {
        None
    }
}

/// `timestamp := diary | range | time-range | point`, tried in that order.
pub open spec fn timestamp_at(s: Seq<char>, i: int) -> Option<(Stamp, int)> {
    match diary_at(s, i) {
        Some((text, e)) => Some((Stamp::Diary(text), e)),
        None => match range_at(s, i) {
            Some((r, e)) => Some((Stamp::Range(r), e)),
            None => match time_range_at(s, i) {
                Some((r, e)) => Some((Stamp::TimeRange(r), e)),
                None => match point_at(s, i) {
                    Some((p, e)) => Some((Stamp::Point(p), e)),
                    None => None,
                },
            },
        },
    }
}

fn parse_two_digits(s: &Vec<char>, i: usize) -> (r: Option<u8>)
    requires
        i <= s.len(),
    ensures
        r is Some <==> two_digits(s@, i as int) is Some,
        r matches Some(v) ==> two_digits(s@, i as int) == Some(v as int),
{
    if s.len() - i >= 2 && is_digit_char(s[i]) && is_digit_char(s[i + 1]) {
        Some(10 * digit_value(s[i]) + digit_value(s[i + 1]))
    } else {
        None
    }
}

fn parse_four_digits(s: &Vec<char>, i: usize) -> (r: Option<u16>)
    requires
        i <= s.len(),
    ensures
        r is Some <==> four_digits(s@, i as int) is Some,
        r matches Some(v) ==> four_digits(s@, i as int) == Some(v as int),
{
    match parse_two_digits(s, i) {
        Some(a) => match parse_two_digits(s, i + 2) {
            Some(b) => Some(100 * (a as u16) + (b as u16)),
            None => None,
        },
        None => None,
    }
}

fn parse_one_or_two_digits(s: &Vec<char>, i: usize) -> (r: Option<(u8, usize)>)
    requires
        i <= s.len(),
    ensures
        r is Some <==> one_or_two_digits(s@, i as int) is Some,
        r matches Some(v) ==> one_or_two_digits(s@, i as int) == Some((v.0 as int, v.1 as int))
            && v.1 <= s.len(),
{
    if i < s.len() && is_digit_char(s[i]) {
        if i + 1 < s.len() && is_digit_char(s[i + 1]) {
            Some((10 * digit_value(s[i]) + digit_value(s[i + 1]), i + 2))
        } else {
            Some((digit_value(s[i]), i + 1))
        }
    } else {
        None
    }
}

/// Parses a time of day at `i`.
pub fn parse_time(s: &Vec<char>, i: usize) -> (r: Option<(Time, usize)>)
    requires
        i <= s.len(),
    ensures
        agrees(r, time_at(s@, i as int)),
        r matches Some(v) ==> i < v.1 <= s.len() && v.0.wf(),
{
    match parse_one_or_two_digits(s, i) {
        Some((hour, j)) => {
            if j < s.len() && s[j] == ':' {
                match parse_two_digits(s, j + 1) {
                    Some(minute) => {
                        if hour < 24 && minute < 60 {
                            Some((Time { hour, minute }, j + 3))
                        } else {
                            None
                        }
                    },
                    None => None,
                }
            } else {
                None
            }
        },
        None => None,
    }
}

/// Parses a range of times at `i`.
pub fn parse_times(s: &Vec<char>, i: usize) -> (r: Option<(Times, usize)>)
    requires
        i <= s.len(),
    ensures
        agrees(r, times_at(s@, i as int)),
        r matches Some(v) ==> i < v.1 <= s.len() && v.0.0.wf() && v.0.1.wf(),
{
    match parse_time(s, i) {
        Some((start, j)) => {
            if j < s.len() && s[j] == '-' {
                match parse_time(s, j + 1) {
                    Some((end, k)) => Some((Times(start, end), k)),
                    None => None,
                }
            } else {
                None
            }
        },
        None => None,
    }
}

/// Parses a time or a range of times at `i`.
pub fn parse_time_spec(s: &Vec<char>, i: usize) -> (r: Option<(TimeSpec, usize)>)
    requires
        i <= s.len(),
    ensures
        agrees(r, time_spec_at(s@, i as int)),
        r matches Some(v) ==> i < v.1 <= s.len() && time_spec_wf(v.0),
{
    match parse_time(s, i) {
        Some((start, j)) => match parse_times(s, i) {
            Some((times, k)) => Some((TimeSpec::Times(times), k)),
            None => Some((TimeSpec::Time(start), j)),
        },
        None => None,
    }
}

/// Whether the times of a time or range of times are valid.
pub open spec fn time_spec_wf(t: TimeSpec) -> bool {
    match t {
        TimeSpec::Time(t) => t.wf(),
        TimeSpec::Times(t) => t.0.wf() && t.1.wf(),
    }
}

/// Parses a repeater mark at `i`.
pub fn parse_repeater_mark(s: &Vec<char>, i: usize) -> (r: Option<(RepeaterMark, usize)>)
    requires
        i <= s.len(),
    ensures
        agrees(r, repeater_mark_at(s@, i as int)),
        r matches Some(v) ==> i < v.1 <= s.len(),
{
    if s.len() - i >= 2 && s[i] == '+' && s[i + 1] == '+' {
        Some((RepeaterMark::CatchUp, i + 2))
    } else if i < s.len() && s[i] == '+' {
        Some((RepeaterMark::Cumulate, i + 1))
    } else if s.len() - i >= 2 && s[i] == '.' && s[i + 1] == '+' {
        Some((RepeaterMark::Restart, i + 2))
    } else {
        None
    }
}

/// Parses a delay mark at `i`.
pub fn parse_delay_mark(s: &Vec<char>, i: usize) -> (r: Option<(DelayMark, usize)>)
    requires
        i <= s.len(),
    ensures
        agrees(r, delay_mark_at(s@, i as int)),
        r matches Some(v) ==> i < v.1 <= s.len(),
{
    if s.len() - i >= 2 && s[i] == '-' && s[i + 1] == '-' {
        Some((DelayMark::First, i + 2))
    } else if i < s.len() && s[i] == '-' {
        Some((DelayMark::All, i + 1))
    } else {
        None
    }
}

/// Parses a unit of time at `i`.
pub fn parse_time_unit(s: &Vec<char>, i: usize) -> (r: Option<(TimeUnit, usize)>)
    requires
        i <= s.len(),
    ensures
        agrees(r, time_unit_at(s@, i as int)),
        r matches Some(v) ==> i < v.1 <= s.len(),
{
    if i < s.len() {
        let c = s[i];
        if c == 'h' {
            Some((TimeUnit::Hour, i + 1))
        } else if c == 'd' {
            Some((TimeUnit::Day, i + 1))
        } else if c == 'w' {
            Some((TimeUnit::Week, i + 1))
        } else if c == 'm' {
            Some((TimeUnit::Month, i + 1))
        } else if c == 'y' {
            Some((TimeUnit::Year, i + 1))
        } else {
            None
        }
    } else {
        None
    }
}

pub proof fn lemma_digits_end(s: Seq<char>, i: int)
    requires
        0 <= i <= s.len(),
    ensures
        i <= digits_end(s, i) <= s.len(),
        forall|k: int| i <= k < digits_end(s, i) ==> is_digit(#[trigger] s[k]),
        digits_end(s, i) < s.len() ==> !is_digit(s[digits_end(s, i)]),
    decreases s.len() - i,
{
    if i < s.len() && is_digit(s[i]) {
        lemma_digits_end(s, i + 1);
    }
}

pub proof fn lemma_number_nonneg(s: Seq<char>, i: int, j: int)
    requires
        0 <= i <= j <= s.len(),
        forall|x: int| i <= x < j ==> is_digit(#[trigger] s[x]),
    ensures
        0 <= number_value(s, i, j),
    decreases j - i,
{
    if i < j {
        lemma_number_nonneg(s, i, j - 1);
    }
}

/// Parses an interval at `i`.
pub fn parse_interval(s: &Vec<char>, i: usize) -> (r: Option<(Interval, usize)>)
    requires
        i <= s.len(),
    ensures
        agrees(r, interval_at(s@, i as int)),
        r matches Some(v) ==> i < v.1 <= s.len(),
{
    let mut j: usize = i;
    let mut value: usize = 0;
    let mut fits = true;
    proof {
        lemma_digits_end(s@, i as int);
    }
    while j < s.len() && is_digit_char(s[j])
        invariant
            i <= j <= s.len(),
            digits_end(s@, j as int) == digits_end(s@, i as int),
            forall|x: int| i <= x < j ==> is_digit(#[trigger] s@[x]),
            fits ==> value == number_value(s@, i as int, j as int),
            !fits ==> number_value(s@, i as int, j as int) > usize::MAX,
        decreases s.len() - j,
    {
        let d = digit_value(s[j]) as usize;
        proof {
            lemma_number_nonneg(s@, i as int, j as int);
        }
        if fits {
            match value.checked_mul(10) {
                Some(v10) => match v10.checked_add(d) {
                    Some(v) => {
                        value = v;
                    },
                    None => {
                        fits = false;
                    },
                },
                None => {
                    fits = false;
                },
            }
        }
        j += 1;
    }
    if j == i || !fits {
        return None;
    }
    match parse_time_unit(s, j) {
        Some((unit, k)) => Some((Interval { value, unit }, k)),
        None => None,
    }
}

/// Parses a repeater at `i`.
pub fn parse_repeater(s: &Vec<char>, i: usize) -> (r: Option<(Repeater, usize)>)
    requires
        i <= s.len(),
    ensures
        agrees(r, repeater_at(s@, i as int)),
        r matches Some(v) ==> i < v.1 <= s.len(),
{
    match parse_repeater_mark(s, i) {
        Some((mark, j)) => match parse_interval(s, j) {
            Some((interval, k)) => Some((Repeater { mark, interval }, k)),
            None => None,
        },
        None => None,
    }
}

/// Parses a delay at `i`.
pub fn parse_delay(s: &Vec<char>, i: usize) -> (r: Option<(Delay, usize)>)
    requires
        i <= s.len(),
    ensures
        agrees(r, delay_at(s@, i as int)),
        r matches Some(v) ==> i < v.1 <= s.len(),
{
    match parse_delay_mark(s, i) {
        Some((mark, j)) => match parse_interval(s, j) {
            Some((interval, k)) => Some((Delay { mark, interval }, k)),
            None => None,
        },
        None => None,
    }
}

/// Skips one or more spaces and tabs at `i`.
pub fn parse_blanks(s: &Vec<char>, i: usize) -> (r: Option<usize>)
    requires
        i <= s.len(),
    ensures
        r is Some <==> blanks_at(s@, i as int) is Some,
        r matches Some(k) ==> blanks_at(s@, i as int) == Some(k as int) && i < k <= s.len(),
{
    if i < s.len() && (s[i] == ' ' || s[i] == '\t') {
        let k = skip_blanks_exec(s, i);
        assert(skip_blanks(s@, i as int) == skip_blanks(s@, i + 1));
        assert(k > i) by {
            lemma_skip_blanks_at_least(s@, i + 1);
        }
        Some(k)
    } else {
        None
    }
}

pub proof fn lemma_skip_blanks_at_least(s: Seq<char>, i: int)
    ensures
        skip_blanks(s, i) >= i,
    decreases s.len() - i,
{
    if 0 <= i < s.len() && is_blank(s[i]) {
        lemma_skip_blanks_at_least(s, i + 1);
    }
}

fn parse_repeater_then_delay(s: &Vec<char>, i: usize) -> (r: Option<(RepeaterAndDelay, usize)>)
    requires
        i <= s.len(),
    ensures
        agrees(r, repeater_then_delay(s@, i as int)),
        r matches Some(v) ==> i < v.1 <= s.len(),
{
    match parse_repeater(s, i) {
        Some((rep, j)) => match parse_blanks(s, j) {
            Some(k) => match parse_delay(s, k) {
                Some((d, e)) => Some((RepeaterAndDelay { repeater: Some(rep), delay: Some(d) }, e)),
                None => None,
            },
            None => None,
        },
        None => None,
    }
}

fn parse_delay_then_repeater(s: &Vec<char>, i: usize) -> (r: Option<(RepeaterAndDelay, usize)>)
    requires
        i <= s.len(),
    ensures
        agrees(r, delay_then_repeater(s@, i as int)),
        r matches Some(v) ==> i < v.1 <= s.len(),
{
    match parse_delay(s, i) {
        Some((d, j)) => match parse_blanks(s, j) {
            Some(k) => match parse_repeater(s, k) {
                Some((rep, e)) => Some(
                    (RepeaterAndDelay { repeater: Some(rep), delay: Some(d) }, e),
                ),
                None => None,
            },
            None => None,
        },
        None => None,
    }
}

/// Parses a repeater and delay at `i`; that there is neither is no error.
pub fn parse_cookie(s: &Vec<char>, i: usize) -> (r: (RepeaterAndDelay, usize))
    requires
        i <= s.len(),
    ensures
        r.0 == cookie_at(s@, i as int).0,
        r.1 == cookie_at(s@, i as int).1,
        i <= r.1 <= s.len(),
{
    if let Some(r) = parse_repeater_then_delay(s, i) {
        return r;
    }
    if let Some(r) = parse_delay_then_repeater(s, i) {
        return r;
    }
    if let Some((d, j)) = parse_delay(s, i) {
        return (RepeaterAndDelay { repeater: None, delay: Some(d) }, j);
    }
    if let Some((rep, j)) = parse_repeater(s, i) {
        return (RepeaterAndDelay { repeater: Some(rep), delay: None }, j);
    }
    (RepeaterAndDelay { repeater: None, delay: None }, i)
}

pub proof fn lemma_name_end(s: Seq<char>, i: int)
    requires
        0 <= i <= s.len(),
    ensures
        i <= name_end(s, i) <= s.len(),
        forall|k: int| i <= k < name_end(s, i) ==> is_name_char(#[trigger] s[k]),
        name_end(s, i) < s.len() ==> !is_name_char(s[name_end(s, i)]),
    decreases s.len() - i,
{
    if i < s.len() && is_name_char(s[i]) {
        lemma_name_end(s, i + 1);
    }
}

/// Parses the name of a day at `i`.
fn parse_dayname(s: &Vec<char>, i: usize) -> (r: Option<usize>)
    requires
        i <= s.len(),
    ensures
        r is Some <==> dayname_at(s@, i as int) is Some,
        r matches Some(e) ==> dayname_at(s@, i as int) == Some(e as int) && i < e <= s.len(),
{
    let mut j: usize = i;
    let mut clean = true;
    proof {
        lemma_name_end(s@, i as int);
    }
    while j < s.len() && !is_space_char(s[j]) && s[j] != '>' && s[j] != ']'
        invariant
            i <= j <= s.len(),
            name_end(s@, j as int) == name_end(s@, i as int),
            clean == !has_number_char(s@, i as int, j as int),
        decreases s.len() - j,
    {
        let c = s[j];
        if is_digit_char(c) || c == '+' || c == '-' {
            clean = false;
        }
        proof {
            if has_number_char(s@, i as int, j as int) {
                let k = choose|k: int|
                    i <= k < j && (is_digit(#[trigger] s@[k]) || s@[k] == '+' || s@[k] == '-');
                assert(i <= k < j + 1 && (is_digit(s@[k]) || s@[k] == '+' || s@[k] == '-'));
            }
            if has_number_char(s@, i as int, j + 1) && clean {
                let k = choose|k: int|
                    i <= k < j + 1 && (is_digit(#[trigger] s@[k]) || s@[k] == '+' || s@[k]
                        == '-');
                assert(k < j);
            }
            if !clean && !has_number_char(s@, i as int, j as int) {
                assert(is_digit(s@[j as int]) || s@[j as int] == '+' || s@[j as int] == '-');
            }
        }
        j += 1;
    }
    if j > i && clean {
        Some(j)
    } else {
        None
    }
}

/// Parses a date at `i`.
pub fn parse_date(s: &Vec<char>, i: usize) -> (r: Option<(Date, usize)>)
    requires
        i <= s.len(),
    ensures
        agrees(r, date_at(s@, i as int)),
        r matches Some(v) ==> i < v.1 <= s.len() && v.0.wf(),
{
    if s.len() - i < 10 {
        return None;
    }
    let year = match parse_four_digits(s, i) {
        Some(y) => y,
        None => {
            return None;
        },
    };
    let month = match parse_two_digits(s, i + 5) {
        Some(m) => m,
        None => {
            return None;
        },
    };
    let day = match parse_two_digits(s, i + 8) {
        Some(d) => d,
        None => {
            return None;
        },
    };
    if s[i + 4] != '-' || s[i + 7] != '-' || !is_valid_date(year as i32, month as u32, day as u32) {
        return None;
    }
    let mut end = i + 10;
    if let Some(k) = parse_blanks(s, end) {
        if let Some(e) = parse_dayname(s, k) {
            end = e;
        }
    }
    Some((Date { year: year as i32, month, day }, end))
}

pub proof fn lemma_junk_end(s: Seq<char>, i: int)
    requires
        0 <= i <= s.len(),
    ensures
        i <= junk_end(s, i) <= s.len(),
    decreases s.len() - i,
{
    if i < s.len() && s[i] != '>' && s[i] != ']' && s[i] != '\n' {
        lemma_junk_end(s, i + 1);
    }
}

/// Parses what stands between two brackets at `i`.
pub fn parse_atomic_timestamp(s: &Vec<char>, i: usize) -> (r: Option<((Point, Option<Time>), usize)>)
    requires
        i <= s.len(),
    ensures
        agrees(r, atom_at(s@, i as int)),
        r matches Some(v) ==> i < v.1 <= s.len() && v.0.0.wf() && (v.0.1 matches Some(t) ==> t.wf()
            && v.0.0.time is Some),
{
    if i >= s.len() || (s[i] != '<' && s[i] != '[') {
        return None;
    }
    let active = if s[i] == '<' {
        Activity::Active
    } else {
        Activity::Inactive
    };
    let (date, j) = match parse_date(s, i + 1) {
        Some(r) => r,
        None => {
            return None;
        },
    };
    let mut spec: Option<TimeSpec> = None;
    let mut k = j;
    if let Some(b) = parse_blanks(s, j) {
        if let Some((t, e)) = parse_time_spec(s, b) {
            spec = Some(t);
            k = e;
        }
    }
    let mut spaced: Option<(RepeaterAndDelay, usize)> = None;
    if let Some(b) = parse_blanks(s, k) {
        let c = parse_cookie(s, b);
        if !c.0.is_empty() {
            spaced = Some(c);
        }
    }
    let (cookie, e) = match spaced {
        Some(c) => c,
        None => {
            let c = parse_cookie(s, k);
            if c.0.is_empty() {
                (RepeaterAndDelay { repeater: None, delay: None }, k)
            } else {
                return None;
            }
        },
    };
    let mut close = e;
    proof {
        lemma_junk_end(s@, e as int);
    }
    while close < s.len() && s[close] != '>' && s[close] != ']' && s[close] != '\n'
        invariant
            e <= close <= s.len(),
            junk_end(s@, close as int) == junk_end(s@, e as int),
        decreases s.len() - close,
    {
        close += 1;
    }
    if close >= s.len() || (s[close] != ']' && s[close] != '>') {
        return None;
    }
    let start = match spec {
        None => None,
        Some(TimeSpec::Time(t)) => Some(t),
        Some(TimeSpec::Times(t)) => Some(t.0),
    };
    let end = match spec {
        Some(TimeSpec::Times(t)) => Some(t.1),
        _ => None,
    };
    Some(((Point { active, date, time: start, cookie }, end), close + 1))
}

/// Parses a point at `i`.
pub fn parse_point(s: &Vec<char>, i: usize) -> (r: Option<(Point, usize)>)
    requires
        i <= s.len(),
    ensures
        agrees(r, point_at(s@, i as int)),
        r matches Some(v) ==> i < v.1 <= s.len() && v.0.wf(),
{
    match parse_atomic_timestamp(s, i) {
        Some(((point, None), e)) => Some((point, e)),
        _ => None,
    }
}

/// Parses a range of times on one day at `i`.
pub fn parse_time_range(s: &Vec<char>, i: usize) -> (r: Option<(TimeRange, usize)>)
    requires
        i <= s.len(),
    ensures
        agrees(r, time_range_at(s@, i as int)),
        r matches Some(v) ==> i < v.1 <= s.len() && v.0.wf(),
{
    match parse_atomic_timestamp(s, i) {
        Some(((start, Some(end_time)), e)) => Some((TimeRange { start, end_time }, e)),
        _ => None,
    }
}

/// Parses a range between two points at `i`.
pub fn parse_range(s: &Vec<char>, i: usize) -> (r: Option<(Range, usize)>)
    requires
        i <= s.len(),
    ensures
        agrees(r, range_at(s@, i as int)),
        r matches Some(v) ==> i < v.1 <= s.len() && v.0.wf(),
{
    match parse_point(s, i) {
        Some((start, j)) => {
            if s.len() - j >= 2 && s[j] == '-' && s[j + 1] == '-' {
                match parse_point(s, j + 2) {
                    Some((end, e)) => Some((Range { start, end: end.with_active(start.active) }, e)),
                    None => None,
                }
            } else {
                None
            }
        },
        None => None,
    }
}

/// Parses a diary timestamp at `i`: its text and the position after it.
pub fn parse_diary(s: &Vec<char>, i: usize) -> (r: Option<(Vec<char>, usize)>)
    requires
        i <= s.len(),
    ensures
        r is Some <==> diary_at(s@, i as int) is Some,
        r matches Some(v) ==> diary_at(s@, i as int) == Some((v.0@, v.1 as int)) && i < v.1
            <= s.len(),
{
    if s.len() - i < 4 || s[i] != '<' || s[i + 1] != '%' || s[i + 2] != '%' || s[i + 3] != '(' {
        return None;
    }
    let mut e: usize = i + 4;
    while e < s.len() && s[e] != '>' && s[e] != '\n'
        invariant
            i + 4 <= e <= s.len(),
            sexp_end(s@, e as int) == sexp_end(s@, i + 4),
        decreases s.len() - e,
    {
        e += 1;
    }
    if e > i + 4 && e < s.len() && s[e] == '>' && s[e - 1] == ')' {
        Some((copy_range(s, i + 4, e - 1), e + 1))
    } else {
        None
    }
}

/// Parses a timestamp of any kind at `i`.
pub fn parse_timestamp(s: &Vec<char>, i: usize) -> (r: Option<(Timestamp, usize)>)
    requires
        i <= s.len(),
    ensures
        r is Some <==> timestamp_at(s@, i as int) is Some,
        r matches Some(v) ==> timestamp_at(s@, i as int) == Some((v.0@, v.1 as int)) && i < v.1
            <= s.len(),
{
    if let Some((text, e)) = parse_diary(s, i) {
        return Some((Timestamp::Diary(Diary(string_of(&text))), e));
    }
    if let Some((range, e)) = parse_range(s, i) {
        return Some((Timestamp::Range(range), e));
    }
    if let Some((range, e)) = parse_time_range(s, i) {
        return Some((Timestamp::TimeRange(range), e));
    }
    if let Some((point, e)) = parse_point(s, i) {
        return Some((Timestamp::Point(point), e));
    }
    None
}

/// Whether what a parser of strings returned is what the grammar says of
/// the start of `input`: the same value and the text after it, or nothing
/// in both.
pub open spec fn parses_to<T>(got: Option<(String, T)>, input: Seq<char>, expect: Option<(T, int)>) -> bool {
    match (got, expect) {
        (Some(a), Some(b)) => a.1 == b.0 && a.0@ == input.skip(b.1),
        (None, None) => true,
        _ => false,
    }
}

/// The value that was parsed and the text after it.
fn with_rest<T>(chars: &Vec<char>, r: Option<(T, usize)>) -> (out: Option<(String, T)>)
    requires
        r matches Some(v) ==> v.1 <= chars.len(),
    ensures
        out is Some <==> r is Some,
        out matches Some(v) ==> v.1 == (r->0).0 && v.0@ == chars@.skip((r->0).1 as int),
{
    match r {
        Some((value, end)) => {
            let rest = copy_range(chars, end, chars.len());
            Some((string_of(&rest), value))
        },
        None => None,
    }
}

impl Time {
    /// Parses a time of day at the start of `input`.
    pub fn parse(input: &str) -> (r: Option<(String, Time)>)
        ensures
            parses_to(r, input@, time_at(input@, 0)),
    {
        let chars = chars_of(input);
        with_rest(&chars, parse_time(&chars, 0))
    }
}

impl Times {
    /// Parses a range of times at the start of `input`.
    pub fn parse(input: &str) -> (r: Option<(String, Times)>)
        ensures
            parses_to(r, input@, times_at(input@, 0)),
    {
        let chars = chars_of(input);
        with_rest(&chars, parse_times(&chars, 0))
    }
}

impl TimeSpec {
    /// Parses a time or a range of times at the start of `input`.
    pub fn parse(input: &str) -> (r: Option<(String, TimeSpec)>)
        ensures
            parses_to(r, input@, time_spec_at(input@, 0)),
    {
        let chars = chars_of(input);
        with_rest(&chars, parse_time_spec(&chars, 0))
    }
}

impl RepeaterMark {
    /// Parses a repeater mark at the start of `input`.
    pub fn parse(input: &str) -> (r: Option<(String, RepeaterMark)>)
        ensures
            parses_to(r, input@, repeater_mark_at(input@, 0)),
    {
        let chars = chars_of(input);
        with_rest(&chars, parse_repeater_mark(&chars, 0))
    }
}

impl DelayMark {
    /// Parses a delay mark at the start of `input`.
    pub fn parse(input: &str) -> (r: Option<(String, DelayMark)>)
        ensures
            parses_to(r, input@, delay_mark_at(input@, 0)),
    {
        let chars = chars_of(input);
        with_rest(&chars, parse_delay_mark(&chars, 0))
    }
}

impl TimeUnit {
    /// Parses a unit of time at the start of `input`.
    pub fn parse(input: &str) -> (r: Option<(String, TimeUnit)>)
        ensures
            parses_to(r, input@, time_unit_at(input@, 0)),
    {
        let chars = chars_of(input);
        with_rest(&chars, parse_time_unit(&chars, 0))
    }
}

impl Interval {
    /// Parses an interval at the start of `input`.
    pub fn parse(input: &str) -> (r: Option<(String, Interval)>)
        ensures
            parses_to(r, input@, interval_at(input@, 0)),
    {
        let chars = chars_of(input);
        with_rest(&chars, parse_interval(&chars, 0))
    }
}

impl Repeater {
    /// Parses a repeater at the start of `input`.
    pub fn parse(input: &str) -> (r: Option<(String, Repeater)>)
        ensures
            parses_to(r, input@, repeater_at(input@, 0)),
    {
        let chars = chars_of(input);
        with_rest(&chars, parse_repeater(&chars, 0))
    }
}

impl Delay {
    /// Parses a delay at the start of `input`.
    pub fn parse(input: &str) -> (r: Option<(String, Delay)>)
        ensures
            parses_to(r, input@, delay_at(input@, 0)),
    {
        let chars = chars_of(input);
        with_rest(&chars, parse_delay(&chars, 0))
    }
}

impl Date {
    /// Parses a date at the start of `input`.
    pub fn parse(input: &str) -> (r: Option<(String, Date)>)
        ensures
            parses_to(r, input@, date_at(input@, 0)),
    {
        let chars = chars_of(input);
        with_rest(&chars, parse_date(&chars, 0))
    }
}

impl Point {
    /// Parses a point at the start of `input`.
    pub fn parse(input: &str) -> (r: Option<(String, Point)>)
        ensures
            parses_to(r, input@, point_at(input@, 0)),
    {
        let chars = chars_of(input);
        with_rest(&chars, parse_point(&chars, 0))
    }
}

impl Range {
    /// Parses a range between two points at the start of `input`.
    pub fn parse(input: &str) -> (r: Option<(String, Range)>)
        ensures
            parses_to(r, input@, range_at(input@, 0)),
    {
        let chars = chars_of(input);
        with_rest(&chars, parse_range(&chars, 0))
    }
}

impl TimeRange {
    /// Parses a range of times on one day at the start of `input`.
    pub fn parse(input: &str) -> (r: Option<(String, TimeRange)>)
        ensures
            parses_to(r, input@, time_range_at(input@, 0)),
    {
        let chars = chars_of(input);
        with_rest(&chars, parse_time_range(&chars, 0))
    }
}

impl RepeaterAndDelay {
    /// Parses a repeater and delay at the start of `input`; that there is
    /// neither is no error.
    pub fn parse(input: &str) -> (r: Option<(String, RepeaterAndDelay)>)
        ensures
            r matches Some(v) && v.1 == cookie_at(input@, 0).0 && v.0@ == input@.skip(
                cookie_at(input@, 0).1,
            ),
    {
        let chars = chars_of(input);
        let c = parse_cookie(&chars, 0);
        with_rest(&chars, Some(c))
    }
}

impl Diary {
    /// Parses a diary timestamp at the start of `input`.
    pub fn parse(input: &str) -> (r: Option<(String, Diary)>)
        ensures
            r is Some <==> diary_at(input@, 0) is Some,
            r matches Some(v) ==> v.1@ == (diary_at(input@, 0)->0).0 && v.0@ == input@.skip(
                (diary_at(input@, 0)->0).1,
            ),
    {
        let chars = chars_of(input);
        match parse_diary(&chars, 0) {
            Some((text, end)) => {
                let rest = copy_range(&chars, end, chars.len());
                Some((string_of(&rest), Diary(string_of(&text))))
            },
            None => None,
        }
    }
}

impl Timestamp {
    /// Parses a timestamp of any kind at the start of `input`.
    pub fn parse(input: &str) -> (r: Option<(String, Timestamp)>)
        ensures
            r is Some <==> timestamp_at(input@, 0) is Some,
            r matches Some(v) ==> v.1@ == (timestamp_at(input@, 0)->0).0 && v.0@ == input@.skip(
                (timestamp_at(input@, 0)->0).1,
            ),
    {
        let chars = chars_of(input);
        match parse_timestamp(&chars, 0) {
            Some((stamp, end)) => {
                let rest = copy_range(&chars, end, chars.len());
                Some((string_of(&rest), stamp))
            },
            None => None,
        }
    }
}

} // verus!
