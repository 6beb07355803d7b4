//! A timestamp that is written out and read again is the timestamp that
//! was written.

use vstd::prelude::*;
use crate::headline::timestamp::{
    Date,
    Delay,
    DelayMark,
    Interval,
    Point,
    Range,
    Repeater,
    RepeaterAndDelay,
    RepeaterMark,
    Stamp,
    Time,
    TimeRange,
    TimeSpec,
    TimeUnit,
    Times,
};
use crate::headline::timestamp_parse::{
    after_dayname,
    atom_at,
    blanks_at,
    cookie_at,
    date_at,
    delay_at,
    delay_then_repeater,
    diary_at,
    digit_char,
    digit_of,
    digits_end,
    four_digits,
    has_number_char,
    interval_at,
    is_name_char,
    junk_end,
    name_end,
    number_value,
    one_or_two_digits,
    point_at,
    range_at,
    repeater_at,
    repeater_then_delay,
    sexp_end,
    spaced_cookie,
    spaced_time_spec,
    time_at,
    time_range_at,
    time_spec_at,
    time_unit_at,
    times_at,
    timestamp_at,
    two_digits,
};
use crate::headline::timestamp_write::{
    cookie_text,
    date_text,
    decimal_text,
    delay_mark_text,
    delay_text,
    diary_text,
    four_digit_text,
    interval_text,
    point_text,
    range_text,
    repeater_mark_text,
    repeater_text,
    spaced_cookie_text,
    spaced_time_text,
    stamp_text,
    time_range_text,
    time_text,
    two_digit_text,
    unit_char,
    year_text,
};
use crate::text::{has_at, is_blank, is_digit, is_space, skip_blanks};

verus! {

/// A text that stands at a position stands there character by character.
pub proof fn lemma_has_at(s: Seq<char>, i: int, t: Seq<char>)
    requires
        has_at(s, i, t),
    ensures
        forall|k: int| 0 <= k < t.len() ==> s[i + k] == #[trigger] t[k],
{
    assert forall|k: int| 0 <= k < t.len() implies s[i + k] == #[trigger] t[k] by {
        assert(s.subrange(i, i + t.len())[k] == s[i + k]);
    }
}

/// Where two texts stand one after the other, each stands at its place.
pub proof fn lemma_has_at_split(s: Seq<char>, i: int, a: Seq<char>, b: Seq<char>)
    requires
        has_at(s, i, a + b),
    ensures
        has_at(s, i, a),
        has_at(s, i + a.len(), b),
{
    lemma_has_at(s, i, a + b);
    assert(s.subrange(i, i + a.len()) =~= a) by {
        assert forall|k: int| 0 <= k < a.len() implies s.subrange(i, i + a.len())[k] == a[k] by {
            assert((a + b)[k] == a[k]);
        }
    }
    assert(s.subrange(i + a.len(), i + a.len() + b.len()) =~= b) by {
        assert forall|k: int| 0 <= k < b.len() implies s.subrange(
            i + a.len(),
            i + a.len() + b.len(),
        )[k] == b[k] by {
            assert((a + b)[a.len() + k] == b[k]);
        }
    }
}

pub proof fn lemma_digit_char(v: int)
    requires
        0 <= v <= 9,
    ensures
        is_digit(digit_char(v)),
        digit_of(digit_char(v)) == v,
        !is_blank(digit_char(v)),
        !is_space(digit_char(v)),
        is_name_char(digit_char(v)),
        digit_char(v) != '-',
        digit_char(v) != '+',
        digit_char(v) != '%',
{
}

pub proof fn lemma_two_digits(s: Seq<char>, i: int, n: int)
    requires
        0 <= n < 100,
        has_at(s, i, two_digit_text(n)),
    ensures
        two_digits(s, i) == Some(n),
        is_digit(s[i]),
{
    lemma_has_at(s, i, two_digit_text(n));
    lemma_digit_char(n / 10);
    lemma_digit_char(n % 10);
    assert(two_digit_text(n)[0] == digit_char(n / 10));
    assert(two_digit_text(n)[1] == digit_char(n % 10));
}

pub proof fn lemma_four_digits(s: Seq<char>, i: int, n: int)
    requires
        0 <= n < 10000,
        has_at(s, i, four_digit_text(n)),
    ensures
        four_digits(s, i) == Some(n),
        is_digit(s[i]),
{
    lemma_has_at_split(s, i, two_digit_text(n / 100), two_digit_text(n % 100));
    lemma_two_digits(s, i, n / 100);
    lemma_two_digits(s, i + 2, n % 100);
}

/// A time that is written as `HH:MM` is read as that time.
pub proof fn lemma_time(s: Seq<char>, i: int, t: Time)
    requires
        t.wf(),
        has_at(s, i, time_text(t)),
    ensures
        time_at(s, i) == Some((t, i + 5)),
        is_digit(s[i]),
{
    let h = two_digit_text(t.hour as int);
    let m = two_digit_text(t.minute as int);
    assert(time_text(t) == (h + seq![':']) + m);
    lemma_has_at_split(s, i, h + seq![':'], m);
    lemma_has_at_split(s, i, h, seq![':']);
    lemma_has_at(s, i + 2, seq![':']);
    assert(seq![':'][0] == ':');
    lemma_two_digits(s, i, t.hour as int);
    lemma_two_digits(s, i + 3, t.minute as int);
    assert(one_or_two_digits(s, i) == Some((t.hour as int, i + 2)));
}

pub proof fn lemma_decimal_digits(n: nat)
    ensures
        decimal_text(n).len() >= 1,
        forall|k: int| 0 <= k < decimal_text(n).len() ==> is_digit(#[trigger] decimal_text(n)[k]),
    decreases n,
{
    if n >= 10 {
        lemma_decimal_digits(n / 10);
        lemma_digit_char((n % 10) as int);
    } else {
        lemma_digit_char(n as int);
    }
}

/// The digits from `i` up to `e` end at `e` where no digit follows.
pub proof fn lemma_digits_run(s: Seq<char>, i: int, e: int)
    requires
        0 <= i <= e <= s.len(),
        forall|k: int| i <= k < e ==> is_digit(#[trigger] s[k]),
        e == s.len() || !is_digit(s[e]),
    ensures
        digits_end(s, i) == e,
    decreases e - i,
{
    if i < e {
        lemma_digits_run(s, i + 1, e);
    }
}

/// The number that the decimal form of `n` spells is `n`.
pub proof fn lemma_decimal_value(s: Seq<char>, i: int, n: nat)
    requires
        has_at(s, i, decimal_text(n)),
    ensures
        number_value(s, i, i + decimal_text(n).len()) == n,
    decreases n,
{
    let text = decimal_text(n);
    lemma_has_at(s, i, text);
    if n < 10 {
        lemma_digit_char(n as int);
        assert(text[0] == digit_char(n as int));
        assert(number_value(s, i, i) == 0);
    } else {
        let front = decimal_text(n / 10);
        let last = digit_char((n % 10) as int);
        assert(text == front + seq![last]);
        lemma_has_at_split(s, i, front, seq![last]);
        lemma_decimal_value(s, i, n / 10);
        lemma_digit_char((n % 10) as int);
        assert(text[front.len() as int] == last);
    }
}

pub proof fn lemma_unit(s: Seq<char>, i: int, u: TimeUnit)
    requires
        0 <= i < s.len(),
        s[i] == unit_char(u),
    ensures
        time_unit_at(s, i) == Some((u, i + 1)),
        !is_digit(s[i]),
{
}

/// An interval that is written is read as that interval.
pub proof fn lemma_interval(s: Seq<char>, i: int, v: Interval)
    requires
        has_at(s, i, interval_text(v)),
    ensures
        interval_at(s, i) == Some((v, i + interval_text(v).len())),
        is_digit(s[i]),
{
    let digits = decimal_text(v.value as nat);
    let unit = seq![unit_char(v.unit)];
    assert(interval_text(v) == digits + unit);
    lemma_has_at_split(s, i, digits, unit);
    lemma_has_at(s, i, digits);
    lemma_has_at(s, i + digits.len(), unit);
    assert(unit[0] == unit_char(v.unit));
    lemma_decimal_digits(v.value as nat);
    lemma_decimal_value(s, i, v.value as nat);
    let e = i + digits.len();
    lemma_unit(s, e, v.unit);
    assert forall|k: int| i <= k < e implies is_digit(#[trigger] s[k]) by {
        assert(s[i + (k - i)] == digits[k - i]);
    }
    lemma_digits_run(s, i, e);
    assert(s[i + 0] == digits[0]);
}

/// A repeater that is written is read as that repeater.
pub proof fn lemma_repeater(s: Seq<char>, i: int, r: Repeater)
    requires
        has_at(s, i, repeater_text(r)),
    ensures
        repeater_at(s, i) == Some((r, i + repeater_text(r).len())),
        delay_at(s, i) is None,
        s[i] == '+' || (s[i] == '.' && s[i + 1] == '+'),
{
    let mark = repeater_mark_text(r.mark);
    lemma_has_at_split(s, i, mark, interval_text(r.interval));
    lemma_has_at(s, i, mark);
    lemma_interval(s, i + mark.len(), r.interval);
    match r.mark {
        RepeaterMark::CatchUp => {
            assert(mark[0] == '+' && mark[1] == '+');
        },
        RepeaterMark::Cumulate => {
            assert(mark[0] == '+');
        },
        RepeaterMark::Restart => {
            assert(mark[0] == '.' && mark[1] == '+');
        },
    }
}

/// A delay that is written is read as that delay.
pub proof fn lemma_delay(s: Seq<char>, i: int, d: Delay)
    requires
        has_at(s, i, delay_text(d)),
    ensures
        delay_at(s, i) == Some((d, i + delay_text(d).len())),
        repeater_at(s, i) is None,
        s[i] == '-',
{
    let mark = delay_mark_text(d.mark);
    lemma_has_at_split(s, i, mark, interval_text(d.interval));
    lemma_has_at(s, i, mark);
    lemma_interval(s, i + mark.len(), d.interval);
    match d.mark {
        DelayMark::All => {
            assert(mark[0] == '-');
        },
        DelayMark::First => {
            assert(mark[0] == '-' && mark[1] == '-');
        },
    }
}

/// A repeater and delay that is written and followed by no blank is read
/// as that repeater and delay.
pub proof fn lemma_cookie(s: Seq<char>, i: int, c: RepeaterAndDelay)
    requires
        c != RepeaterAndDelay::none(),
        has_at(s, i, cookie_text(c)),
        i + cookie_text(c).len() == s.len() || !is_blank(s[i + cookie_text(c).len()]),
    ensures
        cookie_at(s, i) == (c, i + cookie_text(c).len()),
        s[i] == '+' || s[i] == '-' || (s[i] == '.' && s[i + 1] == '+'),
{
    let e = i + cookie_text(c).len();
    match (c.repeater, c.delay) {
        (Some(r), Some(d)) => {
            let rt = repeater_text(r);
            let dt = delay_text(d);
            assert(cookie_text(c) == (rt + seq![' ']) + dt);
            lemma_has_at_split(s, i, rt + seq![' '], dt);
            lemma_has_at_split(s, i, rt, seq![' ']);
            lemma_has_at(s, i + rt.len(), seq![' ']);
            assert(seq![' '][0] == ' ');
            lemma_repeater(s, i, r);
            let j = i + rt.len();
            lemma_delay(s, j + 1, d);
            assert(skip_blanks(s, j) == skip_blanks(s, j + 1));
            assert(skip_blanks(s, j + 1) == j + 1);
            assert(blanks_at(s, j) == Some(j + 1));
        },
        (Some(r), None) => {
            lemma_repeater(s, i, r);
            assert(blanks_at(s, e) is None);
            assert(repeater_then_delay(s, i) is None);
            assert(delay_then_repeater(s, i) is None);
        },
        (None, Some(d)) => {
            lemma_delay(s, i, d);
            assert(blanks_at(s, e) is None);
            assert(repeater_then_delay(s, i) is None);
            assert(delay_then_repeater(s, i) is None);
        },
        (None, None) => {},
    }
}

/// After a space, a word that starts with a digit, a `+` or a `-`, or with
/// `.+`, is no name of a day.
pub proof fn lemma_no_dayname(s: Seq<char>, j: int)
    requires
        0 <= j,
        j + 1 < s.len(),
        s[j] == ' ',
        is_digit(s[j + 1]) || s[j + 1] == '+' || s[j + 1] == '-' || (j + 2 < s.len() && s[j + 1]
            == '.' && s[j + 2] == '+'),
    ensures
        after_dayname(s, j) == j,
        blanks_at(s, j) == Some(j + 1),
{
    assert(skip_blanks(s, j) == skip_blanks(s, j + 1));
    assert(skip_blanks(s, j + 1) == j + 1);
    let e = name_end(s, j + 1);
    lemma_name_end_from(s, j + 1);
    if is_digit(s[j + 1]) || s[j + 1] == '+' || s[j + 1] == '-' {
        if j + 1 < e {
            assert(is_digit(s[j + 1]) || s[j + 1] == '+' || s[j + 1] == '-');
            assert(has_number_char(s, j + 1, e));
        }
    } else {
        assert(is_name_char(s[j + 1]));
        assert(name_end(s, j + 1) == name_end(s, j + 2));
        lemma_name_end_from(s, j + 2);
        assert(is_name_char(s[j + 2]));
        assert(name_end(s, j + 2) == name_end(s, j + 3));
        lemma_name_end_from(s, j + 3);
        assert(e >= j + 3);
        assert(s[j + 2] == '+');
        assert(has_number_char(s, j + 1, e));
    }
}

pub proof fn lemma_name_end_from(s: Seq<char>, i: int)
    ensures
        name_end(s, i) >= i,
    decreases s.len() - i,
{
    if 0 <= i < s.len() && is_name_char(s[i]) {
        lemma_name_end_from(s, i + 1);
    }
}

/// A date of the years 0 to 9999 that is written as `YYYY-MM-DD`, and is
/// followed by no name of a day, is read as that date.
pub proof fn lemma_date(s: Seq<char>, i: int, d: Date)
    requires
        d.wf(),
        0 <= d.year <= 9999,
        has_at(s, i, date_text(d)),
        after_dayname(s, i + 10) == i + 10,
    ensures
        date_at(s, i) == Some((d, i + 10)),
        is_digit(s[i]),
{
    let y = year_text(d.year as int);
    let m = two_digit_text(d.month as int);
    let dd = two_digit_text(d.day as int);
    let dash = seq!['-'];
    assert(date_text(d) == (((y + dash) + m) + dash) + dd);
    lemma_has_at_split(s, i, ((y + dash) + m) + dash, dd);
    lemma_has_at_split(s, i, (y + dash) + m, dash);
    lemma_has_at_split(s, i, y + dash, m);
    lemma_has_at_split(s, i, y, dash);
    lemma_has_at(s, i + 4, dash);
    lemma_has_at(s, i + 7, dash);
    assert(dash[0] == '-');
    lemma_four_digits(s, i, d.year as int);
    lemma_two_digits(s, i + 5, d.month as int);
    lemma_two_digits(s, i + 8, d.day as int);
}

/// Whether the parts of a point can be written and read back: the date is
/// one of the years 0 to 9999 and the time, if there is one, is valid.
pub open spec fn point_reads_back(p: Point) -> bool {
    p.wf() && 0 <= p.date.year <= 9999
}

/// What stands after the date and the time of a point that is written, up
/// to its closing bracket, is read as its repeater and delay.
proof fn lemma_tail(s: Seq<char>, k: int, c: RepeaterAndDelay, close: char)
    requires
        0 <= k,
        has_at(s, k, spaced_cookie_text(c) + seq![close]),
        close == '>' || close == ']',
    ensures
        spaced_cookie(s, k) == Some((c, k + spaced_cookie_text(c).len())),
        junk_end(s, k + spaced_cookie_text(c).len()) == k + spaced_cookie_text(c).len(),
        s[k + spaced_cookie_text(c).len()] == close,
        k + spaced_cookie_text(c).len() < s.len(),
        s[k] == close || (s[k] == ' ' && (s[k + 1] == '+' || s[k + 1] == '-' || (s[k + 1] == '.'
            && s[k + 2] == '+'))),
{
    let sc = spaced_cookie_text(c);
    lemma_has_at_split(s, k, sc, seq![close]);
    lemma_has_at(s, k + sc.len(), seq![close]);
    assert(seq![close][0] == close);
    let e = k + sc.len();
    if c == RepeaterAndDelay::none() {
        assert(blanks_at(s, k) is None);
        assert(repeater_at(s, k) is None);
        assert(delay_at(s, k) is None);
    } else {
        let ct = cookie_text(c);
        assert(sc == seq![' '] + ct);
        lemma_has_at_split(s, k, seq![' '], ct);
        lemma_has_at(s, k, seq![' ']);
        assert(seq![' '][0] == ' ');
        lemma_cookie(s, k + 1, c);
        assert(skip_blanks(s, k) == skip_blanks(s, k + 1));
        assert(skip_blanks(s, k + 1) == k + 1);
    }
}

/// What stands between the brackets of a point that is written is read as
/// that point.
pub proof fn lemma_atom_point(s: Seq<char>, i: int, p: Point)
    requires
        point_reads_back(p),
        has_at(s, i, point_text(p)),
    ensures
        atom_at(s, i) == Some(((p, None::<Time>), i + point_text(p).len())),
        s[i] == p.active.brackets().0,
        is_digit(s[i + 1]),
{
    let open = seq![p.active.brackets().0];
    let close = p.active.brackets().1;
    let d = date_text(p.date);
    let t = spaced_time_text(p.time);
    let c = spaced_cookie_text(p.cookie);
    let tail = c + seq![close];
    assert(point_text(p) == ((open + d) + t) + tail);
    lemma_has_at_split(s, i, (open + d) + t, tail);
    lemma_has_at_split(s, i, open + d, t);
    lemma_has_at_split(s, i, open, d);
    lemma_has_at(s, i, open);
    assert(open[0] == p.active.brackets().0);
    let j = i + 11;
    assert(d.len() == 10);
    let k = j + t.len();
    lemma_tail(s, k, p.cookie, close);
    match p.time {
        Some(time) => {
            let tt = time_text(time);
            assert(t == seq![' '] + tt);
            lemma_has_at_split(s, j, seq![' '], tt);
            lemma_has_at(s, j, seq![' ']);
            assert(seq![' '][0] == ' ');
            lemma_time(s, j + 1, time);
            lemma_no_dayname(s, j);
            assert(times_at(s, j + 1) is None);
            assert(time_spec_at(s, j + 1) == Some((TimeSpec::Time(time), j + 6)));
            assert(spaced_time_spec(s, j) == (Some(TimeSpec::Time(time)), k));
        },
        None => {
            if s[k] == close {
                assert(blanks_at(s, j) is None);
            } else {
                lemma_no_dayname(s, j);
                assert(one_or_two_digits(s, j + 1) is None);
                assert(time_at(s, j + 1) is None);
            }
            assert(spaced_time_spec(s, j) == (None::<TimeSpec>, j));
        },
    }
    lemma_date(s, i + 1, p.date);
}

/// A point that is written is read as that point.
pub proof fn lemma_point(s: Seq<char>, i: int, p: Point)
    requires
        point_reads_back(p),
        has_at(s, i, point_text(p)),
    ensures
        point_at(s, i) == Some((p, i + point_text(p).len())),
        time_range_at(s, i) is None,
        diary_at(s, i) is None,
        i + point_text(p).len() == s.len() ==> range_at(s, i) is None,
{
    lemma_atom_point(s, i, p);
    lemma_digit_char(digit_of(s[i + 1]));
}

/// Whether the parts of a range of times can be written and read back: the
/// start is a point that can, it has a time, and the end time is valid.
pub open spec fn time_range_reads_back(r: TimeRange) -> bool {
    point_reads_back(r.start) && r.start.time is Some && r.end_time.wf()
}

/// A range of times that is written is read as that range of times.
pub proof fn lemma_time_range(s: Seq<char>, i: int, r: TimeRange)
    requires
        time_range_reads_back(r),
        has_at(s, i, time_range_text(r)),
    ensures
        time_range_at(s, i) == Some((r, i + time_range_text(r).len())),
        point_at(s, i) is None,
        range_at(s, i) is None,
        diary_at(s, i) is None,
{
    let p = r.start;
    let open = seq![p.active.brackets().0];
    let close = p.active.brackets().1;
    let d = date_text(p.date);
    let st = time_text(p.time->0);
    let et = time_text(r.end_time);
    let c = spaced_cookie_text(p.cookie);
    let tail = c + seq![close];
    let sp = seq![' '];
    let dash = seq!['-'];
    assert(time_range_text(r) == (((((open + d) + sp) + st) + dash) + et) + tail);
    lemma_has_at_split(s, i, ((((open + d) + sp) + st) + dash) + et, tail);
    lemma_has_at_split(s, i, (((open + d) + sp) + st) + dash, et);
    lemma_has_at_split(s, i, ((open + d) + sp) + st, dash);
    lemma_has_at_split(s, i, (open + d) + sp, st);
    lemma_has_at_split(s, i, open + d, sp);
    lemma_has_at_split(s, i, open, d);
    lemma_has_at(s, i, open);
    assert(open[0] == p.active.brackets().0);
    assert(d.len() == 10);
    let j = i + 11;
    lemma_has_at(s, j, sp);
    assert(sp[0] == ' ');
    lemma_time(s, j + 1, p.time->0);
    lemma_has_at(s, j + 6, dash);
    assert(dash[0] == '-');
    lemma_time(s, j + 7, r.end_time);
    lemma_no_dayname(s, j);
    let k = j + 12;
    lemma_tail(s, k, p.cookie, close);
    assert(times_at(s, j + 1) == Some((Times(p.time->0, r.end_time), k)));
    assert(spaced_time_spec(s, j) == (Some(TimeSpec::Times(Times(p.time->0, r.end_time))), k));
    lemma_date(s, i + 1, p.date);
    lemma_digit_char(digit_of(s[i + 1]));
}

/// Whether the parts of a range can be written and read back: both ends
/// are points that can, and both are active or both inactive.
pub open spec fn range_reads_back(r: Range) -> bool {
    point_reads_back(r.start) && point_reads_back(r.end) && r.start.active == r.end.active
}

/// A range that is written is read as that range.
pub proof fn lemma_range(s: Seq<char>, i: int, r: Range)
    requires
        range_reads_back(r),
        has_at(s, i, range_text(r)),
    ensures
        range_at(s, i) == Some((r, i + range_text(r).len())),
        diary_at(s, i) is None,
{
    let a = point_text(r.start);
    let b = point_text(r.end);
    let dashes = seq!['-', '-'];
    assert(range_text(r) == (a + dashes) + b);
    lemma_has_at_split(s, i, a + dashes, b);
    lemma_has_at_split(s, i, a, dashes);
    lemma_has_at(s, i + a.len(), dashes);
    assert(dashes[0] == '-' && dashes[1] == '-');
    lemma_point(s, i, r.start);
    lemma_point(s, i + a.len() + 2, r.end);
}

/// Whether a text can be the text of a diary entry that is read back: it
/// holds neither `>` nor a line feed.
pub open spec fn diary_reads_back(text: Seq<char>) -> bool {
    forall|k: int| 0 <= k < text.len() ==> #[trigger] text[k] != '>' && text[k] != '\n'
}

proof fn lemma_sexp_run(s: Seq<char>, i: int, e: int)
    requires
        0 <= i <= e < s.len(),
        forall|k: int| i <= k < e ==> #[trigger] s[k] != '>' && s[k] != '\n',
        s[e] == '>',
    ensures
        sexp_end(s, i) == e,
    decreases e - i,
{
    if i < e {
        lemma_sexp_run(s, i + 1, e);
    }
}

/// A diary entry that is written is read as that entry.
pub proof fn lemma_diary(s: Seq<char>, i: int, text: Seq<char>)
    requires
        diary_reads_back(text),
        has_at(s, i, diary_text(text)),
    ensures
        diary_at(s, i) == Some((text, i + diary_text(text).len())),
{
    let head = seq!['<', '%', '%', '('];
    let foot = seq![')', '>'];
    assert(diary_text(text) == (head + text) + foot);
    lemma_has_at_split(s, i, head + text, foot);
    lemma_has_at_split(s, i, head, text);
    lemma_has_at(s, i, head);
    lemma_has_at(s, i + 4, text);
    lemma_has_at(s, i + 4 + text.len(), foot);
    assert(head[0] == '<' && head[1] == '%' && head[2] == '%' && head[3] == '(');
    assert(foot[0] == ')' && foot[1] == '>');
    let e = i + 4 + text.len() + 1;
    assert forall|k: int| i + 4 <= k < e implies #[trigger] s[k] != '>' && s[k] != '\n' by {
        if k < i + 4 + text.len() {
            assert(s[i + 4 + (k - i - 4)] == text[k - i - 4]);
        }
    }
    lemma_sexp_run(s, i + 4, e);
    assert(s.subrange(i + 4, e - 1) == text);
}

/// Whether a timestamp can be written and read back: its dates are of the
/// years 0 to 9999, its times are valid, the two ends of a range are
/// active or inactive alike, the start of a range of times has a time, and
/// the text of a diary entry holds neither `>` nor a line feed.
pub open spec fn reads_back(t: Stamp) -> bool {
    match t {
        Stamp::Diary(text) => diary_reads_back(text),
        Stamp::Point(p) => point_reads_back(p),
        Stamp::Range(r) => range_reads_back(r),
        Stamp::TimeRange(r) => time_range_reads_back(r),
    }
}

/// A timestamp that is written out is read as the timestamp that was
/// written, and nothing of the text is left over.
pub proof fn lemma_timestamp_round_trip(t: Stamp)
    requires
        reads_back(t),
    ensures
        timestamp_at(stamp_text(t), 0) == Some((t, stamp_text(t).len() as int)),
{
    let s = stamp_text(t);
    assert(s.subrange(0, s.len() as int) == s);
    match t {
        Stamp::Diary(text) => {
            lemma_diary(s, 0, text);
        },
        Stamp::Point(p) => {
            lemma_point(s, 0, p);
        },
        Stamp::Range(r) => {
            lemma_range(s, 0, r);
        },
        Stamp::TimeRange(r) => {
            lemma_time_range(s, 0, r);
        },
    }
}

} // verus!
