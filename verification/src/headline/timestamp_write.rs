//! The written form of timestamps.

use vstd::prelude::*;
use crate::headline::timestamp::{
    Date,
    Delay,
    DelayMark,
    Diary,
    Interval,
    Point,
    Range,
    Repeater,
    RepeaterAndDelay,
    RepeaterMark,
    Stamp,
    Time,
    TimeRange,
    TimeSpec,
    TimeUnit,
    Times,
    Timestamp,
};
use crate::headline::timestamp_parse::{digit_char, digit_for};
use crate::text::{chars_of, push_all, string_of};

verus! {

/// A number below 100 as two digits.
pub open spec fn two_digit_text(n: int) -> Seq<char> {
    seq![digit_char(n / 10), digit_char(n % 10)]
}

/// A number below 10000 as four digits.
pub open spec fn four_digit_text(n: int) -> Seq<char> {
    two_digit_text(n / 100) + two_digit_text(n % 100)
}

/// A number in decimal, without leading zeros.
pub open spec fn decimal_text(n: nat) -> Seq<char>
    decreases n,
{
    if n < 10 {
        seq![digit_char(n as int)]
    } else {
        decimal_text(n / 10).push(digit_char((n % 10) as int))
    }
}

/// A year: four digits from 0 to 9999, else a sign and at least four
/// digits.
pub open spec fn year_text(year: int) -> Seq<char> {
    if 0 <= year <= 9999 {
        four_digit_text(year)
    } else if year < 0 {
        seq!['-'] + (if -year <= 9999 {
            four_digit_text(-year)
        } else {
            decimal_text((-year) as nat)
        })
    } else {
        seq!['+'] + decimal_text(year as nat)
    }
}

pub open spec fn time_text(t: Time) -> Seq<char> {
    two_digit_text(t.hour as int) + seq![':'] + two_digit_text(t.minute as int)
}

pub open spec fn times_text(t: Times) -> Seq<char> {
    time_text(t.0) + seq!['-'] + time_text(t.1)
}

pub open spec fn time_spec_text(t: TimeSpec) -> Seq<char> {
    match t {
        TimeSpec::Time(t) => time_text(t),
        TimeSpec::Times(t) => times_text(t),
    }
}

pub open spec fn date_text(d: Date) -> Seq<char> {
    year_text(d.year as int) + seq!['-'] + two_digit_text(d.month as int) + seq!['-']
        + two_digit_text(d.day as int)
}

pub open spec fn unit_char(u: TimeUnit) -> char {
    match u {
        TimeUnit::Hour => 'h',
        TimeUnit::Day => 'd',
        TimeUnit::Week => 'w',
        TimeUnit::Month => 'm',
        TimeUnit::Year => 'y',
    }
}

pub open spec fn repeater_mark_text(m: RepeaterMark) -> Seq<char> {
    match m {
        RepeaterMark::CatchUp => seq!['+', '+'],
        RepeaterMark::Cumulate => seq!['+'],
        RepeaterMark::Restart => seq!['.', '+'],
    }
}

pub open spec fn delay_mark_text(m: DelayMark) -> Seq<char> {
    match m {
        DelayMark::All => seq!['-'],
        DelayMark::First => seq!['-', '-'],
    }
}

pub open spec fn interval_text(i: Interval) -> Seq<char> {
    decimal_text(i.value as nat).push(unit_char(i.unit))
}

pub open spec fn repeater_text(r: Repeater) -> Seq<char> {
    repeater_mark_text(r.mark) + interval_text(r.interval)
}

pub open spec fn delay_text(d: Delay) -> Seq<char> {
    delay_mark_text(d.mark) + interval_text(d.interval)
}

/// A repeater and a delay, the repeater first, a space between the two.
pub open spec fn cookie_text(c: RepeaterAndDelay) -> Seq<char> {
    match (c.repeater, c.delay) {
        (Some(r), Some(d)) => repeater_text(r) + seq![' '] + delay_text(d),
        (Some(r), None) => repeater_text(r),
        (None, Some(d)) => delay_text(d),
        (None, None) => Seq::empty(),
    }
}

/// A space and the repeater and delay, or nothing where there is neither.
pub open spec fn spaced_cookie_text(c: RepeaterAndDelay) -> Seq<char> {
    if c == RepeaterAndDelay::none() {
        Seq::empty()
    } else {
        seq![' '] + cookie_text(c)
    }
}

/// A space and the time, or nothing where there is none.
pub open spec fn spaced_time_text(t: Option<Time>) -> Seq<char> {
    match t {
        Some(t) => seq![' '] + time_text(t),
        None => Seq::empty(),
    }
}

pub open spec fn point_text(p: Point) -> Seq<char> {
    seq![p.active.brackets().0] + date_text(p.date) + spaced_time_text(p.time)
        + spaced_cookie_text(p.cookie) + seq![p.active.brackets().1]
}

pub open spec fn range_text(r: Range) -> Seq<char> {
    point_text(r.start) + seq!['-', '-'] + point_text(r.end)
}

/// A range of times; its start has a time.
pub open spec fn time_range_text(r: TimeRange) -> Seq<char> {
    seq![r.start.active.brackets().0] + date_text(r.start.date) + seq![' '] + time_text(
        r.start.time->0,
    ) + seq!['-'] + time_text(r.end_time) + spaced_cookie_text(r.start.cookie)
        + seq![r.start.active.brackets().1]
}

pub open spec fn diary_text(text: Seq<char>) -> Seq<char> {
    seq!['<', '%', '%', '('] + text + seq![')', '>']
}

pub open spec fn stamp_text(s: Stamp) -> Seq<char> {
    match s {
        Stamp::Diary(text) => diary_text(text),
        Stamp::Point(p) => point_text(p),
        Stamp::Range(r) => range_text(r),
        Stamp::TimeRange(r) => time_range_text(r),
    }
}

fn write_two_digits(out: &mut Vec<char>, n: u8)
    requires
        n < 100,
    ensures
        final(out)@ == old(out)@ + two_digit_text(n as int),
{
    out.push(digit_for(n / 10));
    out.push(digit_for(n % 10));
    assert(out@ =~= old(out)@ + two_digit_text(n as int));
}

fn write_four_digits(out: &mut Vec<char>, n: u32)
    requires
        n < 10000,
    ensures
        final(out)@ == old(out)@ + four_digit_text(n as int),
{
    write_two_digits(out, (n / 100) as u8);
    write_two_digits(out, (n % 100) as u8);
    assert(out@ =~= old(out)@ + four_digit_text(n as int));
}

fn write_decimal(out: &mut Vec<char>, n: usize)
    ensures
        final(out)@ == old(out)@ + decimal_text(n as nat),
    decreases n,
{
    if n >= 10 {
        write_decimal(out, n / 10);
    }
    out.push(digit_for((n % 10) as u8));
    assert(out@ =~= old(out)@ + decimal_text(n as nat));
}

fn write_year(out: &mut Vec<char>, year: i32)
    ensures
        final(out)@ == old(out)@ + year_text(year as int),
{
    if 0 <= year && year <= 9999 {
        write_four_digits(out, year as u32);
    } else if year < 0 {
        out.push('-');
        let n: u32 = if year == i32::MIN {
            2147483648u32
        } else {
            (-year) as u32
        };
        if n <= 9999 {
            write_four_digits(out, n);
        } else {
            write_decimal(out, n as usize);
        }
        assert(out@ =~= old(out)@ + year_text(year as int));
    } else {
        out.push('+');
        write_decimal(out, year as usize);
        assert(out@ =~= old(out)@ + year_text(year as int));
    }
}

fn write_time(out: &mut Vec<char>, t: Time)
    requires
        t.wf(),
    ensures
        final(out)@ == old(out)@ + time_text(t),
{
    write_two_digits(out, t.hour);
    out.push(':');
    write_two_digits(out, t.minute);
    assert(out@ =~= old(out)@ + time_text(t));
}

fn write_date(out: &mut Vec<char>, d: Date)
    requires
        d.wf(),
    ensures
        final(out)@ == old(out)@ + date_text(d),
{
    write_year(out, d.year);
    out.push('-');
    write_two_digits(out, d.month);
    out.push('-');
    write_two_digits(out, d.day);
    assert(out@ =~= old(out)@ + date_text(d));
}

fn write_interval(out: &mut Vec<char>, i: Interval)
    ensures
        final(out)@ == old(out)@ + interval_text(i),
{
    write_decimal(out, i.value);
    out.push(i.unit.as_char());
    assert(out@ =~= old(out)@ + interval_text(i));
}

fn write_repeater(out: &mut Vec<char>, r: Repeater)
    ensures
        final(out)@ == old(out)@ + repeater_text(r),
{
    match r.mark {
        RepeaterMark::CatchUp => {
            out.push('+');
            out.push('+');
        },
        RepeaterMark::Cumulate => {
            out.push('+');
        },
        RepeaterMark::Restart => {
            out.push('.');
            out.push('+');
        },
    }
    write_interval(out, r.interval);
    assert(out@ =~= old(out)@ + repeater_text(r));
}

fn write_delay(out: &mut Vec<char>, d: Delay)
    ensures
        final(out)@ == old(out)@ + delay_text(d),
{
    match d.mark {
        DelayMark::All => {
            out.push('-');
        },
        DelayMark::First => {
            out.push('-');
            out.push('-');
        },
    }
    write_interval(out, d.interval);
    assert(out@ =~= old(out)@ + delay_text(d));
}

fn write_cookie(out: &mut Vec<char>, c: RepeaterAndDelay)
    ensures
        final(out)@ == old(out)@ + cookie_text(c),
{
    match (c.repeater, c.delay) {
        (Some(r), Some(d)) => {
            write_repeater(out, r);
            out.push(' ');
            write_delay(out, d);
        },
        (Some(r), None) => {
            write_repeater(out, r);
        },
        (None, Some(d)) => {
            write_delay(out, d);
        },
        (None, None) => {},
    }
    assert(out@ =~= old(out)@ + cookie_text(c));
}

fn write_spaced_cookie(out: &mut Vec<char>, c: RepeaterAndDelay)
    ensures
        final(out)@ == old(out)@ + spaced_cookie_text(c),
{
    if !c.is_empty() {
        out.push(' ');
        write_cookie(out, c);
    }
    assert(out@ =~= old(out)@ + spaced_cookie_text(c));
}

fn write_point(out: &mut Vec<char>, p: Point)
    requires
        p.wf(),
    ensures
        final(out)@ == old(out)@ + point_text(p),
{
    let brackets = p.active.delimiters();
    out.push(brackets.0);
    write_date(out, p.date);
    if let Some(t) = p.time {
        out.push(' ');
        write_time(out, t);
    }
    write_spaced_cookie(out, p.cookie);
    out.push(brackets.1);
    assert(out@ =~= old(out)@ + point_text(p));
}

fn write_range(out: &mut Vec<char>, r: Range)
    requires
        r.start.wf(),
        r.end.wf(),
    ensures
        final(out)@ == old(out)@ + range_text(r),
{
    write_point(out, r.start);
    out.push('-');
    out.push('-');
    write_point(out, r.end);
    assert(out@ =~= old(out)@ + range_text(r));
}

fn write_time_range(out: &mut Vec<char>, r: TimeRange)
    requires
        r.wf(),
    ensures
        final(out)@ == old(out)@ + time_range_text(r),
{
    let brackets = r.start.active.delimiters();
    out.push(brackets.0);
    write_date(out, r.start.date);
    out.push(' ');
    match r.start.time {
        Some(t) => {
            write_time(out, t);
        },
        None => {},
    }
    out.push('-');
    write_time(out, r.end_time);
    write_spaced_cookie(out, r.start.cookie);
    out.push(brackets.1);
    assert(out@ =~= old(out)@ + time_range_text(r));
}

fn write_diary(out: &mut Vec<char>, d: &Diary)
    ensures
        final(out)@ == old(out)@ + diary_text(d@),
{
    out.push('<');
    out.push('%');
    out.push('%');
    out.push('(');
    let text = chars_of(d.0.as_str());
    push_all(out, &text);
    out.push(')');
    out.push('>');
    assert(out@ =~= old(out)@ + diary_text(d@));
}

/// Whether the parts of a timestamp are valid, so that it can be written.
pub open spec fn stamp_wf(s: Stamp) -> bool {
    match s {
        Stamp::Diary(_) => true,
        Stamp::Point(p) => p.wf(),
        Stamp::Range(r) => r.start.wf() && r.end.wf(),
        Stamp::TimeRange(r) => r.wf(),
    }
}

/// Writes a timestamp after `out`.
pub fn write_timestamp(out: &mut Vec<char>, t: &Timestamp)
    requires
        stamp_wf(t@),
    ensures
        final(out)@ == old(out)@ + stamp_text(t@),
{
    match t {
        Timestamp::Diary(d) => write_diary(out, d),
        Timestamp::Point(p) => write_point(out, *p),
        Timestamp::Range(r) => write_range(out, *r),
        Timestamp::TimeRange(r) => write_time_range(out, *r),
    }
}

impl TimeUnit {
    /// The letter of the unit.
    pub fn as_char(&self) -> (c: char)
        ensures
            c == unit_char(*self),
    {
        match self {
            TimeUnit::Hour => 'h',
            TimeUnit::Day => 'd',
            TimeUnit::Week => 'w',
            TimeUnit::Month => 'm',
            TimeUnit::Year => 'y',
        }
    }

    /// The letter of the unit as a string.
    pub fn as_str(&self) -> (text: &'static str)
        ensures
            text@ == seq![unit_char(*self)],
    {
        proof {
            reveal_strlit("h");
            reveal_strlit("d");
            reveal_strlit("w");
            reveal_strlit("m");
            reveal_strlit("y");
        }
        let text = match self {
            TimeUnit::Hour => "h",
            TimeUnit::Day => "d",
            TimeUnit::Week => "w",
            TimeUnit::Month => "m",
            TimeUnit::Year => "y",
        };
        assert(text@ =~= seq![unit_char(*self)]);
        text
    }

    /// The letter of the unit.
    pub fn to_string(&self) -> (text: String)
        ensures
            text@ == seq![unit_char(*self)],
    {
        let mut out: Vec<char> = Vec::new();
        out.push(self.as_char());
        string_of(&out)
    }
}

impl RepeaterMark {
    /// The mark as it is written.
    pub fn as_str(&self) -> (text: &'static str)
        ensures
            text@ == repeater_mark_text(*self),
    {
        proof {
            reveal_strlit("++");
            reveal_strlit("+");
            reveal_strlit(".+");
        }
        let text = match self {
            RepeaterMark::CatchUp => "++",
            RepeaterMark::Cumulate => "+",
            RepeaterMark::Restart => ".+",
        };
        assert(text@ =~= repeater_mark_text(*self));
        text
    }

    pub fn to_string(&self) -> (text: String)
        ensures
            text@ == repeater_mark_text(*self),
    {
        let mut out: Vec<char> = Vec::new();
        match self {
            RepeaterMark::CatchUp => {
                out.push('+');
                out.push('+');
            },
            RepeaterMark::Cumulate => {
                out.push('+');
            },
            RepeaterMark::Restart => {
                out.push('.');
                out.push('+');
            },
        }
        assert(out@ =~= repeater_mark_text(*self));
        string_of(&out)
    }
}

impl DelayMark {
    /// The mark as it is written.
    pub fn as_str(&self) -> (text: &'static str)
        ensures
            text@ == delay_mark_text(*self),
    {
        proof {
            reveal_strlit("-");
            reveal_strlit("--");
        }
        let text = match self {
            DelayMark::All => "-",
            DelayMark::First => "--",
        };
        assert(text@ =~= delay_mark_text(*self));
        text
    }

    pub fn to_string(&self) -> (text: String)
        ensures
            text@ == delay_mark_text(*self),
    {
        let mut out: Vec<char> = Vec::new();
        match self {
            DelayMark::All => {
                out.push('-');
            },
            DelayMark::First => {
                out.push('-');
                out.push('-');
            },
        }
        assert(out@ =~= delay_mark_text(*self));
        string_of(&out)
    }
}

impl Time {
    /// The time as `HH:MM`.
    pub fn to_string(&self) -> (text: String)
        requires
            self.wf(),
        ensures
            text@ == time_text(*self),
    {
        let mut out: Vec<char> = Vec::new();
        write_time(&mut out, *self);
        string_of(&out)
    }
}

impl Times {
    /// The two times as `HH:MM-HH:MM`.
    pub fn to_string(&self) -> (text: String)
        requires
            self.0.wf(),
            self.1.wf(),
        ensures
            text@ == times_text(*self),
    {
        let mut out: Vec<char> = Vec::new();
        write_time(&mut out, self.0);
        out.push('-');
        write_time(&mut out, self.1);
        assert(out@ =~= times_text(*self));
        string_of(&out)
    }
}

impl TimeSpec {
    pub fn to_string(&self) -> (text: String)
        requires
            crate::headline::timestamp_parse::time_spec_wf(*self),
        ensures
            text@ == time_spec_text(*self),
    {
        match self {
            TimeSpec::Time(t) => t.to_string(),
            TimeSpec::Times(t) => t.to_string(),
        }
    }
}

impl Date {
    /// The date as `YYYY-MM-DD`.
    pub fn to_string(&self) -> (text: String)
        requires
            self.wf(),
        ensures
            text@ == date_text(*self),
    {
        let mut out: Vec<char> = Vec::new();
        write_date(&mut out, *self);
        string_of(&out)
    }
}

impl Interval {
    pub fn to_string(&self) -> (text: String)
        ensures
            text@ == interval_text(*self),
    {
        let mut out: Vec<char> = Vec::new();
        write_interval(&mut out, *self);
        string_of(&out)
    }
}

impl Repeater {
    pub fn to_string(&self) -> (text: String)
        ensures
            text@ == repeater_text(*self),
    {
        let mut out: Vec<char> = Vec::new();
        write_repeater(&mut out, *self);
        string_of(&out)
    }
}

impl Delay {
    pub fn to_string(&self) -> (text: String)
        ensures
            text@ == delay_text(*self),
    {
        let mut out: Vec<char> = Vec::new();
        write_delay(&mut out, *self);
        string_of(&out)
    }
}

impl RepeaterAndDelay {
    pub fn to_string(&self) -> (text: String)
        ensures
            text@ == cookie_text(*self),
    {
        let mut out: Vec<char> = Vec::new();
        write_cookie(&mut out, *self);
        string_of(&out)
    }
}

impl Diary {
    /// The entry as `<%%(...)>`.
    pub fn to_string(&self) -> (text: String)
        ensures
            text@ == diary_text(self@),
    {
        let mut out: Vec<char> = Vec::new();
        write_diary(&mut out, self);
        string_of(&out)
    }
}

impl Point {
    pub fn to_string(&self) -> (text: String)
        requires
            self.wf(),
        ensures
            text@ == point_text(*self),
    {
        let mut out: Vec<char> = Vec::new();
        write_point(&mut out, *self);
        string_of(&out)
    }
}

impl Range {
    pub fn to_string(&self) -> (text: String)
        requires
            self.start.wf(),
            self.end.wf(),
        ensures
            text@ == range_text(*self),
    {
        let mut out: Vec<char> = Vec::new();
        write_range(&mut out, *self);
        string_of(&out)
    }
}

impl TimeRange {
    pub fn to_string(&self) -> (text: String)
        requires
            self.wf(),
        ensures
            text@ == time_range_text(*self),
    {
        let mut out: Vec<char> = Vec::new();
        write_time_range(&mut out, *self);
        string_of(&out)
    }
}

impl Timestamp {
    pub fn to_string(&self) -> (text: String)
        requires
            stamp_wf(self@),
        ensures
            text@ == stamp_text(self@),
    {
        let mut out: Vec<char> = Vec::new();
        write_timestamp(&mut out, self);
        string_of(&out)
    }
}

} // verus!
