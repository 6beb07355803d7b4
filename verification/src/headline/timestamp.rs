//! Org timestamps: points in time, ranges of them, and diary entries.

use vstd::prelude::*;

verus! {

/// A timestamp may be active (`<>`) or inactive (`[]`).
#[derive(Clone, Copy, Debug, PartialEq, Eq, Structural)]
pub enum Activity {
    Active,
    Inactive,
}

/// A time of day, with minute precision. e.g., `03:14`.
#[derive(Clone, Copy, Debug, PartialEq, Eq, Structural)]
pub struct Time {
    pub hour: u8,
    pub minute: u8,
}

/// A range of times of day, with minute precision. e.g., `5:00-7:00`.
#[derive(Clone, Copy, Debug, PartialEq, Eq, Structural)]
pub struct Times(pub Time, pub Time);

/// Either a `Time` or a `Times`.
#[derive(Clone, Copy, Debug, PartialEq, Eq, Structural)]
pub enum TimeSpec {
    Time(Time),
    Times(Times),
}

/// A calendar date without a timezone. e.g., `2020-01-23`.
#[derive(Clone, Copy, Debug, PartialEq, Eq, Structural)]
pub struct Date {
    pub year: i32,
    pub month: u8,
    pub day: u8,
}

/// A unit of time duration. One of `h`, `d`, `w`, `m`, and `y`.
#[derive(Debug, Copy, Clone, PartialEq, Eq, Structural)]
pub enum TimeUnit {
    Hour,
    Day,
    Week,
    Month,
    Year,
}

/// A repeater mark. One of `+`, `++`, and `.+`.
#[derive(Debug, Copy, Clone, PartialEq, Eq, Structural)]
pub enum RepeaterMark {
    Cumulate,
    CatchUp,
    Restart,
}

/// A delay mark. One of `-` and `--`.
#[derive(Clone, Copy, Debug, PartialEq, Eq, Structural)]
pub enum DelayMark {
    All,
    First,
}

/// An interval of time. e.g., `5d`, `1h`, `7y`, `09w`.
#[derive(Debug, Copy, Clone, PartialEq, Eq, Structural)]
pub struct Interval {
    pub value: usize,
    pub unit: TimeUnit,
}

/// A repeater. e.g., `+5d`, `++1w`.
#[derive(Debug, Copy, Clone, PartialEq, Eq, Structural)]
pub struct Repeater {
    pub mark: RepeaterMark,
    pub interval: Interval,
}

/// A delay or warning period. e.g., `-1d`, `--1w`.
#[derive(Debug, Copy, Clone, PartialEq, Eq, Structural)]
pub struct Delay {
    pub mark: DelayMark,
    pub interval: Interval,
}

/// A repeater and a delay, both optional. e.g., ``, `+1d -1w`, `--1y`.
#[derive(Clone, Copy, Debug, PartialEq, Eq, Structural)]
pub struct RepeaterAndDelay {
    pub repeater: Option<Repeater>,
    pub delay: Option<Delay>,
}

/// A diary timestamp: the expression between `<%%(` and `)>`.
#[derive(Clone, Debug, PartialEq, Eq)]
pub struct Diary(pub String);

/// A single point in time, without a time range.
#[derive(Clone, Copy, Debug, PartialEq, Eq, Structural)]
pub struct Point {
    pub active: Activity,
    pub date: Date,
    pub time: Option<Time>,
    pub cookie: RepeaterAndDelay,
}

/// A range between two points, `<...>--<...>`. Both ends are active or both
/// are inactive.
#[derive(Clone, Copy, Debug, PartialEq, Eq, Structural)]
pub struct Range {
    pub start: Point,
    pub end: Point,
}

/// A range of times on one day, `<2020-01-01 09:00-10:30>`.
#[derive(Clone, Copy, Debug, PartialEq, Eq, Structural)]
pub struct TimeRange {
    pub start: Point,
    pub end_time: Time,
}

/// Any timestamp.
#[derive(Clone, Debug, PartialEq, Eq)]
pub enum Timestamp {
    Diary(Diary),
    Point(Point),
    Range(Range),
    TimeRange(TimeRange),
}

/// A timestamp as a value: the text of a diary entry in place of the string
/// that holds it.
pub enum Stamp {
    Diary(Seq<char>),
    Point(Point),
    Range(Range),
    TimeRange(TimeRange),
}

impl View for Diary {
    type V = Seq<char>;

    open spec fn view(&self) -> Seq<char> {
        self.0@
    }
}

impl View for Timestamp {
    type V = Stamp;

    open spec fn view(&self) -> Stamp {
        match self {
            Timestamp::Diary(d) => Stamp::Diary(d@),
            Timestamp::Point(p) => Stamp::Point(*p),
            Timestamp::Range(r) => Stamp::Range(*r),
            Timestamp::TimeRange(r) => Stamp::TimeRange(*r),
        }
    }
}

/// Whether `year` is a leap year of the proleptic Gregorian calendar.
pub open spec fn is_leap_year(year: int) -> bool {
    year % 4 == 0 && (year % 100 != 0 || year % 400 == 0)
}

/// The number of days of the month `month` of `year`; 0 for no month.
pub open spec fn days_in_month(year: int, month: int) -> int {
    if month == 2 {
        if is_leap_year(year) {
            29
        } else {
            28
        }
    } else if month == 4 || month == 6 || month == 9 || month == 11 {
        30
    } else if 1 <= month <= 12 {
        31
    } else {
        0
    }
}

/// The least and the greatest year that a date can name.
pub const MIN_YEAR: i32 = -262143;

pub const MAX_YEAR: i32 = 262142;

/// Whether the three numbers name a day of the calendar.
pub open spec fn is_date(year: int, month: int, day: int) -> bool {
    MIN_YEAR <= year <= MAX_YEAR && 1 <= month <= 12 && 1 <= day <= days_in_month(year, month)
}

/// Whether the two numbers name a minute of the day.
pub open spec fn is_time(hour: int, minute: int) -> bool {
    0 <= hour < 24 && 0 <= minute < 60
}

/// Tests whether the three numbers name a day of the calendar.
pub fn is_valid_date(year: i32, month: u32, day: u32) -> (ok: bool)
    ensures
        ok == is_date(year as int, month as int, day as int),
{
    if year < MIN_YEAR || year > MAX_YEAR || month < 1 || month > 12 || day < 1 {
        return false;
    }
    let leap = year % 4 == 0 && (year % 100 != 0 || year % 400 == 0);
    let days: u32 = if month == 2 {
        if leap {
            29
        } else {
            28
        }
    } else if month == 4 || month == 6 || month == 9 || month == 11 {
        30
    } else {
        31
    };
    day <= days
}

impl Activity {
    pub fn new(active: bool) -> (a: Activity)
        ensures
            a == (if active {
                Activity::Active
            } else {
                Activity::Inactive
            }),
    {
        if active {
            Activity::Active
        } else {
            Activity::Inactive
        }
    }

    pub fn is_active(&self) -> (active: bool)
        ensures
            active == (*self == Activity::Active),
    {
        match self {
            Activity::Active => true,
            Activity::Inactive => false,
        }
    }

    /// The pair of brackets that encloses a timestamp of this kind.
    pub open spec fn brackets(self) -> (char, char) {
        match self {
            Activity::Active => ('<', '>'),
            Activity::Inactive => ('[', ']'),
        }
    }

    pub fn delimiters(&self) -> (d: (char, char))
        ensures
            d == self.brackets(),
    {
        match self {
            Activity::Active => ('<', '>'),
            Activity::Inactive => ('[', ']'),
        }
    }
}

impl Default for Activity {
    fn default() -> (a: Activity)
        ensures
            a == Activity::Active,
    {
        Activity::Active
    }
}

impl Interval {
    pub fn new(value: usize, unit: TimeUnit) -> (i: Interval)
        ensures
            i == (Interval { value, unit }),
    {
        Interval { value, unit }
    }

    pub fn value(&self) -> (value: usize)
        ensures
            value == self.value,
    {
        self.value
    }

    pub fn unit(&self) -> (unit: TimeUnit)
        ensures
            unit == self.unit,
    {
        self.unit
    }

    pub fn with_value(&self, value: usize) -> (i: Interval)
        ensures
            i == (Interval { value, unit: self.unit }),
    {
        Interval { value, unit: self.unit }
    }

    pub fn with_unit(&self, unit: TimeUnit) -> (i: Interval)
        ensures
            i == (Interval { value: self.value, unit }),
    {
        Interval { value: self.value, unit }
    }
}

impl Repeater {
    pub fn new(mark: RepeaterMark, interval: Interval) -> (r: Repeater)
        ensures
            r == (Repeater { mark, interval }),
    {
        Repeater { mark, interval }
    }

    pub fn mark(&self) -> (mark: RepeaterMark)
        ensures
            mark == self.mark,
    {
        self.mark
    }

    pub fn interval(&self) -> (interval: Interval)
        ensures
            interval == self.interval,
    {
        self.interval
    }

    pub fn value(&self) -> (value: usize)
        ensures
            value == self.interval.value,
    {
        self.interval.value
    }

    pub fn unit(&self) -> (unit: TimeUnit)
        ensures
            unit == self.interval.unit,
    {
        self.interval.unit
    }

    pub fn with_mark(&self, mark: RepeaterMark) -> (r: Repeater)
        ensures
            r == (Repeater { mark, interval: self.interval }),
    {
        Repeater { mark, interval: self.interval }
    }

    pub fn with_interval(&self, interval: Interval) -> (r: Repeater)
        ensures
            r == (Repeater { mark: self.mark, interval }),
    {
        Repeater { mark: self.mark, interval }
    }

    pub fn with_unit(&self, unit: TimeUnit) -> (r: Repeater)
        ensures
            r == (Repeater { mark: self.mark, interval: Interval { value: self.interval.value, unit } }),
    {
        Repeater { mark: self.mark, interval: self.interval.with_unit(unit) }
    }

    pub fn with_value(&self, value: usize) -> (r: Repeater)
        ensures
            r == (Repeater { mark: self.mark, interval: Interval { value, unit: self.interval.unit } }),
    {
        Repeater { mark: self.mark, interval: self.interval.with_value(value) }
    }
}

impl Delay {
    pub fn new(mark: DelayMark, interval: Interval) -> (d: Delay)
        ensures
            d == (Delay { mark, interval }),
    {
        Delay { mark, interval }
    }

    pub fn mark(&self) -> (mark: DelayMark)
        ensures
            mark == self.mark,
    {
        self.mark
    }

    pub fn interval(&self) -> (interval: Interval)
        ensures
            interval == self.interval,
    {
        self.interval
    }

    pub fn value(&self) -> (value: usize)
        ensures
            value == self.interval.value,
    {
        self.interval.value
    }

    pub fn unit(&self) -> (unit: TimeUnit)
        ensures
            unit == self.interval.unit,
    {
        self.interval.unit
    }

    pub fn with_mark(&self, mark: DelayMark) -> (d: Delay)
        ensures
            d == (Delay { mark, interval: self.interval }),
    {
        Delay { mark, interval: self.interval }
    }

    pub fn with_interval(&self, interval: Interval) -> (d: Delay)
        ensures
            d == (Delay { mark: self.mark, interval }),
    {
        Delay { mark: self.mark, interval }
    }

    pub fn with_unit(&self, unit: TimeUnit) -> (d: Delay)
        ensures
            d == (Delay { mark: self.mark, interval: Interval { value: self.interval.value, unit } }),
    {
        Delay { mark: self.mark, interval: self.interval.with_unit(unit) }
    }

    pub fn with_value(&self, value: usize) -> (d: Delay)
        ensures
            d == (Delay { mark: self.mark, interval: Interval { value, unit: self.interval.unit } }),
    {
        Delay { mark: self.mark, interval: self.interval.with_value(value) }
    }
}

impl RepeaterAndDelay {
    pub fn new(repeater: Option<Repeater>, delay: Option<Delay>) -> (c: RepeaterAndDelay)
        ensures
            c == (RepeaterAndDelay { repeater, delay }),
    {
        RepeaterAndDelay { repeater, delay }
    }

    pub fn with_repeater(&self, repeater: Option<Repeater>) -> (c: RepeaterAndDelay)
        ensures
            c == (RepeaterAndDelay { repeater, delay: self.delay }),
    {
        RepeaterAndDelay { repeater, delay: self.delay }
    }

    pub fn with_delay(&self, delay: Option<Delay>) -> (c: RepeaterAndDelay)
        ensures
            c == (RepeaterAndDelay { repeater: self.repeater, delay }),
    {
        RepeaterAndDelay { repeater: self.repeater, delay }
    }

    /// Neither a repeater nor a delay.
    pub open spec fn none() -> RepeaterAndDelay {
        RepeaterAndDelay { repeater: None, delay: None }
    }

    /// Whether there is neither a repeater nor a delay.
    pub fn is_empty(&self) -> (empty: bool)
        ensures
            empty == (*self == RepeaterAndDelay::none()),
    {
        self.repeater.is_none() && self.delay.is_none()
    }
}

impl Default for RepeaterAndDelay {
    fn default() -> (c: RepeaterAndDelay)
        ensures
            c == RepeaterAndDelay::none(),
    {
        RepeaterAndDelay { repeater: None, delay: None }
    }
}

impl Time {
    /// Whether the hour and the minute name a minute of the day.
    pub open spec fn wf(&self) -> bool {
        is_time(self.hour as int, self.minute as int)
    }

    pub fn new(hour: u32, minute: u32) -> (t: Time)
        requires
            is_time(hour as int, minute as int),
        ensures
            t.hour == hour,
            t.minute == minute,
            t.wf(),
    {
        Time { hour: hour as u8, minute: minute as u8 }
    }

    pub fn hour(self) -> (hour: u8)
        ensures
            hour == self.hour,
    {
        self.hour
    }

    pub fn minute(self) -> (minute: u8)
        ensures
            minute == self.minute,
    {
        self.minute
    }

    /// The time with another hour.
    pub fn with_hour(self, hour: u32) -> (t: Time)
        requires
            self.wf(),
            hour < 24,
        ensures
            t.hour == hour,
            t.minute == self.minute,
            t.wf(),
    {
        Time::new(hour, self.minute as u32)
    }

    /// The time whose hour is `minute` and whose minute is the hour of this
    /// time.
    pub fn with_minute(self, minute: u32) -> (t: Time)
        requires
            self.wf(),
            minute < 24,
        ensures
            t.hour == minute,
            t.minute == self.hour,
            t.wf(),
    {
        Time::new(minute, self.hour as u32)
    }
}

impl Default for Time {
    fn default() -> (t: Time)
        ensures
            t == (Time { hour: 0, minute: 0 }),
    {
        Time { hour: 0, minute: 0 }
    }
}

impl Times {
    pub fn start(&self) -> (t: Time)
        ensures
            t == self.0,
    {
        self.0
    }

    /// The first of the two times: a range of times reports its start as
    /// its end too.
    pub fn end(&self) -> (t: Time)
        ensures
            t == self.0,
    {
        self.0
    }

    pub fn with_start(&self, start: Time) -> (t: Times)
        ensures
            t == Times(start, self.1),
    {
        Times(start, self.1)
    }

    pub fn with_end(&self, end: Time) -> (t: Times)
        ensures
            t == Times(self.0, end),
    {
        Times(self.0, end)
    }
}

impl TimeSpec {
    pub fn start(&self) -> (t: Time)
        ensures
            t == (match *self {
                TimeSpec::Time(time) => time,
                TimeSpec::Times(times) => times.0,
            }),
    {
        match self {
            TimeSpec::Time(time) => *time,
            TimeSpec::Times(times) => times.0,
        }
    }

    pub fn end(&self) -> (t: Option<Time>)
        ensures
            t == (match *self {
                TimeSpec::Time(time) => None,
                TimeSpec::Times(times) => Some(times.1),
            }),
    {
        match self {
            TimeSpec::Time(_time) => None,
            TimeSpec::Times(times) => Some(times.1),
        }
    }
}

impl Default for TimeSpec {
    fn default() -> (t: TimeSpec)
        ensures
            t == TimeSpec::Time(Time { hour: 0, minute: 0 }),
    {
        TimeSpec::Time(Time { hour: 0, minute: 0 })
    }
}

impl Date {
    /// Whether the date names a day of the calendar.
    pub open spec fn wf(&self) -> bool {
        is_date(self.year as int, self.month as int, self.day as int)
    }

    pub fn new(year: i32, month: u32, day: u32) -> (d: Date)
        requires
            is_date(year as int, month as int, day as int),
        ensures
            d.year == year,
            d.month == month,
            d.day == day,
            d.wf(),
    {
        Date { year, month: month as u8, day: day as u8 }
    }

    /// Whether this date is the same day as `other` or an earlier one.
    pub open spec fn not_after(self, other: Date) -> bool {
        self.year < other.year || (self.year == other.year && (self.month < other.month || (
        self.month == other.month && self.day <= other.day)))
    }

    /// Tests whether this date is the same day as `other` or an earlier one.
    pub fn is_not_after(&self, other: &Date) -> (r: bool)
        ensures
            r == self.not_after(*other),
    {
        self.year < other.year || (self.year == other.year && (self.month < other.month || (
        self.month == other.month && self.day <= other.day)))
    }
}

impl Point {
    /// An active point on `date`, without time, repeater or delay.
    pub fn new(date: Date) -> (p: Point)
        ensures
            p == (Point {
                active: Activity::Active,
                date,
                time: None,
                cookie: RepeaterAndDelay::none(),
            }),
    {
        Point {
            active: Activity::Active,
            date,
            time: None,
            cookie: RepeaterAndDelay { repeater: None, delay: None },
        }
    }

    pub fn with_active(&self, active: Activity) -> (p: Point)
        ensures
            p == (Point { active, ..*self }),
    {
        Point { active, date: self.date, time: self.time, cookie: self.cookie }
    }

    pub fn with_time(&self, time: Option<Time>) -> (p: Point)
        ensures
            p == (Point { time, ..*self }),
    {
        Point { active: self.active, date: self.date, time, cookie: self.cookie }
    }

    pub fn with_date(&self, date: Date) -> (p: Point)
        ensures
            p == (Point { date, ..*self }),
    {
        Point { active: self.active, date, time: self.time, cookie: self.cookie }
    }

    pub fn with_cookie(&self, cookie: RepeaterAndDelay) -> (p: Point)
        ensures
            p == (Point { cookie, ..*self }),
    {
        Point { active: self.active, date: self.date, time: self.time, cookie }
    }

    pub fn with_repeater(&self, repeater: Option<Repeater>) -> (p: Point)
        ensures
            p == (Point {
                cookie: RepeaterAndDelay { repeater, delay: self.cookie.delay },
                ..*self
            }),
    {
        Point {
            active: self.active,
            date: self.date,
            time: self.time,
            cookie: self.cookie.with_repeater(repeater),
        }
    }

    pub fn with_delay(&self, delay: Option<Delay>) -> (p: Point)
        ensures
            p == (Point {
                cookie: RepeaterAndDelay { repeater: self.cookie.repeater, delay },
                ..*self
            }),
    {
        Point {
            active: self.active,
            date: self.date,
            time: self.time,
            cookie: self.cookie.with_delay(delay),
        }
    }

    /// Whether the date and the time of the point are valid.
    pub open spec fn wf(&self) -> bool {
        self.date.wf() && (self.time matches Some(t) ==> t.wf())
    }
}

impl Range {
    /// The range from `start` to `end`; `end` is made active or inactive as
    /// `start` is.
    pub fn new(start: Point, end: Point) -> (r: Range)
        ensures
            r == (Range { start, end: Point { active: start.active, ..end } }),
    {
        Range { start, end: end.with_active(start.active) }
    }

    /// The range with another start, which is made active or inactive as
    /// the old start was.
    pub fn with_start(&self, start: Point) -> (r: Range)
        ensures
            r == (Range { start: Point { active: self.start.active, ..start }, end: self.end }),
    {
        Range { start: start.with_active(self.start.active), end: self.end }
    }

    /// The range with another end, which is made active or inactive as the
    /// old end was.
    pub fn with_end(&self, end: Point) -> (r: Range)
        ensures
            r == (Range { start: self.start, end: Point { active: self.end.active, ..end } }),
    {
        Range { start: self.start, end: end.with_active(self.end.active) }
    }

    pub fn with_active(&self, active: Activity) -> (r: Range)
        ensures
            r == (Range {
                start: Point { active, ..self.start },
                end: Point { active, ..self.end },
            }),
    {
        Range { start: self.start.with_active(active), end: self.end.with_active(active) }
    }

    /// Whether both ends are valid and are active or inactive alike.
    pub open spec fn wf(&self) -> bool {
        self.start.wf() && self.end.wf() && self.start.active == self.end.active
    }
}

impl TimeRange {
    pub fn new(start: Point, end_time: Time) -> (r: TimeRange)
        ensures
            r == (TimeRange { start, end_time }),
    {
        TimeRange { start, end_time }
    }

    /// The range with another start, which is made active or inactive as
    /// the old start was.
    pub fn with_start(&self, start: Point) -> (r: TimeRange)
        ensures
            r == (TimeRange {
                start: Point { active: self.start.active, ..start },
                end_time: self.end_time,
            }),
    {
        TimeRange { start: start.with_active(self.start.active), end_time: self.end_time }
    }

    pub fn with_start_time(&self, start_time: Time) -> (r: TimeRange)
        ensures
            r == (TimeRange {
                start: Point { time: Some(start_time), ..self.start },
                end_time: self.end_time,
            }),
    {
        TimeRange { start: self.start.with_time(Some(start_time)), end_time: self.end_time }
    }

    pub fn with_end_time(&self, end_time: Time) -> (r: TimeRange)
        ensures
            r == (TimeRange { start: self.start, end_time }),
    {
        TimeRange { start: self.start, end_time }
    }

    pub fn with_start_and_end(&self, start_time: Time, end_time: Time) -> (r: TimeRange)
        ensures
            r == (TimeRange { start: Point { time: Some(start_time), ..self.start }, end_time }),
    {
        TimeRange { start: self.start.with_time(Some(start_time)), end_time }
    }

    pub fn with_times(&self, times: Times) -> (r: TimeRange)
        ensures
            r == (TimeRange { start: Point { time: Some(times.0), ..self.start }, end_time: times.1 }),
    {
        self.with_start_and_end(times.0, times.1)
    }

    pub fn with_active(&self, active: Activity) -> (r: TimeRange)
        ensures
            r == (TimeRange { start: Point { active, ..self.start }, end_time: self.end_time }),
    {
        TimeRange { start: self.start.with_active(active), end_time: self.end_time }
    }

    /// Whether the start is valid and has a time, and the end time is
    /// valid.
    pub open spec fn wf(&self) -> bool {
        self.start.wf() && self.start.time is Some && self.end_time.wf()
    }
}

impl Diary {
    pub fn new(s: &str) -> (d: Diary)
        ensures
            d@ == s@,
    {
        Diary(s.to_string())
    }

    pub fn into_owned(self) -> (d: Diary)
        ensures
            d@ == self@,
    {
        self
    }

    pub fn to_borrowed(&self) -> (d: Diary)
        ensures
            d@ == self@,
    {
        Diary(self.0.clone())
    }
}

impl Default for Diary {
    fn default() -> (d: Diary)
        ensures
            d@ == Seq::<char>::empty(),
    {
        Diary(String::new())
    }
}

impl Timestamp {
    pub fn into_owned(self) -> (t: Timestamp)
        ensures
            t@ == self@,
    {
        self
    }

    pub fn to_borrowed(&self) -> (t: Timestamp)
        ensures
            t@ == self@,
    {
        match self {
            Timestamp::Diary(diary) => Timestamp::Diary(diary.to_borrowed()),
            Timestamp::Point(point) => Timestamp::Point(*point),
            Timestamp::Range(range) => Timestamp::Range(*range),
            Timestamp::TimeRange(range) => Timestamp::TimeRange(*range),
        }
    }
}

/// The point at which a timestamp starts; a diary entry has none.
pub open spec fn start_point_of(s: Stamp) -> Option<Point> {
    match s {
        Stamp::Diary(_) => None,
        Stamp::Point(p) => Some(p),
        Stamp::Range(r) => Some(r.start),
        Stamp::TimeRange(r) => Some(r.start),
    }
}

/// The point at which a range ends; for a range of times, its start with
/// the end time.
pub open spec fn end_point_of(s: Stamp) -> Option<Point> {
    match s {
        Stamp::Diary(_) => None,
        Stamp::Point(_) => None,
        Stamp::Range(r) => Some(r.end),
        Stamp::TimeRange(r) => Some(Point { time: Some(r.end_time), ..r.start }),
    }
}

/// The time of day at which a timestamp starts.
pub open spec fn start_time_of(s: Stamp) -> Option<Time> {
    match s {
        Stamp::Diary(_) => None,
        Stamp::Point(p) => p.time,
        Stamp::Range(r) => r.start.time,
        Stamp::TimeRange(r) => r.start.time,
    }
}

/// The time of day at which a range ends.
pub open spec fn end_time_of(s: Stamp) -> Option<Time> {
    match s {
        Stamp::Diary(_) => None,
        Stamp::Point(_) => None,
        Stamp::Range(r) => r.end.time,
        Stamp::TimeRange(r) => Some(r.end_time),
    }
}

/// Whether a timestamp is active; a diary entry always is.
pub open spec fn activity_of(s: Stamp) -> Activity {
    match s {
        Stamp::Diary(_) => Activity::Active,
        Stamp::Point(p) => p.active,
        Stamp::Range(r) => r.start.active,
        Stamp::TimeRange(r) => r.start.active,
    }
}

/// The one date of a timestamp that has one date.
pub open spec fn date_of(s: Stamp) -> Option<Date> {
    match s {
        Stamp::Diary(_) => None,
        Stamp::Point(p) => Some(p.date),
        Stamp::Range(_) => None,
        Stamp::TimeRange(r) => Some(r.start.date),
    }
}

/// The one time of a timestamp that has one time.
pub open spec fn time_of(s: Stamp) -> Option<Time> {
    match s {
        Stamp::Point(p) => p.time,
        _ => None,
    }
}

/// The one repeater and delay of a timestamp that has one.
pub open spec fn cookie_of(s: Stamp) -> Option<RepeaterAndDelay> {
    match s {
        Stamp::Diary(_) => None,
        Stamp::Point(p) => Some(p.cookie),
        Stamp::Range(_) => None,
        Stamp::TimeRange(r) => Some(r.start.cookie),
    }
}

/// The first and the last day that a timestamp covers; a diary entry covers
/// none, and a range of times the day of its start.
pub open spec fn days_of(s: Stamp) -> Option<(Date, Date)> {
    match s {
        Stamp::Diary(_) => None,
        Stamp::Point(p) => Some((p.date, p.date)),
        Stamp::Range(r) => Some((r.start.date, r.end.date)),
        Stamp::TimeRange(r) => Some((r.start.date, r.start.date)),
    }
}

/// Whether two timestamps have a day in common, whatever their times.
pub open spec fn dates_overlap(a: Stamp, b: Stamp) -> bool {
    match (days_of(a), days_of(b)) {
        (Some(x), Some(y)) => x.0.not_after(y.1) && y.0.not_after(x.1),
        _ => false,
    }
}

/// The first and the last day that a timestamp covers.
pub fn days_covered(t: &Timestamp) -> (days: Option<(Date, Date)>)
    ensures
        days == days_of(t@),
{
    match t {
        Timestamp::Diary(_) => None,
        Timestamp::Point(p) => Some((p.date, p.date)),
        Timestamp::Range(r) => Some((r.start.date, r.end.date)),
        Timestamp::TimeRange(r) => Some((r.start.date, r.start.date)),
    }
}

/// Tests whether two timestamps have a day in common.
pub fn timestamps_overlap(a: &Timestamp, b: &Timestamp) -> (r: bool)
    ensures
        r == dates_overlap(a@, b@),
{
    match (days_covered(a), days_covered(b)) {
        (Some(x), Some(y)) => x.0.is_not_after(&y.1) && y.0.is_not_after(&x.1),
        _ => false,
    }
}

/// What every kind of timestamp can tell of itself.
pub trait TimestampExt {
    /// The timestamp as a value.
    spec fn stamp(&self) -> Stamp;

    fn to_timestamp(&self) -> (t: Timestamp)
        ensures
            t@ == self.stamp(),
    ;

    fn start_timestamp(&self) -> (t: Option<Timestamp>)
        ensures
            t is Some <==> start_point_of(self.stamp()) is Some,
            t matches Some(x) ==> x@ == Stamp::Point(start_point_of(self.stamp())->0),
    ;

    fn end_timestamp(&self) -> (t: Option<Timestamp>)
        ensures
            t is Some <==> end_point_of(self.stamp()) is Some,
            t matches Some(x) ==> x@ == Stamp::Point(end_point_of(self.stamp())->0),
    ;

    fn start_point(&self) -> (p: Option<Point>)
        ensures
            p == start_point_of(self.stamp()),
    ;

    fn end_point(&self) -> (p: Option<Point>)
        ensures
            p == end_point_of(self.stamp()),
    ;

    fn start_time(&self) -> (t: Option<Time>)
        ensures
            t == start_time_of(self.stamp()),
    ;

    fn end_time(&self) -> (t: Option<Time>)
        ensures
            t == end_time_of(self.stamp()),
    ;

    fn active(&self) -> (a: Activity)
        ensures
            a == activity_of(self.stamp()),
    ;

    fn date_overlap(&self, other: &Timestamp) -> (r: bool)
        ensures
            r == dates_overlap(self.stamp(), other@),
    ;

    fn date(&self) -> (d: Option<Date>)
        ensures
            d == date_of(self.stamp()),
    ;

    fn time(&self) -> (t: Option<Time>)
        ensures
            t == time_of(self.stamp()),
    ;

    fn cookie(&self) -> (c: Option<RepeaterAndDelay>)
        ensures
            c == cookie_of(self.stamp()),
    ;
}

/// A point as a timestamp of its own.
fn point_stamp(p: Option<Point>) -> (t: Option<Timestamp>)
    ensures
        t is Some <==> p is Some,
        t matches Some(x) ==> x@ == Stamp::Point(p->0),
{
    match p {
        Some(point) => Some(Timestamp::Point(point)),
        None => None,
    }
}

impl TimestampExt for Point {
    open spec fn stamp(&self) -> Stamp {
        Stamp::Point(*self)
    }

    fn to_timestamp(&self) -> (t: Timestamp) {
        Timestamp::Point(*self)
    }

    fn start_timestamp(&self) -> (t: Option<Timestamp>) {
        point_stamp(self.start_point())
    }

    fn end_timestamp(&self) -> (t: Option<Timestamp>) {
        point_stamp(self.end_point())
    }

    fn start_point(&self) -> (p: Option<Point>) {
        Some(*self)
    }

    fn end_point(&self) -> (p: Option<Point>) {
        None
    }

    fn start_time(&self) -> (t: Option<Time>) {
        self.time
    }

    fn end_time(&self) -> (t: Option<Time>) {
        None
    }

    fn active(&self) -> (a: Activity) {
        self.active
    }

    fn date_overlap(&self, other: &Timestamp) -> (r: bool) {
        timestamps_overlap(&self.to_timestamp(), other)
    }

    fn date(&self) -> (d: Option<Date>) {
        Some(self.date)
    }

    fn time(&self) -> (t: Option<Time>) {
        self.time
    }

    fn cookie(&self) -> (c: Option<RepeaterAndDelay>) {
        Some(self.cookie)
    }
}

impl TimestampExt for Diary {
    open spec fn stamp(&self) -> Stamp {
        Stamp::Diary(self@)
    }

    fn to_timestamp(&self) -> (t: Timestamp) {
        Timestamp::Diary(self.to_borrowed())
    }

    fn start_timestamp(&self) -> (t: Option<Timestamp>) {
        point_stamp(self.start_point())
    }

    fn end_timestamp(&self) -> (t: Option<Timestamp>) {
        point_stamp(self.end_point())
    }

    fn start_point(&self) -> (p: Option<Point>) {
        None
    }

    fn end_point(&self) -> (p: Option<Point>) {
        None
    }

    fn start_time(&self) -> (t: Option<Time>) {
        None
    }

    fn end_time(&self) -> (t: Option<Time>) {
        None
    }

    fn active(&self) -> (a: Activity) {
        Activity::Active
    }

    fn date_overlap(&self, other: &Timestamp) -> (r: bool) {
        timestamps_overlap(&self.to_timestamp(), other)
    }

    fn date(&self) -> (d: Option<Date>) {
        None
    }

    fn time(&self) -> (t: Option<Time>) {
        None
    }

    fn cookie(&self) -> (c: Option<RepeaterAndDelay>) {
        None
    }
}

impl TimestampExt for Range {
    open spec fn stamp(&self) -> Stamp {
        Stamp::Range(*self)
    }

    fn to_timestamp(&self) -> (t: Timestamp) {
        Timestamp::Range(*self)
    }

    fn start_timestamp(&self) -> (t: Option<Timestamp>) {
        point_stamp(self.start_point())
    }

    fn end_timestamp(&self) -> (t: Option<Timestamp>) {
        point_stamp(self.end_point())
    }

    fn start_point(&self) -> (p: Option<Point>) {
        Some(self.start)
    }

    fn end_point(&self) -> (p: Option<Point>) {
        Some(self.end)
    }

    fn start_time(&self) -> (t: Option<Time>) {
        self.start.time
    }

    fn end_time(&self) -> (t: Option<Time>) {
        self.end.time
    }

    fn active(&self) -> (a: Activity) {
        self.start.active
    }

    fn date_overlap(&self, other: &Timestamp) -> (r: bool) {
        timestamps_overlap(&self.to_timestamp(), other)
    }

    fn date(&self) -> (d: Option<Date>) {
        None
    }

    fn time(&self) -> (t: Option<Time>) {
        None
    }

    fn cookie(&self) -> (c: Option<RepeaterAndDelay>) {
        None
    }
}

impl TimestampExt for TimeRange {
    open spec fn stamp(&self) -> Stamp {
        Stamp::TimeRange(*self)
    }

    fn to_timestamp(&self) -> (t: Timestamp) {
        Timestamp::TimeRange(*self)
    }

    fn start_timestamp(&self) -> (t: Option<Timestamp>) {
        point_stamp(self.start_point())
    }

    fn end_timestamp(&self) -> (t: Option<Timestamp>) {
        point_stamp(self.end_point())
    }

    fn start_point(&self) -> (p: Option<Point>) {
        Some(self.start)
    }

    fn end_point(&self) -> (p: Option<Point>) {
        Some(self.start.with_time(Some(self.end_time)))
    }

    fn start_time(&self) -> (t: Option<Time>) {
        self.start.time
    }

    fn end_time(&self) -> (t: Option<Time>) {
        Some(self.end_time)
    }

    fn active(&self) -> (a: Activity) {
        self.start.active
    }

    fn date_overlap(&self, other: &Timestamp) -> (r: bool) {
        timestamps_overlap(&self.to_timestamp(), other)
    }

    fn date(&self) -> (d: Option<Date>) {
        Some(self.start.date)
    }

    fn time(&self) -> (t: Option<Time>) {
        None
    }

    fn cookie(&self) -> (c: Option<RepeaterAndDelay>) {
        Some(self.start.cookie)
    }
}

impl TimestampExt for Timestamp {
    open spec fn stamp(&self) -> Stamp {
        self@
    }

    fn to_timestamp(&self) -> (t: Timestamp) {
        self.to_borrowed()
    }

    fn start_timestamp(&self) -> (t: Option<Timestamp>) {
        point_stamp(self.start_point())
    }

    fn end_timestamp(&self) -> (t: Option<Timestamp>) {
        point_stamp(self.end_point())
    }

    fn start_point(&self) -> (p: Option<Point>) {
        match self {
            Timestamp::Diary(_) => None,
            Timestamp::Point(point) => Some(*point),
            Timestamp::Range(range) => Some(range.start),
            Timestamp::TimeRange(range) => Some(range.start),
        }
    }

    fn end_point(&self) -> (p: Option<Point>) {
        match self {
            Timestamp::Diary(_) => None,
            Timestamp::Point(point) => None,
            Timestamp::Range(range) => Some(range.end),
            Timestamp::TimeRange(range) => Some(range.start.with_time(Some(range.end_time))),
        }
    }

    fn start_time(&self) -> (t: Option<Time>) {
        match self {
            Timestamp::Diary(_) => None,
            Timestamp::Point(point) => point.time,
            Timestamp::Range(range) => range.start.time,
            Timestamp::TimeRange(range) => range.start.time,
        }
    }

    fn end_time(&self) -> (t: Option<Time>) {
        match self {
            Timestamp::Diary(_) => None,
            Timestamp::Point(point) => None,
            Timestamp::Range(range) => range.end.time,
            Timestamp::TimeRange(range) => Some(range.end_time),
        }
    }

    fn active(&self) -> (a: Activity) {
        match self {
            Timestamp::Diary(_) => Activity::Active,
            Timestamp::Point(point) => point.active,
            Timestamp::Range(range) => range.start.active,
            Timestamp::TimeRange(range) => range.start.active,
        }
    }

    fn date_overlap(&self, other: &Timestamp) -> (r: bool) {
        timestamps_overlap(&self.to_timestamp(), other)
    }

    fn date(&self) -> (d: Option<Date>) {
        match self {
            Timestamp::Diary(_) => None,
            Timestamp::Point(point) => Some(point.date),
            Timestamp::Range(range) => None,
            Timestamp::TimeRange(range) => Some(range.start.date),
        }
    }

    fn time(&self) -> (t: Option<Time>) {
        match self {
            Timestamp::Diary(_) => None,
            Timestamp::Point(point) => point.time,
            Timestamp::Range(range) => None,
            Timestamp::TimeRange(range) => None,
        }
    }

    fn cookie(&self) -> (c: Option<RepeaterAndDelay>) {
        match self {
            Timestamp::Diary(_) => None,
            Timestamp::Point(point) => Some(point.cookie),
            Timestamp::Range(range) => None,
            Timestamp::TimeRange(range) => Some(range.start.cookie),
        }
    }
}

impl Activity {
    /// Active for `true`, inactive for `false`.
    pub fn from_bool(active: bool) -> (a: Activity)
        ensures
            a == (if active {
                Activity::Active
            } else {
                Activity::Inactive
            }),
    {
        Activity::new(active)
    }

    /// Whether the activity is `Active`.
    pub fn into_bool(self) -> (active: bool)
        ensures
            active == (self == Activity::Active),
    {
        self.is_active()
    }
}

impl TimeSpec {
    /// The single time, where this is one.
    pub fn try_into_time(self) -> (t: Result<Time, ()>)
        ensures
            t == (match self {
                TimeSpec::Time(time) => Ok::<Time, ()>(time),
                TimeSpec::Times(_) => Err::<Time, ()>(()),
            }),
    {
        match self {
            TimeSpec::Time(time) => Ok(time),
            _ => Err(()),
        }
    }

    /// The range of times, where this is one.
    pub fn try_into_times(self) -> (t: Result<Times, ()>)
        ensures
            t == (match self {
                TimeSpec::Times(times) => Ok::<Times, ()>(times),
                TimeSpec::Time(_) => Err::<Times, ()>(()),
            }),
    {
        match self {
            TimeSpec::Times(times) => Ok(times),
            _ => Err(()),
        }
    }

    pub fn from_time(time: Time) -> (t: TimeSpec)
        ensures
            t == TimeSpec::Time(time),
    {
        TimeSpec::Time(time)
    }

    pub fn from_times(times: Times) -> (t: TimeSpec)
        ensures
            t == TimeSpec::Times(times),
    {
        TimeSpec::Times(times)
    }
}

impl Point {
    /// An active point on `date`, without time, repeater or delay.
    pub fn from_date(date: Date) -> (p: Point)
        ensures
            p == (Point {
                active: Activity::Active,
                date,
                time: None,
                cookie: RepeaterAndDelay::none(),
            }),
    {
        Point::new(date)
    }

    /// The point, where the timestamp is one.
    pub fn try_from_timestamp(timestamp: &Timestamp) -> (p: Result<Point, ()>)
        ensures
            p == (match timestamp@ {
                Stamp::Point(d) => Ok::<Point, ()>(d),
                _ => Err::<Point, ()>(()),
            }),
    {
        match timestamp {
            Timestamp::Point(d) => Ok(*d),
            _ => Err(()),
        }
    }
}

impl Range {
    /// The range from the start of a range of times to the same point at
    /// its end time.
    pub fn from_time_range(range: &TimeRange) -> (r: Range)
        ensures
            r == (Range {
                start: range.start,
                end: Point { time: Some(range.end_time), ..range.start },
            }),
    {
        Range { start: range.start, end: range.start.with_time(Some(range.end_time)) }
    }

    /// The range, where the timestamp is one.
    pub fn try_from_timestamp(timestamp: &Timestamp) -> (r: Result<Range, ()>)
        ensures
            r == (match timestamp@ {
                Stamp::Range(d) => Ok::<Range, ()>(d),
                _ => Err::<Range, ()>(()),
            }),
    {
        match timestamp {
            Timestamp::Range(d) => Ok(*d),
            _ => Err(()),
        }
    }
}

/// Whether a range is one of times on a single day: both ends have the
/// same date, repeater and delay, and both have a time.
pub open spec fn is_time_range(range: Range) -> bool {
    range.start.date == range.end.date && range.start.cookie == range.end.cookie
        && range.start.time is Some && range.end.time is Some
}

impl TimeRange {
    /// The range of times that a range is, where it is one.
    pub fn try_from_range(range: &Range) -> (r: Result<TimeRange, ()>)
        ensures
            r == (if is_time_range(*range) {
                Ok::<TimeRange, ()>(TimeRange { start: range.start, end_time: range.end.time->0 })
            } else {
                Err::<TimeRange, ()>(())
            }),
    {
        if range.start.date == range.end.date && range.start.cookie == range.end.cookie
            && range.start.time.is_some() {
            if let Some(end_time) = range.end.time {
                return Ok(TimeRange { start: range.start, end_time });
            }
        }
        Err(())
    }

    /// The range of times, where the timestamp is one.
    pub fn try_from_timestamp(timestamp: &Timestamp) -> (r: Result<TimeRange, ()>)
        ensures
            r == (match timestamp@ {
                Stamp::TimeRange(d) => Ok::<TimeRange, ()>(d),
                _ => Err::<TimeRange, ()>(()),
            }),
    {
        match timestamp {
            Timestamp::TimeRange(d) => Ok(*d),
            _ => Err(()),
        }
    }

    /// The range of times that starts at `point` and ends at midnight.
    pub fn from_point(point: &Point) -> (r: TimeRange)
        ensures
            r == (TimeRange { start: *point, end_time: Time { hour: 0, minute: 0 } }),
    {
        TimeRange { start: *point, end_time: Time { hour: 0, minute: 0 } }
    }
}

impl Diary {
    /// The diary entry, where the timestamp is one.
    pub fn try_from_timestamp(timestamp: &Timestamp) -> (r: Result<Diary, ()>)
        ensures
            r is Ok <==> timestamp@ is Diary,
            r matches Ok(d) ==> timestamp@ == Stamp::Diary(d@),
    {
        match timestamp {
            Timestamp::Diary(d) => Ok(d.to_borrowed()),
            _ => Err(()),
        }
    }
}

impl Timestamp {
    /// An active point on `date` as a timestamp.
    pub fn from_date(date: Date) -> (t: Timestamp)
        ensures
            t@ == Stamp::Point(
                Point {
                    active: Activity::Active,
                    date,
                    time: None,
                    cookie: RepeaterAndDelay::none(),
                },
            ),
    {
        Timestamp::Point(Point::new(date))
    }

    /// A point as a timestamp.
    pub fn from_point(point: Point) -> (t: Timestamp)
        ensures
            t@ == Stamp::Point(point),
    {
        Timestamp::Point(point)
    }
}

} // verus!
