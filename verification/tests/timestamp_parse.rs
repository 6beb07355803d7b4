use starsector::{
    Activity, Date, Delay, DelayMark, Diary, Interval, Point, Range, Repeater, RepeaterAndDelay,
    RepeaterMark, Time, TimeRange, TimeSpec, TimeUnit, Times, Timestamp,
};

#[test]
fn test_parse_time() {
    let time = |h, m| Time::new(h, m);
    assert_eq!(time(1, 20), Time::parse("01:20").unwrap().1);
    assert_eq!(time(1, 20), Time::parse("1:20").unwrap().1);
    assert_eq!(time(0, 0), Time::parse("00:00").unwrap().1);
    assert_eq!(time(0, 0), Time::parse("0:00").unwrap().1);

    for bad in &[
        "x:1", "5:1", "00:0", "1:61", "", "5", ":", "-5", "1:-5", ":05", "01:", "-1:5", "161",
        "0161",
    ] {
        assert!(Time::parse(*bad).is_none());
    }

    let res = Time::parse("5:55 ").unwrap();
    assert_eq!(" ", res.0);
    assert_eq!(time(5, 55), res.1);
}

#[test]
fn test_parse_times() {
    let time = |h, m| Time::new(h, m);
    let times = |(h1, m1), (h2, m2)| Times(time(h1, m1), time(h2, m2));

    let t = times((5, 20), (8, 25));
    for good in &["05:20-08:25", "05:20-8:25", "5:20-08:25", "5:20-8:25"] {
        let result = Times::parse(good).unwrap();
        assert_eq!("", result.0);
        assert_eq!(t, result.1);
    }

    for bad in &[
        "0:0",
        "",
        "00:0",
        "0:00",
        "05:05--10:10",
        "05:05 -10:10",
        "05:05- 10:10",
        "1:11",
        "1:11-",
        "-",
        "-1:11",
        "5-5",
        "05:-05:",
    ] {
        assert!(Times::parse(*bad).is_none());
    }

    let result = Times::parse("05:05-10:10 ").unwrap();
    assert_eq!(" ", result.0);
    assert_eq!(Times::parse("05:05-10:10").unwrap().1, result.1);
}

#[test]
fn test_parse_time_spec() {
    let time = |h, m| Time::new(h, m);
    let times = |(h1, m1), (h2, m2)| TimeSpec::Times(Times(time(h1, m1), time(h2, m2)));
    let time = |h, m| TimeSpec::Time(time(h, m));

    assert_eq!(time(5, 20), TimeSpec::parse("05:20").unwrap().1);
    assert_eq!(
        times((5, 20), (8, 25)),
        TimeSpec::parse("05:20-8:25").unwrap().1
    );

    for bad in &[
        "05:55 ",
        "05:05--10:10",
        "0:0",
        "",
        "00:0",
        "05:05 -10:10",
        "05:05- 10:10",
        "1:11-",
        "-",
        "-1:11",
        "5-5",
        "05:-05:",
    ] {
        assert!(Times::parse(*bad).is_none());
    }
}

#[test]
fn test_parse_repeater_mark() {
    assert_eq!(RepeaterMark::parse("+").unwrap().1, RepeaterMark::Cumulate);
    assert_eq!(RepeaterMark::parse("++").unwrap().1, RepeaterMark::CatchUp);
    assert_eq!(RepeaterMark::parse(".+").unwrap().1, RepeaterMark::Restart);

    for bad in &["", ".", "-"] {
        assert!(RepeaterMark::parse(*bad).is_none());
    }

    let res = RepeaterMark::parse("+ ").unwrap();
    assert_eq!(" ", res.0);
    assert_eq!(RepeaterMark::parse("+").unwrap().1, res.1);

    let res = RepeaterMark::parse("++ ").unwrap();
    assert_eq!(" ", res.0);
    assert_eq!(RepeaterMark::parse("++").unwrap().1, res.1);

    let res = RepeaterMark::parse("+++").unwrap();
    assert_eq!("+", res.0);
    assert_eq!(RepeaterMark::parse("+++").unwrap().1, res.1);

    let res = RepeaterMark::parse(".++").unwrap();
    assert_eq!("+", res.0);
    assert_eq!(RepeaterMark::parse(".++").unwrap().1, res.1);

    let res = RepeaterMark::parse("++.").unwrap();
    assert_eq!(".", res.0);
    assert_eq!(RepeaterMark::parse("++.").unwrap().1, res.1);
}

#[test]
fn test_parse_delay_mark() {
    assert_eq!(DelayMark::parse("-").unwrap().1, DelayMark::All);
    assert_eq!(DelayMark::parse("--").unwrap().1, DelayMark::First);

    assert!(DelayMark::parse("").is_none());

    let res = DelayMark::parse("---").unwrap();
    assert_eq!("-", res.0);
    assert_eq!(DelayMark::parse("--").unwrap().1, res.1);

    assert!(DelayMark::parse("+").is_none());

    let res = DelayMark::parse("-- ").unwrap();
    assert_eq!(" ", res.0);
    assert_eq!(DelayMark::parse("--").unwrap().1, res.1);

    let res = DelayMark::parse("- ").unwrap();
    assert_eq!(" ", res.0);
    assert_eq!(DelayMark::parse("-").unwrap().1, res.1);

    assert!(DelayMark::parse(".+").is_none());

    assert!(DelayMark::parse("+").is_none());

    let res = DelayMark::parse("-5d").unwrap();
    assert_eq!("5d", res.0);
    assert_eq!(DelayMark::parse("-").unwrap().1, res.1);
}

#[test]
fn test_parse_time_unit() {
    assert_eq!(TimeUnit::parse("h").unwrap().1, TimeUnit::Hour);
    assert_eq!(TimeUnit::parse("d").unwrap().1, TimeUnit::Day);
    assert_eq!(TimeUnit::parse("w").unwrap().1, TimeUnit::Week);
    assert_eq!(TimeUnit::parse("m").unwrap().1, TimeUnit::Month);
    assert_eq!(TimeUnit::parse("y").unwrap().1, TimeUnit::Year);

    let res = TimeUnit::parse("y ").unwrap();
    assert_eq!(" ", res.0);
    assert_eq!(TimeUnit::parse("y").unwrap().1, res.1);

    assert!(TimeUnit::parse("a").is_none());
    assert!(TimeUnit::parse("").is_none());
    assert!(TimeUnit::parse("5d").is_none());
}

#[test]
fn test_parse_interval() {
    assert_eq!(
        Interval::parse("5h").unwrap().1,
        Interval::new(5, TimeUnit::Hour)
    );
    assert_eq!(
        Interval::parse("03d").unwrap().1,
        Interval::new(3, TimeUnit::Day)
    );
    assert_eq!(
        Interval::parse("273w").unwrap().1,
        Interval::new(273, TimeUnit::Week)
    );

    assert!(Interval::parse("5a").is_none());
    assert!(Interval::parse("").is_none());
    assert!(Interval::parse("+5d").is_none());
    assert!(Interval::parse("h").is_none());

    let res = Interval::parse("5m ").unwrap();
    assert_eq!(" ", res.0);
    assert_eq!(Interval::parse("5m").unwrap().1, res.1);
}

#[test]
fn test_parse_repeater() {
    let repeater = |m: &str, i: &str| {
        Repeater::new(
            RepeaterMark::parse(m).unwrap().1,
            Interval::parse(i).unwrap().1,
        )
    };
    assert_eq!(Repeater::parse("+5h").unwrap().1, repeater("+", "5h"));
    assert_eq!(Repeater::parse(".+7y").unwrap().1, repeater(".+", "7y"));
    assert_eq!(Repeater::parse("++0m").unwrap().1, repeater("++", "0m"));

    assert!(Interval::parse("+6h ").is_none());

    for bad in &["+++5w", "", "-7m"] {
        assert!(Repeater::parse(*bad).is_none());
    }
}

#[test]
fn test_parse_delay() {
    let delay = |m: &str, i: &str| {
        Delay::new(
            DelayMark::parse(m).unwrap().1,
            Interval::parse(i).unwrap().1,
        )
    };
    assert_eq!(Delay::parse("-5h").unwrap().1, delay("-", "5h"));
    assert_eq!(Delay::parse("--7y").unwrap().1, delay("--", "7y"));
    assert_eq!(Delay::parse("--0m").unwrap().1, delay("--", "0m"));

    let res = Delay::parse("-6h ").unwrap();
    assert_eq!(" ", res.0);
    assert_eq!(Delay::parse("-6h").unwrap().1, res.1);

    for bad in &["---5w", "", "+7m"] {
        assert!(Delay::parse(*bad).is_none());
    }
}

#[test]
fn test_parse_repeater_and_delay() {
    let repeater = Some(Repeater::new(
        RepeaterMark::Cumulate,
        Interval::new(5, TimeUnit::Day),
    ));
    let delay = Some(Delay::new(
        DelayMark::First,
        Interval::new(7, TimeUnit::Week),
    ));

    assert_eq!(
        RepeaterAndDelay::parse("+5d --7w").unwrap().1,
        RepeaterAndDelay { repeater, delay }
    );

    assert_eq!(
        RepeaterAndDelay::parse("--7w +5d").unwrap().1,
        RepeaterAndDelay { repeater, delay }
    );

    assert_eq!(
        RepeaterAndDelay::parse("--7w \t+5d").unwrap().1,
        RepeaterAndDelay { repeater, delay }
    );

    assert_eq!(
        RepeaterAndDelay::parse("+5d").unwrap().1,
        RepeaterAndDelay {
            repeater,
            delay: None
        }
    );

    assert_eq!(
        RepeaterAndDelay::parse("--7w").unwrap().1,
        RepeaterAndDelay {
            repeater: None,
            delay
        }
    );

    assert_eq!(
        RepeaterAndDelay::parse("").unwrap().1,
        RepeaterAndDelay {
            repeater: None,
            delay: None
        }
    );

    let res = RepeaterAndDelay::parse("---5w").unwrap();
    assert_eq!("---5w", res.0);
    assert_eq!(RepeaterAndDelay::parse("").unwrap().1, res.1);

    let res = RepeaterAndDelay::parse("-6h ").unwrap();
    assert_eq!(" ", res.0);
    assert_eq!(RepeaterAndDelay::parse("-6h").unwrap().1, res.1);

    let res = RepeaterAndDelay::parse("+7m ").unwrap();
    assert_eq!(" ", res.0);
    assert_eq!(RepeaterAndDelay::parse("+7m").unwrap().1, res.1);
}

#[test]
fn test_parse_date() {
    let date = |y, m, d| Date::new(y, m, d);

    assert_eq!(Date::parse("2020-01-10").unwrap().1, date(2020, 1, 10));
    assert_eq!(Date::parse("2020-01-10 Fri").unwrap().1, date(2020, 1, 10));
    assert_eq!(Date::parse("2020-01-10 Sat").unwrap().1, date(2020, 1, 10));
    assert_eq!(
        Date::parse("2020-01-10  Zeepsday").unwrap().1,
        date(2020, 1, 10)
    );
    assert_eq!(Date::parse("2020-02-17 Zee").unwrap().1, date(2020, 2, 17));

    assert_eq!(Date::parse("0020-01-10").unwrap().1, date(0020, 1, 10));

    for bad in &[
        " 2020-02-02",
        "2020",
        "",
        "20200110",
        "20200110 3:14",
        "5",
        "202-05-05",
        "-1986-08-24",
        "1987-5-29",
        "1987-03-1",
    ] {
        assert!(Date::parse(*bad).is_none());
    }

    let res = Date::parse("2020-02-02 ").unwrap();
    assert_eq!(" ", res.0);
    assert_eq!(Date::parse("2020-02-02").unwrap().1, res.1);
}

#[test]
fn test_parse_point() {
    let point = Point::new(Date::new(2020, 1, 1));

    assert_eq!(Point::parse("<2020-01-01>").unwrap().1, point);
    assert_eq!(Point::parse("<2020-01-01   Mon>").unwrap().1, point);
    assert_eq!(
        Point::parse("[2020-01-01   Mon 03:57  --1d .+1w]")
            .unwrap()
            .1,
        point
            .with_repeater(Some(Repeater::new(
                RepeaterMark::Restart,
                Interval::new(1, TimeUnit::Week)
            )))
            .with_delay(Some(Delay::new(
                DelayMark::First,
                Interval::new(1, TimeUnit::Day)
            )))
            .with_active(Activity::new(false))
            .with_time(Some(Time::new(3, 57)))
    );

    for bad in &["", "2020-01-01", "<%%(hi)>", "[2020-01-01 01:00-02:00]"] {
        assert!(Point::parse(*bad).is_none());
    }

    let res = Point::parse("<2020-01-01> ").unwrap();
    assert_eq!(" ", res.0);
    assert_eq!(Point::parse("<2020-01-01>").unwrap().1, res.1);

    let res = Point::parse("<2020-01-01>--<2020-02-01>").unwrap();
    assert_eq!("--<2020-02-01>", res.0);
    assert_eq!(Point::parse("<2020-01-01>").unwrap().1, res.1);
}

#[test]
fn test_parse_range() {
    let timestamp = Range::new(
        Point::parse("[2020-01-01]").unwrap().1,
        Point::parse("[2021-01-01]").unwrap().1,
    );

    assert_eq!(
        Range::parse("[2020-01-01]--[2021-01-01]").unwrap().1,
        timestamp
    );
    assert_eq!(
        Range::parse("[2020-01-01    04:59 .+1w]--[2021-01-01 .+2d]")
            .unwrap()
            .1,
        Range {
            start: timestamp
                .start
                .with_time(Some(Time::new(4, 59)))
                .with_repeater(Some(Repeater::parse(".+1w").unwrap().1)),
            end: timestamp
                .end
                .with_repeater(Some(Repeater::parse(".+2d").unwrap().1))
        }
    );

    for bad in &[
        "",
        "<2020-01-01>",
        "2020-01-01--2021-01-01",
        "<%%(hi)>",
        "[2020-01-01 01:00-02:00]",
    ] {
        assert!(Range::parse(*bad).is_none());
    }

    let res = Range::parse("<2020-01-01>--<2020-02-01> ").unwrap();
    assert_eq!(" ", res.0);
    assert_eq!(Range::parse("<2020-01-01>--<2020-02-01>").unwrap().1, res.1);
}

#[test]
fn test_parse_time_range() {
    let timestamp = TimeRange::new(
        Point::parse("[2020-01-01 03:53]").unwrap().1,
        Time::parse("05:57").unwrap().1,
    );

    assert_eq!(
        TimeRange::parse("[2020-01-01 03:53-05:57]").unwrap().1,
        timestamp
    );

    assert_eq!(
        TimeRange::parse("[2020-01-01    04:58-04:59 .+1w]")
            .unwrap()
            .1,
        TimeRange {
            start: timestamp
                .start
                .with_time(Some(Time::new(4, 58)))
                .with_repeater(Some(Repeater::parse(".+1w").unwrap().1)),
            end_time: Time::new(4, 59)
        }
    );

    for bad in &["", "<2020-01-01>", "2020-01-01--2021-01-01", "<%%(hi)>"] {
        assert!(TimeRange::parse(*bad).is_none());
    }

    let res = TimeRange::parse("<2020-01-01 09:00-10:00> ").unwrap();
    assert_eq!(" ", res.0);
    assert_eq!(
        TimeRange::parse("<2020-01-01 09:00-10:00>").unwrap().1,
        res.1
    );
}

#[test]
fn test_parse_diary() {
    assert_eq!(Diary::parse("<%%()>").unwrap().1, Diary("".into()));
    assert_eq!(
        Diary::parse("<%%(diary-date 2020 3 1)>").unwrap().1,
        Diary("diary-date 2020 3 1".into())
    );
}

#[test]
fn test_parse_timestamp_point() {
    let date = |y, m, d| Date::new(y, m, d);
    let point = Point::new(date(2020, 3, 1));

    assert_eq!(Point::parse("<2020-03-01>").unwrap().1, point);
    assert_eq!(
        Point::parse("[2020-03-01]").unwrap().1,
        point.with_active(Activity::new(false))
    );
    assert_eq!(
        Point::parse("[2020-03-01 Wed]").unwrap().1,
        point.with_active(Activity::new(false))
    );
    assert_eq!(Point::parse("<2020-03-01 Zee>").unwrap().1, point);
    assert_eq!(Point::parse("<2020-03-01 >").unwrap().1, point);
    assert_eq!(Point::parse("<2020-03-01 \t>").unwrap().1, point);
    let time = Time::new(3, 59);
    assert_eq!(
        Point::parse("<2020-03-01 \tFri  3:59>").unwrap().1,
        point.with_time(Some(time))
    );
    assert_eq!(
        Point::parse("<2020-03-01 \tFri  3:59>").unwrap().1,
        point.with_time(Some(time))
    );

    assert_eq!(
        Point::parse("<2020-03-01 3:59\t \t \t>").unwrap().1,
        point.with_time(Some(Time::new(3, 59)))
    );

    assert_eq!(
        Point::parse("[2020-03-01 .+1w]").unwrap().1,
        point
            .with_repeater(Some(Repeater::parse(".+1w").unwrap().1))
            .with_active(Activity::new(false))
    );

    assert_eq!(
        Point::parse("<2020-03-01   \t-1d\t  >").unwrap().1,
        point.with_delay(Some(Delay::parse("-1d").unwrap().1))
    );

    assert_eq!(
        Point::parse("<2020-03-01   \t-1d\t  .+1d/1w  >").unwrap().1,
        point
            .with_repeater(Some(Repeater::parse(".+1d").unwrap().1))
            .with_delay(Some(Delay::parse("-1d").unwrap().1))
    );
    assert_eq!(
        Point::parse("<2020-03-01 arbitrary text .+1d --2w here 夫妻肺片]")
            .unwrap()
            .1,
        point
    );
    assert_eq!(
        Point::parse("<2020-03-01 Fri .+1d .+1d>").unwrap().1,
        point.with_repeater(Some(Repeater::parse(".+1d").unwrap().1))
    );
    assert_eq!(
        Point::parse("[2020-03-01>").unwrap().1,
        point.with_active(Activity::new(false))
    );

    for bad in &["2020-01-01", ""] {
        assert!(Timestamp::parse(*bad).is_none())
    }

    let res = Point::parse("<2020-01-01>>").unwrap();
    assert_eq!(">", res.0);
    assert_eq!(Point::parse("<2020-01-01>").unwrap().1, res.1);

    let res = Point::parse("<2020-01-01> ").unwrap();
    assert_eq!(" ", res.0);
    assert_eq!(Point::parse("<2020-01-01>").unwrap().1, res.1);

    // Opening determines activity.
    let active = Point::parse("<2020-01-02>").unwrap().1;
    let inactive = Point::parse("[2020-01-02]").unwrap().1;

    let res = Point::parse("<2020-01-02]>").unwrap();
    assert_eq!(">", res.0);
    assert_eq!(active, res.1);

    let res = Point::parse("<2020-01-02>]").unwrap();
    assert_eq!("]", res.0);
    assert_eq!(active, res.1);

    let res = Point::parse("[2020-01-02]>").unwrap();
    assert_eq!(">", res.0);
    assert_eq!(inactive, res.1);

    let res = Point::parse("[2020-01-02>]").unwrap();
    assert_eq!("]", res.0);
    assert_eq!(inactive, res.1);

    let res = Point::parse("<2020-01-02]").unwrap();
    assert_eq!("", res.0);
    assert_eq!(active, res.1);

    let res = Point::parse("<2020-01-02>").unwrap();
    assert_eq!("", res.0);
    assert_eq!(active, res.1);

    let res = Point::parse("[2020-01-02]").unwrap();
    assert_eq!("", res.0);
    assert_eq!(inactive, res.1);

    let res = Point::parse("[2020-01-02>").unwrap();
    assert_eq!("", res.0);
    assert_eq!(inactive, res.1);
}

#[test]
fn test_parse_timestamp_diary() {
    assert_eq!(
        Timestamp::parse("<%%(anything goes here but newline and closy angle bracket)>")
            .unwrap()
            .1,
        Timestamp::Diary(Diary(
            "anything goes here but newline and closy angle bracket".into()
        ))
    );

    assert_eq!(
        Timestamp::parse("<%%())>").unwrap().1,
        Timestamp::Diary(Diary(")".into()))
    );

    assert_eq!(
        Timestamp::parse("<%%([2020-01-01])>").unwrap().1,
        Timestamp::Diary(Diary("[2020-01-01]".into()))
    );

    assert!(Timestamp::parse("<%%(<2020-01-01>)>").is_none())
}

#[test]
fn scenario_time_range_with_cookies() {
    let (rest, stamp) = Timestamp::parse("<2020-01-01 Mon 09:00-10:30 .+1w -2d>").unwrap();
    assert_eq!(rest, "");
    let expected = TimeRange::new(
        Point::new(Date::new(2020, 1, 1))
            .with_time(Some(Time::new(9, 0)))
            .with_repeater(Some(Repeater::new(
                RepeaterMark::Restart,
                Interval::new(1, TimeUnit::Week),
            )))
            .with_delay(Some(Delay::new(DelayMark::All, Interval::new(2, TimeUnit::Day)))),
        Time::new(10, 30),
    );
    assert_eq!(stamp, Timestamp::TimeRange(expected));
    assert_eq!(expected.start.active, Activity::Active);
}

#[test]
fn invalid_calendar_dates_are_rejected() {
    assert!(Date::parse("2021-02-29").is_none());
    assert!(Date::parse("2020-02-29").is_some());
    assert!(Date::parse("2020-13-01").is_none());
    assert!(Date::parse("2020-00-10").is_none());
    assert!(Date::parse("2020-04-31").is_none());
    assert!(Date::parse("1900-02-29").is_none());
    assert!(Date::parse("2000-02-29").is_some());
    assert!(Point::parse("<2021-02-30>").is_none());
}

#[test]
fn written_timestamps_are_read_back() {
    let point = Point::new(Date::new(1999, 12, 31))
        .with_active(Activity::Inactive)
        .with_time(Some(Time::new(23, 59)))
        .with_repeater(Some(Repeater::new(
            RepeaterMark::CatchUp,
            Interval::new(12, TimeUnit::Month),
        )))
        .with_delay(Some(Delay::new(DelayMark::First, Interval::new(0, TimeUnit::Hour))));
    let stamps = vec![
        Timestamp::Point(point),
        Timestamp::Point(Point::new(Date::new(7, 1, 1))),
        Timestamp::Point(point.with_repeater(None)),
        Timestamp::Point(point.with_delay(None).with_time(None)),
        Timestamp::Range(Range::new(point, point.with_time(None))),
        Timestamp::TimeRange(TimeRange::new(point, Time::new(0, 5))),
        Timestamp::Diary(Diary::new("diary-float 1 2 3 [x]")),
    ];
    for stamp in stamps {
        let text = stamp.to_string();
        let (rest, back) = Timestamp::parse(&text).unwrap();
        assert_eq!(rest, "");
        assert_eq!(back, stamp);
    }
    assert_eq!(
        Timestamp::Point(point).to_string(),
        "[1999-12-31 23:59 ++12m --0h]"
    );
}

#[test]
fn kinds_of_timestamps_convert() {
    let start = Point::parse("<2020-01-01 09:00 +1w>").unwrap().1;
    let same_day = Range::new(start, start.with_time(Some(Time::new(10, 30))));
    let times = TimeRange::try_from_range(&same_day).unwrap();
    assert_eq!(times, TimeRange::new(start, Time::new(10, 30)));
    assert_eq!(Range::from_time_range(&times), same_day);
    let other_day = Range::new(start, Point::new(Date::new(2020, 1, 2)).with_time(Some(Time::new(1, 0))));
    assert!(TimeRange::try_from_range(&other_day).is_err());
    assert!(TimeRange::try_from_range(&Range::new(start, start.with_time(None))).is_err());
    assert!(TimeRange::try_from_range(&Range::new(start, start.with_repeater(None))).is_err());
    assert!(TimeRange::try_from_range(&Range::new(start.with_time(None), start)).is_err());

    let stamp = Timestamp::from_point(start);
    assert_eq!(Point::try_from_timestamp(&stamp), Ok(start));
    assert!(Range::try_from_timestamp(&stamp).is_err());
    assert!(TimeRange::try_from_timestamp(&stamp).is_err());
    assert!(Diary::try_from_timestamp(&stamp).is_err());
    assert_eq!(
        Diary::try_from_timestamp(&Timestamp::Diary(Diary::new("x"))),
        Ok(Diary::new("x"))
    );
    assert_eq!(
        Timestamp::from_date(Date::new(2020, 2, 3)),
        Timestamp::Point(Point::from_date(Date::new(2020, 2, 3)))
    );
    assert_eq!(
        TimeRange::from_point(&start),
        TimeRange::new(start, Time::default())
    );
    assert_eq!(TimeSpec::from_time(Time::new(1, 2)).try_into_time(), Ok(Time::new(1, 2)));
    assert!(TimeSpec::from_time(Time::new(1, 2)).try_into_times().is_err());
    let pair = Times(Time::new(1, 2), Time::new(3, 4));
    assert_eq!(TimeSpec::from_times(pair).try_into_times(), Ok(pair));
    assert_eq!(TimeSpec::from_times(pair).end(), Some(Time::new(3, 4)));
    assert_eq!(TimeSpec::from_times(pair).start(), Time::new(1, 2));
    assert!(Activity::from_bool(true).into_bool());
    assert!(!Activity::from_bool(false).is_active());
    assert_eq!(Activity::Inactive.delimiters(), ('[', ']'));
    assert_eq!(RepeaterMark::Restart.as_str(), ".+");
    assert_eq!(RepeaterMark::CatchUp.to_string(), "++");
    assert_eq!(DelayMark::First.as_str(), "--");
    assert_eq!(TimeUnit::Week.as_str(), "w");
    assert_eq!(Interval::new(12, TimeUnit::Hour).to_string(), "12h");
    assert_eq!(
        RepeaterAndDelay::new(None, Some(Delay::new(DelayMark::All, Interval::new(3, TimeUnit::Day))))
            .to_string(),
        "-3d"
    );
}
