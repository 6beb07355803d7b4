use starsector::{
    Activity, Date, Delay, Diary, Interval, Point, Range, Repeater, RepeaterMark, Time, TimeRange,
    TimeUnit,
};

#[test]
fn test_format_point() {
    assert_eq!(
        Point::new(Date::new(1971, 11, 11)).to_string().as_str(),
        "<1971-11-11>"
    );
    assert_eq!(
        Point::new(Date::new(1971, 11, 11))
            .with_active(Activity::Inactive)
            .to_string()
            .as_str(),
        "[1971-11-11]"
    );
    assert_eq!(
        Point::new(Date::new(1971, 11, 11))
            .with_active(Activity::Inactive)
            .with_time(Some(Time::new(9, 18)))
            .to_string()
            .as_str(),
        "[1971-11-11 09:18]"
    );
    assert_eq!(
        Point::new(Date::new(1971, 11, 11))
            .with_active(Activity::Inactive)
            .with_time(Some(Time::new(9, 18)))
            .with_repeater(Some(Repeater::parse(".+7d").unwrap().1))
            .to_string()
            .as_str(),
        "[1971-11-11 09:18 .+7d]"
    );
    assert_eq!(
        Point::new(Date::new(2021, 1, 2))
            .with_active(Activity::Inactive)
            .with_delay(Some(Delay::parse("--7d").unwrap().1))
            .to_string()
            .as_str(),
        "[2021-01-02 --7d]"
    );
    assert_eq!(
        Point::new(Date::new(1971, 11, 11))
            .with_active(Activity::Inactive)
            .with_time(Some(Time::new(9, 18)))
            .with_delay(Some(Delay::parse("-8w").unwrap().1))
            .with_repeater(Some(Repeater::parse("+7d").unwrap().1))
            .to_string()
            .as_str(),
        "[1971-11-11 09:18 +7d -8w]"
    );
}

#[test]
fn test_format_diary() {
    assert_eq!(Diary::new("hello").to_string().as_str(), "<%%(hello)>");
    assert_eq!(Diary::new("").to_string().as_str(), "<%%()>");
}

#[test]
fn test_format_range() {
    let a = Point::new(Date::new(2018, 9, 2)).with_time(Some(Time::new(8, 17)));
    let b = Point::new(Date::new(2018, 9, 3)).with_time(Some(Time::new(8, 17)));
    assert_eq!(
        Range::new(a, b).to_string().as_str(),
        "<2018-09-02 08:17>--<2018-09-03 08:17>"
    );
    assert_eq!(
        Range::new(a.with_time(None), b).to_string().as_str(),
        "<2018-09-02>--<2018-09-03 08:17>"
    );
    assert_eq!(
        Range::new(a, b.with_repeater(Some(Repeater::parse("+3d").unwrap().1)))
            .to_string()
            .as_str(),
        "<2018-09-02 08:17>--<2018-09-03 08:17 +3d>"
    );
}

#[test]
fn test_format_time_range() {
    let a = Point::new(Date::new(2018, 9, 2)).with_time(Some(Time::new(8, 17)));
    let b = Time::new(18, 3);
    assert_eq!(
        TimeRange::new(a, b).to_string().as_str(),
        "<2018-09-02 08:17-18:03>"
    );
    assert_eq!(
        TimeRange::new(
            a.with_repeater(Some(Repeater::new(
                RepeaterMark::Cumulate,
                Interval::new(3, TimeUnit::Year)
            ))),
            b
        )
        .to_string()
        .as_str(),
        "<2018-09-02 08:17-18:03 +3y>"
    );
}
