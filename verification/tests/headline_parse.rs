use starsector::headline::parser::{
    parse_headline, parse_info_pattern, parse_planning_keyword, parse_planning_line,
};
use starsector::{
    Activity, Arena, Context, Date, Interval, PlanningKeyword, Point, Repeater, RepeaterMark,
    Time, TimeUnit, Timestamp, TimestampExt,
};

fn chars(s: &str) -> Vec<char> {
    s.chars().collect()
}

#[test]
fn test_parse_planning_keyword() {
    assert_eq!(
        parse_planning_keyword(&chars("DEADLINE:"), 0).unwrap().0,
        PlanningKeyword::Deadline
    );
    assert_eq!(
        parse_planning_keyword(&chars("SCHEDULED:"), 0).unwrap().0,
        PlanningKeyword::Scheduled
    );
    assert_eq!(
        parse_planning_keyword(&chars("CLOSED:"), 0).unwrap().0,
        PlanningKeyword::Closed
    );
    assert!(parse_planning_keyword(&chars("CLOSED :"), 0).is_none());
    assert!(parse_planning_keyword(&chars(" SCHEDULED :"), 0).is_none());
    assert!(parse_planning_keyword(&chars("idk lol"), 0).is_none());
    assert!(parse_planning_keyword(&chars(" DEADLINE:"), 0).is_none());
}

#[test]
fn test_parse_info_pattern() {
    let pattern = parse_info_pattern(&chars("DEADLINE: [2022-08-28]"), 0).unwrap().0;
    assert_eq!(pattern.keyword, PlanningKeyword::Deadline);

    let pattern = parse_info_pattern(&chars("SCHEDULED:[2022-08-28]"), 0).unwrap().0;
    assert_eq!(pattern.keyword, PlanningKeyword::Scheduled);

    let pattern = parse_info_pattern(&chars("CLOSED:  [2022-08-28]     "), 0)
        .unwrap()
        .0;
    assert_eq!(pattern.keyword, PlanningKeyword::Closed);

    assert!(parse_info_pattern(&chars(" CLOSED: [2022-08-28]"), 0).is_none());
    assert!(parse_info_pattern(&chars("Closed: [2022-08-28]"), 0).is_none());
    assert!(parse_info_pattern(&chars(" "), 0).is_none());
}

#[test]
fn test_parse_planning_line() {
    let timestamp = Timestamp::parse("[2022-08-28]").unwrap().1;
    let planning =
        parse_planning_line(&chars("DEADLINE: [2022-08-28]DEADLINE: [2022-08-28]")).unwrap();
    assert_eq!(planning.deadline.unwrap(), timestamp);
    assert!(planning.scheduled.is_none());
    assert!(planning.closed.is_none());

    let planning =
        parse_planning_line(&chars("SCHEDULED: [2022-08-28] DEADLINE: [2022-08-28]")).unwrap();
    assert_eq!(planning.deadline.unwrap(), timestamp);
    assert_eq!(planning.scheduled.unwrap(), timestamp);
    assert!(planning.closed.is_none());

    let planning = parse_planning_line(&chars("CLOSED: [2022-08-28]")).unwrap();
    assert_eq!(planning.closed.unwrap(), timestamp);
    assert!(planning.scheduled.is_none());
    assert!(planning.deadline.is_none());

    let planning = parse_planning_line(&chars(
        "  DEADLINE: [2022-08-28] SCHEDULED: [2022-08-28] CLOSED: [2022-08-28]   ",
    ))
    .unwrap();
    assert_eq!(planning.closed.unwrap(), timestamp);
    assert_eq!(planning.deadline.unwrap(), timestamp);
    assert_eq!(planning.scheduled.unwrap(), timestamp);

    assert!(parse_planning_line(&chars("")).is_none());
    assert!(parse_planning_line(&chars(" ")).is_none());
    assert!(parse_planning_line(&chars("ESCHEDULED: [2022-08-28]")).is_none());
    assert!(parse_planning_line(&chars("DEADLINE [2022-08-28]")).is_none());
}

fn as_point(t: &Timestamp) -> Point {
    match t {
        Timestamp::Point(p) => *p,
        _ => panic!("not a point"),
    }
}

// Timestamps may lack the day of the week.
#[test]
fn test_day_of_week_is_optional() {
    const TEXT: &str = r#"* DONE Send a card for her retirement
  CLOSED: [2018-05-28 Mon 10:57] SCHEDULED: <2018-05-28>
  :PROPERTIES:
  :ARCHIVE_OLPATH: Calendar/One-off Misc
  :ARCHIVE_CATEGORY: org
  :ARCHIVE_TODO: DONE
  :END:
  :LOGBOOK:
  - State "DONE"       from "TODO"       [2018-05-28 Mon 10:57]
  :END:"#;

    let h = parse_headline(&chars(TEXT), &Context::default()).unwrap();
    assert!(h.planning().deadline.is_none());

    let planning = h.planning();
    let s = planning.scheduled.as_ref().unwrap();
    let s: Point = as_point(s);
    assert_eq!(s.active(), Activity::Active);
    assert_eq!(s.date().unwrap(), Date::new(2018, 5, 28));
    assert!(s.time().is_none());
    assert!(s.cookie.repeater.is_none());
    assert!(s.cookie.delay.is_none());

    let s = planning.closed.as_ref().unwrap();
    let s: Point = as_point(s);
    assert_eq!(s.active(), Activity::Inactive);
    assert_eq!(s.date().unwrap(), Date::new(2018, 5, 28));
    assert_eq!(s.time().unwrap(), Time::new(10, 57));
    assert!(s.cookie.repeater.is_none());
    assert!(s.cookie.delay.is_none());
}

// Timestamps may hold habit annotations, which are not read.
#[test]
fn test_org_habit_annotations_allowed() {
    const TEXT: &str = r#"*** TODO Test UPS
    SCHEDULED: <2020-11-10 Tue .+20d/25d>
    :PROPERTIES:
    :STYLE:    habit
    :ACTIVE_KEYWORD: TODO
    :LAST_REPEAT: [2020-10-21 Wed 11:07]
    :END:
    - State "SKIP"       from "TODO"       [2020-09-19 Sat 08:40]
    :LOGBOOK:
    - State "DONE"       from "TODO"       [2020-10-21 Wed 11:07]
    - State "DONE"       from "TODO"       [2020-07-31 Fri 11:17]
    - State "DONE"       from "TODO"       [2020-05-30 Sat 20:01]
    - State "DONE"       from "TODO"       [2020-05-22 Fri 23:04]
    :END:"#;

    let h = parse_headline(&chars(TEXT), &Context::default()).unwrap();
    assert!(h.planning().deadline.is_none());

    let planning = h.planning();
    let s = planning.scheduled.as_ref().unwrap();
    let s: Point = as_point(s);
    assert_eq!(s.active(), Activity::Active);
    assert_eq!(s.date().unwrap(), Date::new(2020, 11, 10));
    assert!(s.time().is_none());
    assert!(s.cookie.delay.is_none());
    assert_eq!(
        s.cookie.repeater.unwrap(),
        Repeater::new(RepeaterMark::Restart, Interval::new(20, TimeUnit::Day))
    );
}

#[test]
fn scenario_headline_with_every_part() {
    let mut arena = Arena::default();
    let section = arena
        .new_section("** TODO [#A] COMMENT Task title :work:home:")
        .unwrap();
    let h = section.parse_headline(&arena, None).unwrap();
    assert_eq!(h.level(), 2);
    assert_eq!(h.keyword(), Some("TODO".to_string()));
    assert_eq!(h.priority(), Some('A'));
    assert!(h.commented());
    assert_eq!(h.title(), "Task title");
    assert_eq!(h.tags().to_vec(), vec!["work", "home"]);
    assert_eq!(h.raw_tags(), "work:home");
    assert_eq!(h.body(), "");
    assert_eq!(section.tags(&arena, None).unwrap(), vec!["work", "home"]);
    assert!(section.has_tag("home", &arena, None).unwrap());
    assert!(!section.has_tag("hom", &arena, None).unwrap());
}

#[test]
fn last_planning_entry_wins() {
    let planning = parse_planning_line(&chars(
        "DEADLINE: <2020-01-01> SCHEDULED: <2020-02-02> DEADLINE: <2021-03-03>",
    ))
    .unwrap();
    assert_eq!(
        planning.deadline.unwrap(),
        Timestamp::parse("<2021-03-03>").unwrap().1
    );
    assert_eq!(
        planning.scheduled.unwrap(),
        Timestamp::parse("<2020-02-02>").unwrap().1
    );
    assert!(planning.closed.is_none());
}

#[test]
fn headline_edges() {
    let ctx = Context::default();
    // A tab after the stars is no headline.
    assert!(parse_headline(&chars("*\tx"), &ctx).is_none());
    // A keyword after a no-break space is part of the title.
    let h = parse_headline(&chars("* \u{a0}TODO x"), &ctx).unwrap();
    assert_eq!(h.keyword(), None);
    // A keyword that the context does not list is part of the title.
    let h = parse_headline(&chars("* WAIT x"), &ctx).unwrap();
    assert_eq!(h.keyword(), None);
    assert_eq!(h.title(), "WAIT x");
    let h = parse_headline(&chars("* WAIT x"), &Context::from_keywords(&["WAIT", "GO"])).unwrap();
    assert_eq!(h.keyword(), Some("WAIT".to_string()));
    assert_eq!(h.title(), "x");
    let h = parse_headline(&chars("* WAIT x"), &Context::new("GO:WAIT")).unwrap();
    assert_eq!(h.keyword(), Some("WAIT".to_string()));
    // Tags must be one word between colons.
    let h = parse_headline(&chars("* a :b c:"), &ctx).unwrap();
    assert_eq!(h.raw_tags(), "");
    assert_eq!(h.title(), "a :b c:");
    let h = parse_headline(&chars("* a :b:c:  \t"), &ctx).unwrap();
    assert_eq!(h.raw_tags(), "b:c");
    assert_eq!(h.title(), "a");
    // The planning line is taken out of the body.
    let h = parse_headline(&chars("* a\nCLOSED: [2020-01-01]\nrest"), &ctx).unwrap();
    assert_eq!(h.body(), "rest");
    assert!(h.closed().is_some());
    let h = parse_headline(&chars("* a\nnot planning\nrest"), &ctx).unwrap();
    assert_eq!(h.body(), "not planning\nrest");
    assert!(h.closed().is_none());
    // COMMENT must be a word of its own.
    let h = parse_headline(&chars("* COMMENTS"), &ctx).unwrap();
    assert!(!h.commented());
    let h = parse_headline(&chars("* COMMENT"), &ctx).unwrap();
    assert!(h.commented());
    assert_eq!(h.title(), "");
}

#[test]
fn overlapping_dates() {
    let a = Timestamp::parse("<2020-01-01>--<2020-01-10>").unwrap().1;
    let b = Timestamp::parse("<2020-01-10 10:00-11:00>").unwrap().1;
    let c = Timestamp::parse("<2020-01-11>").unwrap().1;
    let d = Timestamp::parse("<%%(x)>").unwrap().1;
    assert!(a.date_overlap(&b));
    assert!(b.date_overlap(&a));
    assert!(!a.date_overlap(&c));
    assert!(!b.date_overlap(&c));
    assert!(c.date_overlap(&c));
    assert!(!d.date_overlap(&d));
    assert!(!a.date_overlap(&d));
    assert_eq!(b.end_point().unwrap().time, Some(Time::new(11, 0)));
    assert_eq!(b.start_time(), Some(Time::new(10, 0)));
    assert_eq!(a.end_time(), None);
}
