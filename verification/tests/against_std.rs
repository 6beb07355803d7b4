use chrono::NaiveDate;
use starsector::headline::timestamp::is_valid_date;
use starsector::text::{chars_of, is_ascii_space_char, is_space_char, string_of};
use starsector::{Date, Time};

#[test]
fn white_space_is_what_unicode_says() {
    let mut c = '\0';
    loop {
        assert_eq!(is_space_char(c), c.is_whitespace(), "{:?}", c);
        assert_eq!(is_ascii_space_char(c), c.is_ascii_whitespace(), "{:?}", c);
        if c == char::MAX {
            break;
        }
        c = char::from_u32(c as u32 + 1).unwrap_or('\u{e000}');
    }
}

#[test]
fn strings_survive_unpacking() {
    for s in ["", "a", "* x\n", "饭 \u{2028}\u{1f600}"] {
        let chars = chars_of(s);
        assert_eq!(chars, s.chars().collect::<Vec<char>>());
        assert_eq!(string_of(&chars), s);
    }
}

#[test]
fn dates_are_the_days_of_the_calendar() {
    for year in [-262144, -262143, -401, -400, -1, 0, 1, 1899, 1900, 1999, 2000, 2023, 2024, 9999, 10000, 262142, 262143] {
        for month in 0..14u32 {
            for day in 0..33u32 {
                assert_eq!(
                    is_valid_date(year, month, day),
                    NaiveDate::from_ymd_opt(year, month, day).is_some(),
                    "{} {} {}",
                    year,
                    month,
                    day
                );
            }
        }
    }
}

#[test]
fn dates_and_times_are_written_as_chrono_writes_them() {
    for (y, m, d) in [
        (2020, 1, 2),
        (1, 12, 31),
        (0, 1, 1),
        (999, 9, 9),
        (9999, 12, 31),
        (10000, 1, 1),
        (262142, 12, 31),
        (-1, 1, 1),
        (-999, 2, 28),
        (-10000, 3, 3),
        (-262143, 1, 1),
    ] {
        let ours = Date::new(y, m, d).to_string();
        let theirs = NaiveDate::from_ymd_opt(y, m, d)
            .unwrap()
            .format("%Y-%m-%d")
            .to_string();
        assert_eq!(ours, theirs);
    }
    assert_eq!(Date::new(2020, 1, 2).to_string(), "2020-01-02");
    for (h, m) in [(0, 0), (9, 5), (23, 59), (12, 30)] {
        let ours = Time::new(h, m).to_string();
        let theirs = chrono::NaiveTime::from_hms_opt(h, m, 0)
            .unwrap()
            .format("%H:%M")
            .to_string();
        assert_eq!(ours, theirs);
    }
}
