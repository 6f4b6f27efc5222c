use chrono::{Datelike, NaiveDate};
use payroll_report::dates::Date;

fn chrono_day_number(year: i32, month: u32, day: u32) -> i32 {
    NaiveDate::from_ymd_opt(year, month, day).unwrap().num_days_from_ce()
}

#[test]
fn parse_reads_day_month_year() {
    assert_eq!(
        Date::parse("03-06-2024"),
        Some(Date { day_number: chrono_day_number(2024, 6, 3) })
    );
    assert_eq!(Date::parse("01-01-0001"), Some(Date { day_number: 1 }));
    assert_eq!(Date::parse("01-01-1970"), Some(Date { day_number: 719_163 }));
}

#[test]
fn parse_does_not_take_the_day_for_the_month() {
    let date = Date::parse("02-01-2024").unwrap();
    assert_eq!(date.day_number, chrono_day_number(2024, 1, 2));
    assert_ne!(date.day_number, chrono_day_number(2024, 2, 1));
}

#[test]
fn parse_rejects_what_is_no_date() {
    assert_eq!(Date::parse("None"), None);
    assert_eq!(Date::parse(""), None);
    assert_eq!(Date::parse("2024-06-03"), None);
    assert_eq!(Date::parse("31-04-2024"), None);
    assert_eq!(Date::parse("29-02-2023"), None);
    assert_eq!(Date::parse("00-06-2024"), None);
    assert_eq!(Date::parse("03-13-2024"), None);
    assert_eq!(Date::parse("03-06-2024 x"), None);
}

#[test]
fn parse_agrees_with_chrono() {
    for text in ["03-06-2024", "3-6-2024", "29-02-2024", "29-02-2023", "None", " 03-06-2024",
        "03-06-24", "31-12-9999", "03-06-+2024", "03-06-2024\n"]
    {
        let wanted = NaiveDate::parse_from_str(text, "%d-%m-%Y").ok().map(|d| d.num_days_from_ce());
        assert_eq!(Date::parse(text).map(|d| d.day_number), wanted, "text {:?}", text);
    }
}

#[test]
fn from_read_keeps_the_number() {
    assert_eq!(Date::from_read(Some(42)), Some(Date { day_number: 42 }));
    assert_eq!(Date::from_read(None), None);
    assert_eq!(Date::from_day_number(-5).day_number, -5);
}

#[test]
fn days_to_counts_the_days_between() {
    let first = Date::parse("01-06-2024").unwrap();
    let last = Date::parse("03-06-2024").unwrap();
    assert_eq!(first.days_to(&last), 2);
    assert_eq!(last.days_to(&first), -2);
    assert_eq!(first.days_to(&first), 0);
}

#[test]
fn days_to_agrees_with_chrono_subtraction() {
    let texts = ["01-01-2024", "29-02-2024", "01-03-2024", "31-12-2023", "15-06-1999",
        "01-01-0001", "31-12-9999"];
    for a in texts {
        for b in texts {
            let from = NaiveDate::parse_from_str(a, "%d-%m-%Y").unwrap();
            let to = NaiveDate::parse_from_str(b, "%d-%m-%Y").unwrap();
            assert_eq!(
                Date::parse(a).unwrap().days_to(&Date::parse(b).unwrap()),
                (to - from).num_days(),
                "{} to {}",
                a,
                b
            );
        }
    }
}

#[test]
fn days_to_holds_for_the_widest_day_numbers() {
    let first = Date::from_day_number(i32::MIN);
    let last = Date::from_day_number(i32::MAX);
    assert_eq!(first.days_to(&last), 4_294_967_295);
    assert_eq!(last.days_to(&first), -4_294_967_295);
}
