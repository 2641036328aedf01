use cargo_cache::date::{
    date_time_less, filter_files_by_date, parse_date, remove_files_by_dates, try_parse_date,
    AgeRelation, DateTime, DatedItems, FileWithDate,
};
use cargo_cache::library::{Component, Error};

fn now() -> DateTime {
    DateTime { year: 2021, month: 6, day: 15, hour: 10, minute: 20, second: 30, nanosecond: 250 }
}

fn at(year: i32, month: u32, day: u32) -> DateTime {
    DateTime { year, month, day, hour: 0, minute: 0, second: 0, nanosecond: 0 }
}

fn item(path: &str, date: DateTime) -> FileWithDate {
    FileWithDate { file: String::from(path), access_date: date }
}

fn ymd(d: &DateTime) -> String {
    format!("{:04}.{:02}.{:02}", d.year, d.month, d.day)
}

fn hms(d: &DateTime) -> String {
    format!("{:02}:{:02}:{:02}", d.hour, d.minute, d.second)
}

#[test]
fn parse_dates() {
    let now = now();
    assert!(parse_date("", &now).is_err());
    assert!(parse_date(&String::from("a"), &now).is_err());

    assert!(parse_date(&String::from("01.01:2002"), &now).is_err());
    assert!(parse_date(&String::from("01.01.2002"), &now).is_err()); // need yyyy.mm.dd
    assert!(parse_date(&String::from("2002.30.30"), &now).is_err());

    assert_eq!(ymd(&parse_date(&String::from("2002.01.01"), &now).ok().unwrap()), String::from("2002.01.01"));
    assert_eq!(ymd(&parse_date(&String::from("1234.12.08"), &now).ok().unwrap()), String::from("1234.12.08"));
    assert_eq!(ymd(&parse_date(&String::from("1990.12.08"), &now).ok().unwrap()), String::from("1990.12.08"));
    assert_eq!(hms(&parse_date(&String::from("12:00:00"), &now).ok().unwrap()), String::from("12:00:00"));
    assert_eq!(hms(&parse_date(&String::from("00:00:00"), &now).ok().unwrap()), String::from("00:00:00"));
}

#[test]
fn date_keeps_the_current_time_of_day() {
    let d = parse_date("2002.01.01", &now()).ok().unwrap();
    assert_eq!(d, DateTime { year: 2002, month: 1, day: 1, hour: 10, minute: 20, second: 30, nanosecond: 0 });
    let t = parse_date("12:34:56", &now()).ok().unwrap();
    assert_eq!(t, DateTime { year: 2021, month: 6, day: 15, hour: 12, minute: 34, second: 56, nanosecond: 0 });
}

#[test]
fn date_errors_name_the_reason() {
    match parse_date("2002.30.30", &now()) {
        Err(Error::DateParseFailure(text, reason)) => {
            assert_eq!(text, "2002.30.30");
            assert_eq!(reason, "date");
        }
        _ => panic!("expected a date failure"),
    }
    match parse_date("yesterday", &now()) {
        Err(Error::DateParseFailure(text, reason)) => {
            assert_eq!(text, "yesterday");
            assert_eq!(reason, "a valid date");
        }
        _ => panic!("expected a date failure"),
    }
    match parse_date("2001.02.29", &now()) {
        Err(Error::DateParseFailure(text, reason)) => {
            assert_eq!(text, "2001.2.29");
            assert_eq!(reason, "date");
        }
        _ => panic!("expected a date failure"),
    }
    assert!(parse_date("2000.02.29", &now()).is_ok());
    match parse_date("2002101101", &now()) {
        Err(Error::DateParseFailure(text, reason)) => {
            assert_eq!(text, "2002101101");
            assert_eq!(reason, "a valid date");
        }
        _ => panic!("expected a date failure"),
    }
    assert!(matches!(try_parse_date("2002101101", &now()), Some(Err(Error::DateParseFailure(_, _)))));
}

#[test]
fn out_of_range_times_are_refused_before_reading() {
    assert!(try_parse_date("24:00:00", &now()).is_none());
    assert!(try_parse_date("24:30:24", &now()).is_none());
    assert!(try_parse_date("30:30:24", &now()).is_none());
    assert!(matches!(try_parse_date("23:59:59", &now()), Some(Ok(_))));
    assert!(matches!(try_parse_date("nonsense", &now()), Some(Err(_))));
}

#[test]
fn date_order_goes_by_date_then_time() {
    let a = at(2020, 1, 1);
    let b = DateTime { hour: 1, ..a };
    assert!(date_time_less(&a, &b));
    assert!(!date_time_less(&b, &a));
    assert!(!date_time_less(&a, &a));
    assert!(date_time_less(&b, &at(2020, 1, 2)));
    let c = DateTime { nanosecond: 1, ..a };
    assert!(date_time_less(&a, &c));
    assert!(!date_time_less(&c, &a));
}

#[test]
fn filter_by_date_older_and_younger() {
    let files = vec![
        item("/a", at(2019, 1, 1)),
        item("/b", at(2021, 1, 1)),
        item("/c", at(2020, 6, 1)),
    ];
    let older = filter_files_by_date(&AgeRelation::FileOlderThanDate(String::from("2020.06.01")), &files, &now())
        .ok()
        .unwrap();
    // the date is read at the current time of day, so an access at midnight of that day is older
    assert_eq!(older.len(), 2);
    assert_eq!(older[0].file, "/a");
    assert_eq!(older[1].file, "/c");
    let younger = filter_files_by_date(&AgeRelation::FileYoungerThanDate(String::from("2020.01.01")), &files, &now())
        .ok()
        .unwrap();
    assert_eq!(younger.len(), 2);
    assert_eq!(younger[0].file, "/b");
    assert_eq!(younger[1].file, "/c");
    assert!(filter_files_by_date(&AgeRelation::FileOlderThanDate(String::from("bad")), &files, &now()).is_err());
}

fn cache_items() -> DatedItems {
    DatedItems {
        registry_pkg_files: vec![item("/r/cache/z-1.0.0.crate", at(2010, 1, 1)), item("/r/cache/a-1.0.0.crate", at(2011, 1, 1))],
        registry_source_files: vec![item("/r/src/a-1.0.0", at(2021, 1, 1))],
        checkout_items: vec![item("/g/checkouts/x/abc", at(2009, 1, 1))],
        bare_repo_items: vec![item("/g/db/x", at(2022, 1, 1))],
    }
}

#[test]
fn remove_by_date_dry_run() {
    let plan = remove_files_by_dates(&cache_items(), None, Some("2015.01.01"), true, Some("registry-crate-cache,git-repos"), &now())
        .ok()
        .unwrap();
    assert_eq!(plan.message, "dry-run: would delete 3 items that are older than 2015.01.01...");
    assert!(plan.removals.is_empty());
    assert!(plan.invalidate.is_empty());
}

#[test]
fn remove_by_date_real_run_in_path_order() {
    let plan = remove_files_by_dates(&cache_items(), None, Some("2015.01.01"), false, Some("registry-crate-cache,git-repos"), &now())
        .ok()
        .unwrap();
    assert_eq!(plan.message, "Deleting 3 items that are older than 2015.01.01...");
    let paths: Vec<&str> = plan.removals.iter().map(|r| r.path.as_str()).collect();
    assert_eq!(paths, vec!["/g/checkouts/x/abc", "/r/cache/a-1.0.0.crate", "/r/cache/z-1.0.0.crate"]);
    assert!(plan.removals.iter().all(|r| r.delete && r.message.is_none()));
    assert_eq!(plan.invalidate, vec![Component::GitRepos, Component::RegistrySources, Component::RegistryCrateCache]);
}

#[test]
fn remove_by_date_younger() {
    let plan = remove_files_by_dates(&cache_items(), Some("2020.01.01"), None, true, Some("all"), &now())
        .ok()
        .unwrap();
    assert_eq!(plan.message, "dry-run: would delete 2 items that are younger than 2020.01.01...");
}

#[test]
fn remove_by_date_errors() {
    assert!(matches!(
        remove_files_by_dates(&cache_items(), None, Some("2015.01.01"), true, None, &now()),
        Err(Error::RemoveDirNoArg)
    ));
    assert!(matches!(
        remove_files_by_dates(&cache_items(), None, Some("2015.01.01"), true, Some("bogus"), &now()),
        Err(Error::InvalidDeletableDirs(_))
    ));
    assert!(matches!(
        remove_files_by_dates(&cache_items(), None, Some("2015-01-01"), true, Some("all"), &now()),
        Err(Error::DateParseFailure(_, _))
    ));
}
