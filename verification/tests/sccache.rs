use cargo_cache::sccache::{day_to_string, sccache_days, sccache_table, Day, DayStat, SccacheFile};

fn day(year: i32, month: u32, d: u32) -> Day {
    Day { year, month, day: d }
}

#[test]
fn days_display_like_dates() {
    assert_eq!(day_to_string(day(2020, 3, 7)), "2020-03-07");
    assert_eq!(day_to_string(day(999, 12, 31)), "0999-12-31");
    assert_eq!(day_to_string(day(12345, 1, 1)), "+12345-01-01");
    assert_eq!(day_to_string(day(-5, 1, 1)), "-0005-01-01");
}

#[test]
fn files_are_counted_per_day_earliest_first() {
    let files = vec![
        SccacheFile { day: day(2021, 5, 2), size: Some(100) },
        SccacheFile { day: day(2021, 5, 1), size: Some(10) },
        SccacheFile { day: day(2021, 5, 2), size: None },
        SccacheFile { day: day(2020, 12, 31), size: Some(1) },
        SccacheFile { day: day(2021, 5, 2), size: Some(5) },
    ];
    let days = sccache_days(&files);
    assert_eq!(
        days,
        vec![
            DayStat { day: day(2020, 12, 31), files: 1, size: 1 },
            DayStat { day: day(2021, 5, 1), files: 1, size: 10 },
            DayStat { day: day(2021, 5, 2), files: 3, size: 105 },
        ]
    );
}

#[test]
fn sccache_table_lists_days_and_total() {
    let days = vec![
        DayStat { day: day(2021, 5, 1), files: 2, size: 1000 },
        DayStat { day: day(2021, 5, 2), files: 1, size: 3000 },
    ];
    let t = sccache_table(&days, &vec![String::from("25.00 %"), String::from("75.00 %")]);
    let lines: Vec<&str> = t.lines().collect();
    assert_eq!(lines.len(), 6);
    assert!(lines[0].starts_with("Files"));
    assert!(lines[1].contains("2021-05-01") && lines[1].contains("1 KB") && lines[1].contains("25.00 %"));
    assert!(lines[2].contains("2021-05-02") && lines[2].contains("3 KB"));
    assert_eq!(lines[3], "");
    assert_eq!(lines[4], "Total");
    assert!(lines[5].starts_with("3") && lines[5].contains("4 KB") && lines[5].ends_with("100 %"));
}
