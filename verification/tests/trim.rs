use cargo_cache::trim::{size_limit_unit, trim_cache, TrimError, TrimItem};

#[test]
fn limit_units() {
    assert_eq!(size_limit_unit("1b"), Ok(1));
    assert_eq!(size_limit_unit("1B"), Ok(1));
    assert_eq!(size_limit_unit("1k"), Ok(1_024));
    assert_eq!(size_limit_unit("1K"), Ok(1_024));
    assert_eq!(size_limit_unit("1m"), Ok(1_048_576));
    assert_eq!(size_limit_unit("1M"), Ok(1_048_576));
    assert_eq!(size_limit_unit("1g"), Ok(1_073_741_824));
    assert_eq!(size_limit_unit("1G"), Ok(1_073_741_824));
    assert_eq!(size_limit_unit("1t"), Ok(1_099_511_627_776));
    assert_eq!(size_limit_unit("1T"), Ok(1_099_511_627_776));
    assert_eq!(size_limit_unit(""), Ok(0));
    assert_eq!(size_limit_unit("1_"), Err(TrimError::TrimLimitUnitParseFailure(String::from("1_"))));
    assert_eq!(size_limit_unit("12x"), Err(TrimError::TrimLimitUnitParseFailure(String::from("12x"))));
}

#[test]
fn limit_error_text() {
    assert_eq!(
        TrimError::TrimLimitUnitParseFailure(String::from("1_")).message(),
        "Failed to parse limit: \"1_\". Should be of the form 123X where X is one of B,K,M,G or T."
    );
}

fn item(path: &str, last_access: u64, size: u64) -> TrimItem {
    TrimItem { path: String::from(path), last_access, size }
}

fn removed(items: &Vec<TrimItem>, limit: u64, total: u64) -> Vec<String> {
    trim_cache(limit, total, items, false).into_iter().map(|r| r.path).collect()
}

#[test]
fn trim_removes_least_recently_used_beyond_limit() {
    let items = vec![item("/old", 1, 100), item("/new", 30, 100), item("/mid", 20, 100)];
    // walking /new (100), /mid (200), /old (300): only /old goes over 250
    assert_eq!(removed(&items, 250, 300), vec!["/old"]);
    // over 100 from /mid on
    assert_eq!(removed(&items, 100, 300), vec!["/mid", "/old"]);
    // a zero limit removes everything, most recent first
    assert_eq!(removed(&items, 0, 300), vec!["/new", "/mid", "/old"]);
}

#[test]
fn trim_does_nothing_when_the_limit_exceeds_the_cache() {
    let items = vec![item("/a", 1, 100)];
    assert!(trim_cache(101, 100, &items, false).is_empty());
    assert_eq!(removed(&items, 100, 100), Vec::<String>::new());
}

#[test]
fn trim_ties_go_later_item_first() {
    let items = vec![item("/first", 5, 10), item("/second", 5, 10)];
    // equal access times: the later item counts as more recent
    assert_eq!(removed(&items, 10, 20), vec!["/first"]);
}

#[test]
fn trim_dry_run_only_announces() {
    let items = vec![item("/a", 1, 100)];
    let rms = trim_cache(0, 100, &items, true);
    assert_eq!(rms.len(), 1);
    assert!(!rms[0].delete);
    assert_eq!(rms[0].message.as_deref(), Some("dry-run: would remove: '/a'"));
}
