use cargo_cache::local::{is_under_named_subdir, local_report, other_entries, TargetSizes};

fn sizes(total: u64, debug: u64, release: u64, other: u64) -> TargetSizes {
    TargetSizes { total, debug, rls: 0, release, package: 0, doc: 0, other }
}

#[test]
fn local_report_without_target_dir() {
    let r = local_report("\"/home/u/proj\"", None, &sizes(0, 0, 0, 0));
    assert_eq!(r, "Project \"/home/u/proj\"\nNo target dir found!");
}

#[test]
fn local_report_lists_non_empty_parts() {
    let r = local_report("\"/p\"", Some("/p/target"), &sizes(1500, 1000, 0, 500));
    let expected = String::from("Project \"/p\"\nTarget dir: /p/target\n\n")
        + "Total size:       1.50 KB\n"
        + "  debug:             1 KB\n"
        + "  other:            500 B\n";
    assert_eq!(r, expected);
}

#[test]
fn named_subdirs_are_recognised() {
    assert!(is_under_named_subdir("/p/target", "/p/target/debug"));
    assert!(is_under_named_subdir("/p/target", "/p/target/doc/x"));
    assert!(!is_under_named_subdir("/p/target", "/p/target/debugger"));
    assert!(!is_under_named_subdir("/p/target", "/p/target/.rustc_info.json"));
}

#[test]
fn other_entries_keep_order() {
    let entries = vec![
        "/p/target/.rustc_info.json".to_string(),
        "/p/target/debug".to_string(),
        "/p/target/x86_64-unknown-linux-gnu".to_string(),
        "/p/target/release".to_string(),
    ];
    let r = other_entries("/p/target", &entries);
    assert_eq!(r, vec!["/p/target/.rustc_info.json".to_string(), "/p/target/x86_64-unknown-linux-gnu".to_string()]);
}
