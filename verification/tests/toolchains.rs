use cargo_cache::toolchains::{sort_toolchains, toolchain_table, Toolchain};

fn tc(name: &str, number_files: u64, size: u64) -> Toolchain {
    Toolchain { name: String::from(name), number_files, size }
}

#[test]
fn toolchains_largest_first_later_first_on_ties() {
    let sorted = sort_toolchains(vec![tc("stable", 10, 500), tc("beta", 5, 900), tc("nightly", 7, 500)]);
    let names: Vec<&str> = sorted.iter().map(|t| t.name.as_str()).collect();
    assert_eq!(names, vec!["beta", "nightly", "stable"]);
}

#[test]
fn toolchain_table_has_totals() {
    let tcs = vec![tc("beta", 5, 3000), tc("stable", 10, 1000)];
    let t = toolchain_table(&tcs, &vec![String::from("75.00 %"), String::from("25.00 %")]);
    let lines: Vec<&str> = t.lines().collect();
    assert_eq!(lines.len(), 5);
    assert!(lines[0].starts_with("Toolchain Name"));
    assert!(lines[1].starts_with("beta") && lines[1].contains("3 KB") && lines[1].ends_with("75.00 %"));
    assert!(lines[2].starts_with("stable"));
    assert_eq!(lines[3], "");
    assert!(lines[4].starts_with("Total") && lines[4].contains("15") && lines[4].contains("4 KB") && lines[4].ends_with("100 %"));
}
