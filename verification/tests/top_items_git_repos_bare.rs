use cargo_cache::top_items::common::FileDesc;
use cargo_cache::top_items::git_repos_bare::{git_repos_bare_stats, stats_from_file_desc_list};

fn line(total: u64, name: &str, count: u32, avg: &str, total_hr: &str, width: usize) -> String {
    format!(
        "{:0>20} {: <width$} src ckt: {: <3} {: <20}  total: {}\n",
        total,
        name,
        count,
        format!("src avg: {: >9}", avg),
        total_hr,
        width = width
    )
}

#[test]
fn bare_repo_named_without_hash() {
    let d = FileDesc::new_from_git_bare("/home/u/.cargo/git/db/cargo-cache-16826c8e13331adc", 10);
    assert_eq!(d.name, "cargo-cache");
    assert_eq!(d.size, 10);
    assert_eq!(d.path, "/home/u/.cargo/git/db/cargo-cache-16826c8e13331adc");
    assert_eq!(FileDesc::new_from_git_bare("/db/nodash", 1).name, "");
}

fn descs() -> Vec<FileDesc> {
    vec![
        FileDesc::new_from_git_bare("/db/a-1", 10),
        FileDesc::new_from_git_bare("/db/a-2", 20),
        FileDesc::new_from_git_bare("/db/bb-3", 5),
    ]
}

#[test]
fn bare_stats_lines_largest_first() {
    let lines = stats_from_file_desc_list(descs());
    assert_eq!(lines, vec![line(30, "a", 2, "15 B", "30 B", 2), line(5, "bb", 1, "5 B", "5 B", 2)]);
}

#[test]
fn bare_stats_empty() {
    assert!(stats_from_file_desc_list(vec![]).is_empty());
    assert_eq!(git_repos_bare_stats("/db", true, 0, 5, vec![]), "\nSummary of: /db (0 B total)\n");
    assert_eq!(git_repos_bare_stats("/db", false, 35, 5, descs()), "");
}

#[test]
fn bare_summary_is_a_table_respecting_limit() {
    assert_eq!(
        git_repos_bare_stats("/db", true, 35, 1, descs()),
        "\nSummary of: /db (35 B total)\nName Count Average Total\na    2     15 B    30 B\n"
    );
    assert_eq!(
        git_repos_bare_stats("/db", true, 35, 9, descs()),
        "\nSummary of: /db (35 B total)\nName Count Average Total\na    2     15 B    30 B\nbb   1     5 B     5 B\n"
    );
}
