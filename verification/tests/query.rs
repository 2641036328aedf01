use cargo_cache::library::Error;
use cargo_cache::query::{path_to_name, run_query, QueryFile, QueryInput, SortBy};

fn input() -> QueryInput {
    QueryInput {
        binaries: vec![
            QueryFile::new("/home/u/.cargo/bin/rustfmt", 300),
            QueryFile::new("/home/u/.cargo/bin/cargo-cache", 100),
            QueryFile::new("/home/u/.cargo/bin/ripgrep", 200),
        ],
        git_checkouts: vec![QueryFile::new("/home/u/.cargo/git/checkouts/cargo-cache-123", 5)],
        bare_repos: vec![],
        registry_cache: vec![
            QueryFile::new("/home/u/.cargo/registry/cache/github.com-1/cargo-cache-0.4.3.crate", 70),
            QueryFile::new("/home/u/.cargo/registry/cache/github.com-1/cargo-0.4.3.crate", 30),
        ],
        registry_sources: vec![],
    }
}

#[test]
fn query_names_are_file_stems() {
    assert_eq!(path_to_name("/a/b/cargo-cache-0.4.3.crate"), "cargo-cache-0.4.3");
    assert_eq!(path_to_name("/a/b/rustfmt"), "rustfmt");
    let f = QueryFile::new("/x/y/z.tar.gz", 9);
    assert_eq!(f.name, "z.tar");
    assert_eq!(f.size, 9);
}

#[test]
fn query_sorted_by_name() {
    let out = run_query("cargo", SortBy::Name, false, &input()).ok().unwrap();
    assert!(out.printed_first.is_empty());
    assert_eq!(
        out.output,
        "Binaries sorted by name:\n\tcargo-cache: 100\n\n\
         Git checkouts sorted by name:\n\tcargo-cache-123: 5\n\n\
         Registry cache sorted by name:\n\tcargo-0.4.3: 30\n\tcargo-cache-0.4.3: 70"
    );
}

#[test]
fn query_sorted_by_size_prints_binaries_first() {
    let out = run_query("^r", SortBy::Size, false, &input()).ok().unwrap();
    assert_eq!(out.printed_first, vec!["\tripgrep: 200", "\trustfmt: 300"]);
    assert_eq!(out.output, "Binaries sorted by size:");
}

#[test]
fn query_with_human_readable_sizes() {
    let out = run_query("^ripgrep$", SortBy::Name, true, &input()).ok().unwrap();
    assert_eq!(out.output, "Binaries sorted by name:\n\tripgrep: 200 B");
}

#[test]
fn query_matching_nothing_is_empty() {
    let out = run_query("zzz", SortBy::Name, false, &input()).ok().unwrap();
    assert_eq!(out.output, "");
    assert!(out.printed_first.is_empty());
}

#[test]
fn query_bad_pattern_is_an_error() {
    match run_query("(", SortBy::Name, false, &input()) {
        Err(Error::QueryRegexFailedParsing(q)) => assert_eq!(q, "("),
        _ => panic!("expected a regex error"),
    }
}
