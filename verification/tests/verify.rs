use std::path::PathBuf;

use cargo_cache::verify::{
    clean_corrupted, corrupted_source_line, diff_crate_and_source, map_src_path_to_cache_path,
    normalized, verify_crates, Diff, FileSizeDifference, FileWithSize,
};

#[test]
fn test_map_src_path_to_cache_path() {
    let old_src_path = "/home/matthias/.cargo/registry/src/github.com-1ecc6299db9ec823/bytes-0.4.12";
    let new_archive_path =
        PathBuf::from("/home/matthias/.cargo/registry/cache/github.com-1ecc6299db9ec823/bytes-0.4.12.crate");

    let new = map_src_path_to_cache_path(old_src_path);

    assert_eq!(PathBuf::from(new), new_archive_path);
}

#[test]
fn cache_path_is_exact_text() {
    assert_eq!(map_src_path_to_cache_path("reg/src/index-1/foo-1.0.0/"), "reg/cache/index-1/foo-1.0.0.crate");
}

#[test]
fn paths_are_normalized() {
    // "e" followed by a combining acute accent composes to one character
    assert_eq!(normalized("cafe\u{301}.rs"), "caf\u{e9}.rs");
    assert_eq!(normalized("plain/lib.rs"), "plain/lib.rs");
}

#[test]
fn files_are_named_from_the_crate_root() {
    let f = FileWithSize::from_disk("/home/u/.cargo/registry/src/idx/foo-1.0.0/src/lib.rs", "foo-1.0.0", 42);
    assert_eq!(f.path, "foo-1.0.0/src/lib.rs");
    assert_eq!(f.size, 42);
    let a = FileWithSize::from_archive("foo-1.0.0/Cargo.toml", 7);
    assert_eq!(a.path, "foo-1.0.0/Cargo.toml");
    assert_eq!(a.size, 7);
}

fn fws(path: &str, size: u64) -> FileWithSize {
    FileWithSize { path: String::from(path), size }
}

#[test]
fn diff_finds_missing_additional_and_resized() {
    let archive = vec![fws("foo/a.rs", 1), fws("foo/b.rs", 2), fws("foo/c.rs", 3)];
    let source = vec![fws("foo/a.rs", 1), fws("foo/c.rs", 30), fws("foo/d.rs", 4), fws("foo/.cargo-ok", 0)];
    let d = diff_crate_and_source(&archive, &source, "/reg/src/idx/foo", &vec![false, false, false, false]);
    assert_eq!(d.krate_name, "foo");
    assert_eq!(d.files_missing_in_checkout, vec!["foo/b.rs"]);
    assert_eq!(d.additional_files_in_checkout, vec!["foo/d.rs"]);
    assert_eq!(d.files_size_difference.len(), 1);
    assert_eq!(d.files_size_difference[0].path, "foo/c.rs");
    assert_eq!(d.files_size_difference[0].size_archive, 3);
    assert_eq!(d.files_size_difference[0].size_source, 30);
    assert_eq!(d.source_path.as_deref(), Some("/reg/src/idx/foo"));
    assert!(!d.is_ok());
    assert_eq!(
        d.details(),
        "Crate: foo\nMissing from source:\nfoo/b.rs\nNot found in archive/additional:\nfoo/d.rs\n\
         File: foo/c.rs, size in archive: 3b, size in checkout: 30b\n"
    );
}

#[test]
fn diff_of_matching_source_is_ok() {
    let archive = vec![fws("foo/a.rs", 1)];
    let source = vec![fws("foo/a.rs", 1), fws("foo/sub", 0)];
    let d = diff_crate_and_source(&archive, &source, "/reg/src/idx/foo", &vec![false, true]);
    assert!(d.is_ok());
    assert_eq!(d.details(), "Crate: foo\n");
}

fn named(name: &str, bad: bool) -> Diff {
    let mut d = Diff::new();
    d.krate_name = String::from(name);
    d.source_path = Some(format!("/reg/src/idx/{}", name));
    if bad {
        d.files_size_difference.push(FileSizeDifference { path: String::from("x"), size_archive: 1, size_source: 2 });
    }
    d
}

#[test]
fn verify_reports_only_bad_sources() {
    assert!(verify_crates(vec![named("a", false), named("b", false)]).is_ok());
    let bad = verify_crates(vec![named("a", false), named("b", true), named("c", true)]).err().unwrap();
    let names: Vec<&str> = bad.iter().map(|d| d.krate_name.as_str()).collect();
    assert_eq!(names, vec!["b", "c"]);
    assert_eq!(corrupted_source_line(&bad[0]), "Possibly corrupted source: b");
}

#[test]
fn corrupted_sources_are_removed() {
    let diffs = vec![named("a", true), named("b", true), Diff::new()];
    let rms = clean_corrupted(&diffs, &vec![true, false, true], false);
    assert_eq!(rms.len(), 1);
    assert_eq!(rms[0].path, "/reg/src/idx/a");
    assert_eq!(rms[0].message.as_deref(), Some("removing corrupted source: /reg/src/idx/a"));
    assert!(rms[0].delete);
    let dry = clean_corrupted(&diffs, &vec![true, false, true], true);
    assert_eq!(dry[0].message.as_deref(), Some("dry-run: would remove: '/reg/src/idx/a'"));
    assert!(!dry[0].delete);
}
