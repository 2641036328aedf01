use cargo_cache::git::{
    fsck_report, fsck_start, gc_dry_run_end, gc_size_before, gc_start, gc_summary, registry_index_dir, repo_name,
    GcStep, GcTally,
};
use cargo_cache::dirsizes::size_changed_line;
use cargo_cache::library::Error;

#[test]
fn repo_names() {
    assert_eq!(repo_name("/home/u/.cargo/git/db/cargo-1234"), "cargo-1234");
    assert_eq!(repo_name(""), "<unknown>");
    assert_eq!(gc_start("/db/x-1"), "Recompressing 'x-1': ");
    assert_eq!(fsck_start("/db/x-1"), "Fscking 'x-1'");
}

#[test]
fn index_dir_is_next_to_archives() {
    assert_eq!(registry_index_dir("/home/u/.cargo/registry/cache"), "/home/u/.cargo/registry/index");
    assert_eq!(registry_index_dir("cache"), "index");
}

#[test]
fn gc_lines() {
    assert_eq!(gc_size_before(1500), "1.50 KB => ");
    assert_eq!(gc_dry_run_end(1500), "1.50 KB (+0)");
    assert_eq!(gc_summary(2000, 1000, "-50"), "\nCompressed 2 KB to 1 KB (-1 KB, -50%)");
    assert_eq!(size_changed_line(1000, 1000, "0"), "\nSize changed from 1 KB to 1 KB");
}

#[test]
fn tally_counts_and_reports() {
    let mut t = GcTally::new();
    assert!(matches!(t.record(&Ok((10, 4))), GcStep::Counted));
    assert!(matches!(t.record(&Ok((5, 5))), GcStep::Counted));
    assert_eq!((t.before, t.after), (15, 9));
    match t.record(&Err(Error::GitRepoDirNotFound(String::from("/x")))) {
        GcStep::Reported(m) => assert_eq!(m, "Git repo \"/x\" not found"),
        _ => panic!("expected a report"),
    }
    assert!(matches!(t.record(&Err(Error::GitNotInstalled)), GcStep::Unexpected));
    assert_eq!((t.before, t.after), (15, 9));
}

#[test]
fn fsck_reports() {
    assert_eq!(fsck_report(&Ok(())), Ok(None));
    assert_eq!(
        fsck_report(&Err(Error::GitRepoNotOpened(String::from("/r")))),
        Ok(Some(String::from("Failed to open git repository at \"/r\"")))
    );
    assert_eq!(fsck_report(&Err(Error::NoCWD)), Err(()));
}
