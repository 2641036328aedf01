use cargo_cache::cli::{clap_to_enum, parse_u64, CargoCacheCommands, CleanUnrefArgs, CliError, CliFlags, TrimArgs, VerifyArgs};

fn flags(args: &[&str]) -> CliFlags {
    CliFlags {
        args: args.iter().map(|a| a.to_string()).collect(),
        dry_run: false,
        version: false,
        version_subcommand: false,
        sccache: false,
        toolchain: false,
        trim: None,
        clean_unref: None,
        top_cache_items: None,
        query: false,
        local: false,
        info: false,
        remove_dir: None,
        autoclean_expensive: false,
        gc_repos: false,
        autoclean: false,
        fsck_repos: false,
        keep_duplicate_crates: None,
        registries: false,
        list_dirs: false,
        remove_if_younger_than: None,
        remove_if_older_than: None,
        verify: None,
    }
}

#[test]
fn u64_values() {
    assert_eq!(parse_u64("0"), Some(0));
    assert_eq!(parse_u64("+42"), Some(42));
    assert_eq!(parse_u64("18446744073709551615"), Some(u64::MAX));
    assert_eq!(parse_u64("18446744073709551616"), None);
    assert_eq!(parse_u64(""), None);
    assert_eq!(parse_u64("+"), None);
    assert_eq!(parse_u64("-1"), None);
    assert_eq!(parse_u64("1a"), None);
}

#[test]
fn bare_invocations_give_the_default_summary() {
    for args in [&["cargo-cache"][..], &["cargo-cache", "cache"], &["cargo-cache", "--debug"], &["cargo-cache", "cache", "--debug"]] {
        let mut f = flags(args);
        f.info = true;
        assert!(matches!(clap_to_enum(&f), Ok(CargoCacheCommands::DefaultSummary)));
    }
}

#[test]
fn flags_map_to_commands_in_order() {
    let mut f = flags(&["cargo-cache", "cache", "--info", "-a"]);
    f.info = true;
    f.autoclean = true;
    assert!(matches!(clap_to_enum(&f), Ok(CargoCacheCommands::Info)));

    let mut f = flags(&["cargo-cache", "-g", "-a"]);
    f.gc_repos = true;
    f.autoclean = true;
    f.dry_run = true;
    assert!(matches!(clap_to_enum(&f), Ok(CargoCacheCommands::AutoCleanExpensive { dry_run: true })));

    let mut f = flags(&["cargo-cache", "trim", "--limit", "1G"]);
    f.dry_run = true;
    f.trim = Some(TrimArgs { dry_run: false, limit: Some(String::from("1G")) });
    match clap_to_enum(&f) {
        Ok(CargoCacheCommands::Trim { dry_run, trim_limit }) => {
            assert!(dry_run);
            assert_eq!(trim_limit.as_deref(), Some("1G"));
        }
        _ => panic!("expected trim"),
    }

    let mut f = flags(&["cargo-cache", "clean-unref"]);
    f.clean_unref = Some(CleanUnrefArgs { dry_run: true, manifest_path: None });
    assert!(matches!(clap_to_enum(&f), Ok(CargoCacheCommands::CleanUnref { dry_run: true, manifest_path: None })));
}

#[test]
fn values_are_read() {
    let mut f = flags(&["cargo-cache", "-t", "5"]);
    f.top_cache_items = Some(Some(String::from("5")));
    assert!(matches!(clap_to_enum(&f), Ok(CargoCacheCommands::TopCacheItems { limit: 5 })));
    f.top_cache_items = Some(Some(String::from("many")));
    assert!(matches!(clap_to_enum(&f), Ok(CargoCacheCommands::TopCacheItems { limit: 20 })));

    let mut f = flags(&["cargo-cache", "-k", "3"]);
    f.keep_duplicate_crates = Some(Some(String::from("3")));
    assert!(matches!(clap_to_enum(&f), Ok(CargoCacheCommands::KeepDuplicateCrates { dry_run: false, limit: 3 })));
    f.keep_duplicate_crates = Some(Some(String::from("x")));
    match clap_to_enum(&f) {
        Err(CliError::Fatal(m)) => assert_eq!(m, "Error: \"--keep-duplicate-crates\" expected an integer argument"),
        _ => panic!("expected a fatal error"),
    }
}

#[test]
fn removal_by_date_within_remove_dir() {
    let mut f = flags(&["cargo-cache", "--remove-if-older-than", "2020.01.01", "--remove-dir", "git-db"]);
    f.remove_if_older_than = Some(Some(String::from("2020.01.01")));
    f.remove_dir = Some(Some(String::from("git-db")));
    match clap_to_enum(&f) {
        Ok(CargoCacheCommands::RemoveIfDate { dry_run, arg_younger, arg_older, dirs }) => {
            assert!(!dry_run);
            assert_eq!(arg_younger, None);
            assert_eq!(arg_older.as_deref(), Some("2020.01.01"));
            assert_eq!(dirs.as_deref(), Some("git-db"));
        }
        _ => panic!("expected removal by date"),
    }
    let mut f = flags(&["cargo-cache", "--remove-if-younger-than", "10:00:00", "--remove-dir", "all"]);
    f.remove_if_younger_than = Some(Some(String::from("10:00:00")));
    f.remove_dir = Some(Some(String::from("all")));
    match clap_to_enum(&f) {
        Ok(CargoCacheCommands::RemoveIfDate { arg_younger, arg_older, dirs, .. }) => {
            assert_eq!(arg_younger.as_deref(), Some("10:00:00"));
            assert_eq!(arg_older, None);
            assert_eq!(dirs.as_deref(), Some("all"));
        }
        _ => panic!("expected removal by date"),
    }
}

#[test]
fn verify_and_dry_run_and_nothing() {
    let mut f = flags(&["cargo-cache", "verify"]);
    f.verify = Some(VerifyArgs { dry_run: false, clean_corrupted: true });
    f.dry_run = true;
    assert!(matches!(clap_to_enum(&f), Ok(CargoCacheCommands::Verify { clean_corrupted: true, dry_run: true })));

    let mut f = flags(&["cargo-cache", "--dry-run"]);
    f.dry_run = true;
    assert!(matches!(clap_to_enum(&f), Ok(CargoCacheCommands::OnlyDryRun)));

    let f = flags(&["cargo-cache", "--bogus"]);
    assert!(matches!(clap_to_enum(&f), Err(CliError::Unmapped)));
}
