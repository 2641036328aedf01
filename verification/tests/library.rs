use cargo_cache::library::{components_from_groups, parse_group, Component, Error, RemovableGroup};

#[test]
fn components_all() {
    let c = components_from_groups(Some("all")).ok().unwrap();
    assert_eq!(
        c,
        vec![
            Component::GitDB,
            Component::GitRepos,
            Component::RegistrySources,
            Component::RegistryCrateCache,
            Component::RegistryIndex
        ]
    );
}

#[test]
fn components_dedup_and_order() {
    let c = components_from_groups(Some("registry-index,git-db,registry,registry-sources")).ok().unwrap();
    assert_eq!(
        c,
        vec![
            Component::GitDB,
            Component::GitRepos,
            Component::RegistrySources,
            Component::RegistryCrateCache,
            Component::RegistryIndex
        ]
    );
    let c = components_from_groups(Some("git-repos")).ok().unwrap();
    assert_eq!(c, vec![Component::GitRepos]);
}

#[test]
fn components_invalid_and_missing() {
    match components_from_groups(Some("foo,git-db,bar")) {
        Err(Error::InvalidDeletableDirs(s)) => assert_eq!(s, "foo bar"),
        _ => panic!("expected an error"),
    }
    match components_from_groups(Some("git-db,")) {
        Err(Error::InvalidDeletableDirs(s)) => assert_eq!(s, ""),
        _ => panic!("expected an error"),
    }
    assert!(matches!(components_from_groups(None), Err(Error::RemoveDirNoArg)));
}

#[test]
fn group_names_parse() {
    assert_eq!(parse_group("registry-crate-cache"), Ok(RemovableGroup::RegistryCrateCache));
    assert_eq!(parse_group("nope"), Err("nope".to_string()));
    let g: Result<RemovableGroup, String> = "git-db".parse();
    assert_eq!(g, Ok(RemovableGroup::GitDB));
}

#[test]
fn error_messages() {
    assert_eq!(
        Error::RemoveDirNoArg.message(),
        "No argument passed to \"--remove-dir\"! Chose one or several from git-db,git-repos,registry-sources,registry-crate-cache,registry-index,registry,all"
    );
    assert_eq!(
        Error::TrimLimitUnitParseFailure("12Q".to_string()).message(),
        "Failed to parse limit: \"12Q\". Should be of the form 123X where X is one of B,K,M,G or T."
    );
    assert_eq!(
        Error::NoSccacheDir.message(),
        "Could not find sccache cache directory at ~/.cache/sccache or ${SCCACHE_DIR}"
    );
    assert_eq!(
        Error::LocalNoTargetDir("/x/target".to_string()).message(),
        "error: \"local\" subcommand tried to read \"target\" directory that does not exist: \"/x/target\""
    );
    assert_eq!(
        Error::GitGCFailed("/r".to_string(), "boom".to_string()).message(),
        "Failed to git gc repository \"/r\":\nboom"
    );
}

#[test]
fn removable_group_from_str() {
    assert_eq!("git-db".parse::<RemovableGroup>(), Ok(RemovableGroup::GitDB));
    assert_eq!("registry".parse::<RemovableGroup>(), Ok(RemovableGroup::Registry));
    assert_eq!("gitdb".parse::<RemovableGroup>(), Err("gitdb".to_string()));
}
