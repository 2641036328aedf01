use cargo_cache::library::{CargoCachePaths, Component, Error};
use cargo_cache::remove::{
    old_crate_dry_run_message, parse_version, remove_dir_via_cmdline, remove_file,
    remove_with_default_message, rm_old_crates, ComponentSizes, DryRunMessage,
};

#[test]
fn test_parse_version() {
    let (name, version): (String, String) =
        parse_version("heim-runtime-0.1.0-beta.1.crate").ok().unwrap();
    assert_eq!(name, "heim-runtime");
    assert_eq!(version, "0.1.0-beta.1");

    let (name2, version2): (String, String) =
        parse_version("cargo-cache-0.4.3.crate").ok().unwrap();
    assert_eq!(name2, "cargo-cache");
    assert_eq!(version2, "0.4.3");
}

#[test]
fn parse_version_edge_cases() {
    assert_eq!(parse_version("/r/src/serde-1.0.100").ok().unwrap(), ("serde".to_string(), "1.0".to_string()));
    assert_eq!(parse_version("/r/noversion").ok().unwrap(), ("noversion".to_string(), String::new()));
    assert_eq!(parse_version("a--b-2-x.tar").ok().unwrap(), ("a-b".to_string(), "2-x".to_string()));
    assert!(matches!(parse_version("/"), Err(Error::MalformedPackageName(p)) if p == "/"));
}

fn names(v: &[&str]) -> Vec<String> {
    v.iter().map(|s| s.to_string()).collect()
}

#[test]
fn rm_old_crates_keeps_newest() {
    let entries = names(&["foo-1.0.0", "bar-0.1.0", "foo-1.2.0", "foo-1.1.0", "bar-0.2.0"]);
    let (plan, err) = rm_old_crates(1, "/r", &entries);
    assert!(err.is_none());
    let paths: Vec<String> = plan.iter().map(|c| c.path.clone()).collect();
    assert_eq!(paths, vec!["/r/foo-1.1.0", "/r/foo-1.0.0", "/r/bar-0.1.0"]);
    assert_eq!(plan[0].name, "foo");
    assert_eq!(plan[0].version, "1.1");
    assert_eq!(
        old_crate_dry_run_message(&plan[0]),
        "dry run: not actually deleting foo 1.1 at /r/foo-1.1.0"
    );
    let (plan, _) = rm_old_crates(2, "/r", &entries);
    let paths: Vec<String> = plan.iter().map(|c| c.path.clone()).collect();
    assert_eq!(paths, vec!["/r/foo-1.0.0"]);
    let (plan, _) = rm_old_crates(0, "/r/", &entries);
    assert_eq!(plan.len(), 5);
    assert_eq!(plan[0].path, "/r/foo-1.2.0");
}

#[test]
fn remove_file_messages() {
    let r = remove_file("/x", true, None, &DryRunMessage::Default, Some(1500));
    assert_eq!(r.message, Some("dry-run: would remove: '/x' (1.50 KB)".to_string()));
    assert!(!r.delete);
    let r = remove_file("/x", true, None, &DryRunMessage::Default, None);
    assert_eq!(r.message, Some("dry-run: would remove: '/x'".to_string()));
    let r = remove_file("/x", true, Some("m".to_string()), &DryRunMessage::Nothing, None);
    assert_eq!(r.message, None);
    let r = remove_file("/x", false, Some("m".to_string()), &DryRunMessage::Custom("c".to_string()), None);
    assert_eq!(r.message, Some("m".to_string()));
    assert!(r.delete);
    let r = remove_with_default_message("/d", false, Some(3));
    assert_eq!(r.message, Some("removing: '/d'".to_string()));
    assert_eq!(r.path, "/d");
}

#[test]
fn remove_dir_plan() {
    let ccd = CargoCachePaths::from_cargo_home("/h");
    let sizes = ComponentSizes { git_db: 1000, git_repos: 2000, registry_sources: 3, registry_crate_cache: 4, registry_index: 5 };
    let (plan, total) = remove_dir_via_cmdline(Some("git-db"), true, &ccd, &sizes).ok().unwrap();
    assert_eq!(plan.len(), 2);
    assert_eq!(plan[0].component, Component::GitDB);
    assert_eq!(plan[0].removal.path, "/h/git/db");
    assert_eq!(plan[0].removal.message, Some("dry-run: would remove: '/h/git/db' (1 KB)".to_string()));
    assert_eq!(plan[1].removal.path, "/h/git/checkouts");
    assert_eq!(total, Some("dry-run: would remove in total: 3 KB".to_string()));
    let (plan, total) = remove_dir_via_cmdline(Some("registry-index"), false, &ccd, &sizes).ok().unwrap();
    assert_eq!(plan.len(), 1);
    assert_eq!(plan[0].removal.message, Some("removing: '/h/registry/index'".to_string()));
    assert!(plan[0].removal.delete);
    assert_eq!(total, None);
    assert!(matches!(remove_dir_via_cmdline(Some("x"), false, &ccd, &sizes), Err(Error::InvalidDeletableDirs(_))));
}

#[test]
fn cache_paths_and_list() {
    let c = CargoCachePaths::from_cargo_home("/home/u/.cargo");
    assert_eq!(c.registry_sources, "/home/u/.cargo/registry/src");
    assert_eq!(c.git_checkouts, "/home/u/.cargo/git/checkouts");
    assert!(c.to_string().starts_with("\ncargo home:                 /home/u/.cargo\nbinaries directory:         /home/u/.cargo/bin\n"));
    assert!(matches!(CargoCachePaths::new("/nope", false), Err(Error::CargoHomeNotDirectory(_))));
    assert!(matches!(CargoCachePaths::default(None, true), Err(Error::GetCargoHomeFailed)));
}

#[test]
fn autoclean_removes_sources_and_checkouts_only() {
    let paths = CargoCachePaths::from_cargo_home("/home/u/.cargo");
    let plan = cargo_cache::remove::autoclean(&paths, 2000, true, 3000, true, false);
    let removed: Vec<&str> = plan.iter().map(|r| r.path.as_str()).collect();
    assert_eq!(removed, vec!["/home/u/.cargo/registry/src", "/home/u/.cargo/git/checkouts"]);
    assert!(plan.iter().all(|r| r.delete && r.message.is_none()));
    let dry = cargo_cache::remove::autoclean(&paths, 2000, false, 3000, true, true);
    assert_eq!(dry.len(), 1);
    assert_eq!(dry[0].message.as_deref(), Some("dry-run: would remove: '/home/u/.cargo/git/checkouts' (3 KB)"));
    assert!(!dry[0].delete);
}

#[test]
fn name_and_version_come_back_from_the_file_name() {
    for (name, version) in [("serde_json", "1.0.64"), ("a-b-c", "0.1.0-rc-2"), ("x", "2")] {
        let file = format!("{}-{}.crate", name, version);
        let (n, v) = parse_version(&file).ok().unwrap();
        assert_eq!((n.as_str(), v.as_str()), (name, version));
    }
}
