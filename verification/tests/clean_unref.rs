use std::path::{Path, PathBuf};

use cargo_cache::clean_unref::{clean_unref, find_crate_name_crate, find_crate_name_git, manifest_source_of, SourceKind};
use cargo_cache::library::CargoCachePaths;

fn path_of(k: SourceKind) -> PathBuf {
    PathBuf::from(k.inner())
}

#[test]
fn sourcekind_inner() {
    let sk_crate = SourceKind::Crate(String::from("abc"));
    assert_eq!(PathBuf::from(sk_crate.inner()), PathBuf::from("abc"));

    let sk_git = SourceKind::Git(String::from("def"));
    assert_eq!(PathBuf::from(sk_git.inner()), PathBuf::from("def"));
}

#[test]
fn crate_name_git_some() {
    let toml_path = ".cargo/git/checkouts/home-fb9469891e5cfbe6/3a6eccd/Cargo.toml";
    let cargo_home = ".cargo/";

    let name = find_crate_name_git(toml_path, cargo_home);

    assert!(matches!(name, Some(SourceKind::Git(_))));
    assert_eq!(
        path_of(name.unwrap()),
        PathBuf::from(".cargo/git/checkouts/home-fb9469891e5cfbe6/3a6eccd/"),
    );
}

#[test]
fn crate_name_git_none() {
    // pare failure should return None
    let toml_path = ".cargo/git/failuretoparse/home-fb9469891e5cfbe6/3a6eccd/Cargo.toml";
    let cargo_home = ".cargo/";

    let name = find_crate_name_git(toml_path, cargo_home);

    assert_eq!(name, None);
}

#[test]
fn crate_name_crate_some() {
    let toml_path = ".cargo/registry/src/github.com-1ecc6299db9ec823/winapi-0.3.8/Cargo.toml";
    let cargo_home = ".cargo/";

    let name = find_crate_name_crate(toml_path, cargo_home);

    assert!(matches!(name, Some(SourceKind::Crate(_))));
    assert_eq!(
        path_of(name.unwrap()),
        PathBuf::from(".cargo/registry/src/github.com-1ecc6299db9ec823/winapi-0.3.8/"),
    );
}

#[test]
fn crate_name_crate_none() {
    // parse failure should return None
    let toml_path = ".cargo/AAAAAAHH/src/github.com-1ecc6299db9ec823/winapi-0.3.8/Cargo.toml";
    let cargo_home = ".cargo/";

    let name = find_crate_name_crate(toml_path, cargo_home);

    assert_eq!(name, None,);
}

fn home() -> CargoCachePaths {
    CargoCachePaths::from_cargo_home("/home/u/.cargo")
}

#[test]
fn manifests_map_to_archives_and_repos() {
    let paths = home();
    match manifest_source_of("/home/u/.cargo/registry/src/github.com-1ecc6299db9ec823/semver-0.9.0/Cargo.toml", &paths) {
        Ok(Some(SourceKind::Crate(p))) => assert_eq!(
            Path::new(&p),
            Path::new("/home/u/.cargo/registry/cache/github.com-1ecc6299db9ec823/semver-0.9.0.crate")
        ),
        _ => panic!("expected an archive"),
    }
    match manifest_source_of("/home/u/.cargo/git/checkouts/cargo-e7ff1db891893a9e/258c896/Cargo.toml", &paths) {
        Ok(Some(SourceKind::Git(p))) => {
            assert_eq!(Path::new(&p), Path::new("/home/u/.cargo/git/db/cargo-e7ff1db891893a9e"))
        }
        _ => panic!("expected a bare repository"),
    }
    assert!(matches!(manifest_source_of("/home/u/project/Cargo.toml", &paths), Ok(None)));
    assert_eq!(
        manifest_source_of("/home/u/.cargo/other/Cargo.toml", &paths).err().unwrap(),
        "Failed to parse toml path: '/home/u/.cargo/other/Cargo.toml'"
    );
}

#[test]
fn clean_unref_keeps_only_what_is_needed() {
    let paths = home();
    let manifests = vec![
        String::from("/home/u/project/Cargo.toml"),
        String::from("/home/u/.cargo/registry/src/reg-1/semver-0.9.0/Cargo.toml"),
        String::from("/home/u/.cargo/git/checkouts/cargo-e7ff/258c896/Cargo.toml"),
    ];
    let bare = vec![String::from("/home/u/.cargo/git/db/cargo-e7ff"), String::from("/home/u/.cargo/git/db/other-1234")];
    let crates = vec![
        String::from("/home/u/.cargo/registry/cache/reg-1/semver-0.9.0.crate"),
        String::from("/home/u/.cargo/registry/cache/reg-1/rand-0.8.0.crate"),
    ];
    let plan = clean_unref(&paths, &manifests, &bare, &vec![10, 20], &crates, &vec![30, 40], 1000, 2000, false);
    assert!(plan.failure.is_none());
    let removed: Vec<&str> = plan.removals.iter().map(|r| r.path.as_str()).collect();
    assert_eq!(
        removed,
        vec![
            "/home/u/.cargo/git/checkouts",
            "/home/u/.cargo/registry/src",
            "/home/u/.cargo/git/db/other-1234",
            "/home/u/.cargo/registry/cache/reg-1/rand-0.8.0.crate",
        ]
    );
    assert!(plan.removals.iter().all(|r| r.delete && r.message.is_none()));
}

#[test]
fn clean_unref_dry_run_names_sizes() {
    let paths = home();
    let plan = clean_unref(&paths, &vec![], &vec![String::from("/home/u/.cargo/git/db/x")], &vec![1500], &vec![], &vec![], 0, 0, true);
    assert_eq!(plan.removals.len(), 3);
    assert!(plan.removals.iter().all(|r| !r.delete));
    assert_eq!(plan.removals[2].message.as_deref(), Some("dry-run: would remove: '/home/u/.cargo/git/db/x' (1.50 KB)"));
}

#[test]
fn clean_unref_stops_on_unplaceable_manifest() {
    let paths = home();
    let manifests = vec![String::from("/home/u/.cargo/elsewhere/Cargo.toml")];
    let plan = clean_unref(&paths, &manifests, &vec![String::from("/home/u/.cargo/git/db/x")], &vec![1], &vec![], &vec![], 0, 0, false);
    assert_eq!(plan.removals.len(), 2);
    assert_eq!(plan.failure.unwrap(), "Failed to parse toml path: '/home/u/.cargo/elsewhere/Cargo.toml'");
}
