//! The errors of the crate, the removable parts of the cache, and the paths of a cache.
use vstd::prelude::*;

use crate::paths::{join_path, path_join, split_chars, split_on};
use crate::text::{chars_of, join_strings, join_with, push_str, str_equals, string_of, trim, trimmed};

verus! {

/// The errors the crate reports; paths and outside errors are held as their text.
pub enum Error {
    /// A git repository could not be opened.
    GitRepoNotOpened(String),
    /// A directory expected to be a git repository was not found.
    GitRepoDirNotFound(String),
    /// `git gc` failed (path, error).
    GitGCFailed(String, String),
    /// `git pack-refs` failed (path, error).
    GitPackRefsFailed(String, String),
    /// `git reflog` failed (path, error).
    GitReflogFailed(String, String),
    /// `git fsck` failed (path, error).
    GitFsckFailed(String, String),
    /// `git repack` failed (path, error).
    GitRepackFailed(String, String),
    /// The `git` binary is missing.
    GitNotInstalled,
    /// A package name inside the cache did not parse.
    MalformedPackageName(String),
    /// The cargo home directory could not be found.
    GetCargoHomeFailed,
    /// The cargo home exists but is not a directory.
    CargoHomeNotDirectory(String),
    /// Some arguments of `--remove-dir` were not recognized.
    InvalidDeletableDirs(String),
    /// `--remove-dir` got no argument.
    RemoveDirNoArg,
    /// The current working directory could not be found.
    NoCWD,
    /// No `Cargo.toml` was found.
    NoCargoManifest(String),
    /// A query regular expression did not parse.
    QueryRegexFailedParsing(String),
    /// `git gc` was asked to run on a file.
    GitGCFile(String),
    /// The `target` directory to inspect does not exist.
    LocalNoTargetDir(String),
    /// A date did not parse (date, reason).
    DateParseFailure(String, String),
    /// A manifest did not parse (path, error).
    UnparsableManifest(String, String),
    /// The sccache cache directory could not be found.
    NoSccacheDir,
    /// The rustup home could not be found.
    NoRustupHome,
    /// A size limit did not parse.
    TrimLimitUnitParseFailure(String),
}

/// The groups `--remove-dir` accepts, as its error messages list them.
pub open spec fn valid_deletable_dirs() -> Seq<char> {
    "git-db,git-repos,registry-sources,registry-crate-cache,registry-index,registry,all"@
}

/// The message of an error, as it is printed.
pub open spec fn error_message(e: Error) -> Seq<char> {
    match e {
        Error::GitRepoNotOpened(p) => "Failed to open git repository at \""@ + p@ + "\""@,
        Error::GitRepoDirNotFound(p) => "Git repo \""@ + p@ + "\" not found"@,
        Error::GitGCFailed(p, err) => "Failed to git gc repository \""@ + p@ + "\":\n"@ + err@,
        Error::GitPackRefsFailed(p, err) => "Failed to git pack-refs repository \""@ + p@ + "\":\n"@ + err@,
        Error::GitReflogFailed(p, err) => "Failed to git reflog repository \""@ + p@ + "\":\n"@ + err@,
        Error::GitFsckFailed(p, err) => "Failed to git fsck repository \""@ + p@ + "\":\n"@ + err@,
        Error::GitRepackFailed(p, err) => "Failed to git repack repository \""@ + p@ + "\":\n"@ + err@,
        Error::GitNotInstalled => "Could not find 'git' binary. Is 'git' installed?"@,
        Error::MalformedPackageName(name) => "Error:  \""@ + name@ + "\" is not a valid package name"@,
        Error::GetCargoHomeFailed => "Failed to get CARGO_HOME!"@,
        Error::CargoHomeNotDirectory(p) => "CARGO_HOME \""@ + p@ + "\" is not an existing directory!"@,
        Error::InvalidDeletableDirs(dirs) => "\""@ + dirs@
            + "\" are not valid removable directories! Chose one or several from "@
            + valid_deletable_dirs(),
        Error::RemoveDirNoArg => "No argument passed to \"--remove-dir\"! Chose one or several from "@
            + valid_deletable_dirs(),
        Error::NoCWD => "Failed to find current working directory!"@,
        Error::NoCargoManifest(dir) => "Failed to Cargo.toml manifest in "@ + dir@ + " or downwards."@,
        Error::QueryRegexFailedParsing(regex) => "Failed to parse regular expression \""@ + regex@ + "\""@,
        Error::GitGCFile(p) => "Tried to \"git gc\" a file instead of a directory: \""@ + p@ + "\""@,
        Error::LocalNoTargetDir(p) =>
            "error: \"local\" subcommand tried to read \"target\" directory that does not exist: \""@
                + p@ + "\""@,
        Error::DateParseFailure(date, err) => "ERROR failed to parse "@ + date@ + " as date "@ + err@,
        Error::UnparsableManifest(p, err) => "Failed to parse Cargo.toml at '"@ + p@ + "': '"@ + err@ + "'"@,
        Error::NoSccacheDir =>
            "Could not find sccache cache directory at ~/.cache/sccache or ${SCCACHE_DIR}"@,
        Error::NoRustupHome => "Failed to determine rustup home directory"@,
        Error::TrimLimitUnitParseFailure(limit) => "Failed to parse limit: \""@ + limit@
            + "\". Should be of the form 123X where X is one of B,K,M,G or T."@,
    }
}

impl Error {
    /// The message of the error, as it is printed.
    pub fn message(&self) -> (r: String)
        ensures
            r@ == error_message(*self),
    {
        let mut r = String::new();
        match self {
            Error::GitRepoNotOpened(p) => {
                push_str(&mut r, "Failed to open git repository at \"");
                push_str(&mut r, p.as_str());
                push_str(&mut r, "\"");
            },
            Error::GitRepoDirNotFound(p) => {
                push_str(&mut r, "Git repo \"");
                push_str(&mut r, p.as_str());
                push_str(&mut r, "\" not found");
            },
            Error::GitGCFailed(p, err) => {
                push_str(&mut r, "Failed to git gc repository \"");
                push_str(&mut r, p.as_str());
                push_str(&mut r, "\":\n");
                push_str(&mut r, err.as_str());
            },
            Error::GitPackRefsFailed(p, err) => {
                push_str(&mut r, "Failed to git pack-refs repository \"");
                push_str(&mut r, p.as_str());
                push_str(&mut r, "\":\n");
                push_str(&mut r, err.as_str());
            },
            Error::GitReflogFailed(p, err) => {
                push_str(&mut r, "Failed to git reflog repository \"");
                push_str(&mut r, p.as_str());
                push_str(&mut r, "\":\n");
                push_str(&mut r, err.as_str());
            },
            Error::GitFsckFailed(p, err) => {
                push_str(&mut r, "Failed to git fsck repository \"");
                push_str(&mut r, p.as_str());
                push_str(&mut r, "\":\n");
                push_str(&mut r, err.as_str());
            },
            Error::GitRepackFailed(p, err) => {
                push_str(&mut r, "Failed to git repack repository \"");
                push_str(&mut r, p.as_str());
                push_str(&mut r, "\":\n");
                push_str(&mut r, err.as_str());
            },
            Error::GitNotInstalled => {
                push_str(&mut r, "Could not find 'git' binary. Is 'git' installed?");
            },
            Error::MalformedPackageName(name) => {
                push_str(&mut r, "Error:  \"");
                push_str(&mut r, name.as_str());
                push_str(&mut r, "\" is not a valid package name");
            },
            Error::GetCargoHomeFailed => {
                push_str(&mut r, "Failed to get CARGO_HOME!");
            },
            Error::CargoHomeNotDirectory(p) => {
                push_str(&mut r, "CARGO_HOME \"");
                push_str(&mut r, p.as_str());
                push_str(&mut r, "\" is not an existing directory!");
            },
            Error::InvalidDeletableDirs(dirs) => {
                push_str(&mut r, "\"");
                push_str(&mut r, dirs.as_str());
                push_str(&mut r, "\" are not valid removable directories! Chose one or several from ");
                push_str(&mut r, "git-db,git-repos,registry-sources,registry-crate-cache,registry-index,registry,all");
            },
            Error::RemoveDirNoArg => {
                push_str(&mut r, "No argument passed to \"--remove-dir\"! Chose one or several from ");
                push_str(&mut r, "git-db,git-repos,registry-sources,registry-crate-cache,registry-index,registry,all");
            },
            Error::NoCWD => {
                push_str(&mut r, "Failed to find current working directory!");
            },
            Error::NoCargoManifest(dir) => {
                push_str(&mut r, "Failed to Cargo.toml manifest in ");
                push_str(&mut r, dir.as_str());
                push_str(&mut r, " or downwards.");
            },
            Error::QueryRegexFailedParsing(regex) => {
                push_str(&mut r, "Failed to parse regular expression \"");
                push_str(&mut r, regex.as_str());
                push_str(&mut r, "\"");
            },
            Error::GitGCFile(p) => {
                push_str(&mut r, "Tried to \"git gc\" a file instead of a directory: \"");
                push_str(&mut r, p.as_str());
                push_str(&mut r, "\"");
            },
            Error::LocalNoTargetDir(p) => {
                push_str(
                    &mut r,
                    "error: \"local\" subcommand tried to read \"target\" directory that does not exist: \"",
                );
                push_str(&mut r, p.as_str());
                push_str(&mut r, "\"");
            },
            Error::DateParseFailure(date, err) => {
                push_str(&mut r, "ERROR failed to parse ");
                push_str(&mut r, date.as_str());
                push_str(&mut r, " as date ");
                push_str(&mut r, err.as_str());
            },
            Error::UnparsableManifest(p, err) => {
                push_str(&mut r, "Failed to parse Cargo.toml at '");
                push_str(&mut r, p.as_str());
                push_str(&mut r, "': '");
                push_str(&mut r, err.as_str());
                push_str(&mut r, "'");
            },
            Error::NoSccacheDir => {
                push_str(
                    &mut r,
                    "Could not find sccache cache directory at ~/.cache/sccache or ${SCCACHE_DIR}",
                );
            },
            Error::NoRustupHome => {
                push_str(&mut r, "Failed to determine rustup home directory");
            },
            Error::TrimLimitUnitParseFailure(limit) => {
                push_str(&mut r, "Failed to parse limit: \"");
                push_str(&mut r, limit.as_str());
                push_str(&mut r, "\". Should be of the form 123X where X is one of B,K,M,G or T.");
            },
        }
        r
    }
}

/// What `--remove-dir` can be asked to remove.
#[derive(PartialEq, Eq, Structural, Clone, Copy, Debug)]
pub enum RemovableGroup {
    All,
    GitDB,
    GitRepos,
    RegistrySources,
    RegistryCrateCache,
    RegistryIndex,
    Registry,
}

/// The group a name stands for.
pub open spec fn group_named(s: Seq<char>) -> Option<RemovableGroup> {
    if s == "all"@ {
        Some(RemovableGroup::All)
    } else if s == "git-db"@ {
        Some(RemovableGroup::GitDB)
    } else if s == "git-repos"@ {
        Some(RemovableGroup::GitRepos)
    } else if s == "registry-sources"@ {
        Some(RemovableGroup::RegistrySources)
    } else if s == "registry-crate-cache"@ {
        Some(RemovableGroup::RegistryCrateCache)
    } else if s == "registry-index"@ {
        Some(RemovableGroup::RegistryIndex)
    } else if s == "registry"@ {
        Some(RemovableGroup::Registry)
    } else {
        None
    }
}

/// The group a name stands for, or the name itself when it names none.
pub fn parse_group(s: &str) -> (r: Result<RemovableGroup, String>)
    ensures
        match r {
            Ok(g) => group_named(s@) == Some(g),
            Err(e) => group_named(s@) is None && e@ == s@,
        },
{
    if str_equals(s, "all") {
        Ok(RemovableGroup::All)
    } else if str_equals(s, "git-db") {
        Ok(RemovableGroup::GitDB)
    } else if str_equals(s, "git-repos") {
        Ok(RemovableGroup::GitRepos)
    } else if str_equals(s, "registry-sources") {
        Ok(RemovableGroup::RegistrySources)
    } else if str_equals(s, "registry-crate-cache") {
        Ok(RemovableGroup::RegistryCrateCache)
    } else if str_equals(s, "registry-index") {
        Ok(RemovableGroup::RegistryIndex)
    } else if str_equals(s, "registry") {
        Ok(RemovableGroup::Registry)
    } else {
        let mut other = String::new();
        push_str(&mut other, s);
        Err(other)
    }
}

impl std::str::FromStr for RemovableGroup {
    type Err = String;

    fn from_str(s: &str) -> (r: Result<Self, String>)
        ensures
            match r {
                Ok(g) => group_named(s@) == Some(g),
                Err(e) => group_named(s@) is None && e@ == s@,
            },
    {
        parse_group(s)
    }
}

/// The directories of the cache that can be removed, in the order in which they are removed.
#[derive(PartialEq, Eq, Structural, Clone, Copy, Debug)]
pub enum Component {
    /// `git/db`
    GitDB,
    /// `git/checkouts`
    GitRepos,
    /// `registry/src`
    RegistrySources,
    /// `registry/cache`
    RegistryCrateCache,
    /// `registry/index`
    RegistryIndex,
}

/// Whether removing `g` removes the directory `c`: the git database takes its checkouts along,
/// and removing archives takes the sources extracted from them along.
pub open spec fn group_covers(g: RemovableGroup, c: Component) -> bool {
    match g {
        RemovableGroup::All => true,
        RemovableGroup::GitDB => c == Component::GitDB || c == Component::GitRepos,
        RemovableGroup::GitRepos => c == Component::GitRepos,
        RemovableGroup::RegistrySources => c == Component::RegistrySources,
        RemovableGroup::RegistryCrateCache => c == Component::RegistrySources || c
            == Component::RegistryCrateCache,
        RemovableGroup::RegistryIndex => c == Component::RegistryIndex,
        RemovableGroup::Registry => c == Component::RegistrySources || c
            == Component::RegistryCrateCache,
    }
}

/// Whether some named group covers `c`.
pub open spec fn names_cover(names: Seq<Seq<char>>, c: Component) -> bool {
    exists|k: int| 0 <= k < names.len() && group_named(#[trigger] names[k]) is Some && group_covers(group_named(names[k])->0, c)
}

/// The names that name no group, in order.
pub open spec fn unknown_names(names: Seq<Seq<char>>) -> Seq<Seq<char>>
    decreases names.len(),
{
    if names.len() == 0 {
        seq![]
    } else if group_named(names.last()) is None {
        unknown_names(names.drop_last()).push(names.last())
    } else {
        unknown_names(names.drop_last())
    }
}

/// All directories in the order in which they are removed.
pub open spec fn all_components() -> Seq<Component> {
    seq![
        Component::GitDB,
        Component::GitRepos,
        Component::RegistrySources,
        Component::RegistryCrateCache,
        Component::RegistryIndex,
    ]
}

/// `c` alone when the names cover it, else nothing.
pub open spec fn pick(names: Seq<Seq<char>>, c: Component) -> Seq<Component> {
    if names_cover(names, c) {
        seq![c]
    } else {
        seq![]
    }
}

/// The directories the names cover, each once and in removal order.
pub open spec fn covered_components(names: Seq<Seq<char>>) -> Seq<Component> {
    pick(names, Component::GitDB) + pick(names, Component::GitRepos) + pick(
        names,
        Component::RegistrySources,
    ) + pick(names, Component::RegistryCrateCache) + pick(names, Component::RegistryIndex)
}

/// What `--remove-dir` was given, read: nothing, names of no group (their text), or the
/// directories to remove.
pub enum RemoveDirArgs {
    NoArg,
    Invalid(Seq<char>),
    Selected(Seq<Component>),
}

/// The reading of the comma-separated groups in `input`: the unknown names joined by spaces and
/// trimmed when there are any, else the directories the groups cover.
pub open spec fn components_of(input: Option<Seq<char>>) -> RemoveDirArgs {
    match input {
        None => RemoveDirArgs::NoArg,
        Some(s) => {
            let names = split_on(s, ',');
            let unknown = unknown_names(names);
            if unknown.len() > 0 {
                RemoveDirArgs::Invalid(trim(join_with(unknown, " "@)))
            } else {
                RemoveDirArgs::Selected(covered_components(names))
            }
        },
    }
}

/// The text of an optional string.
pub open spec fn opt_str_view(input: Option<&str>) -> Option<Seq<char>> {
    match input {
        Some(s) => Some(s@),
        None => None,
    }
}

/// Maps the comma-separated groups of `input` to the directories they cover, each once and in
/// removal order.
pub fn components_from_groups(input: Option<&str>) -> (r: Result<Vec<Component>, Error>)
    ensures
        match r {
            Ok(cs) => components_of(opt_str_view(input)) == RemoveDirArgs::Selected(cs@),
            Err(Error::InvalidDeletableDirs(text)) => components_of(opt_str_view(input))
                == RemoveDirArgs::Invalid(text@),
            Err(e) => components_of(opt_str_view(input)) == RemoveDirArgs::NoArg && e
                == Error::RemoveDirNoArg,
        },
{
    let input_string = match input {
        Some(value) => value,
        None => return Err(Error::RemoveDirNoArg),
    };
    let cs = chars_of(input_string);
    let pieces = split_chars(&cs, ',');
    let ghost names = pieces@.map_values(|p: Vec<char>| p@);
    let mut unknown: Vec<String> = Vec::new();
    let mut covered: Vec<bool> = vec![false, false, false, false, false];
    let mut i: usize = 0;
    while i < pieces.len()
        invariant
            i <= pieces.len(),
            names == pieces@.map_values(|p: Vec<char>| p@),
            covered@.len() == 5,
            unknown@.map_values(|u: String| u@) == unknown_names(names.take(i as int)),
            forall|k: int| 0 <= k < 5 ==> #[trigger] covered@[k] == names_cover(names.take(i as int), all_components()[k]),
        decreases pieces.len() - i,
    {
        let ghost t = names.take(i + 1);
        assert(t.drop_last() =~= names.take(i as int));
        assert(t.last() == pieces@[i as int]@);
        let piece = string_of(&pieces[i]);
        assert(t[i as int] == piece@);
        match parse_group(piece.as_str()) {
            Ok(g) => {
                let flags = group_flags(g);
                let mut k: usize = 0;
                while k < 5
                    invariant
                        k <= 5,
                        i < pieces.len(),
                        names == pieces@.map_values(|p: Vec<char>| p@),
                        t == names.take(i + 1),
                        t.len() == i + 1,
                        t[i as int] == piece@,
                        group_named(piece@) == Some(g),
                        covered@.len() == 5,
                        flags@.len() == 5,
                        forall|q: int| 0 <= q < 5 ==> #[trigger] flags@[q] == group_covers(g, all_components()[q]),
                        forall|q: int| 0 <= q < k ==> #[trigger] covered@[q] == names_cover(t, all_components()[q]),
                        forall|q: int| k <= q < 5 ==> #[trigger] covered@[q] == names_cover(names.take(i as int), all_components()[q]),
                    decreases 5 - k,
                {
                    let c = all_components_at(k);
                    proof {
                        let cq = all_components()[k as int];
                        if names_cover(names.take(i as int), cq) {
                            let w = choose|w: int| 0 <= w < names.take(i as int).len() && group_named(#[trigger] names.take(i as int)[w]) is Some && group_covers(group_named(names.take(i as int)[w])->0, cq);
                            assert(t[w] == names.take(i as int)[w]);
                        }
                        if group_covers(g, cq) {
                            assert(t[i as int] == piece@);
                        }
                        if names_cover(t, cq) && !group_covers(g, cq) {
                            let w = choose|w: int| 0 <= w < t.len() && group_named(#[trigger] t[w]) is Some && group_covers(group_named(t[w])->0, cq);
                            if w < i {
                                assert(names.take(i as int)[w] == t[w]);
                            }
                        }
                    }
                    let now = covered[k] || flags[k];
                    covered.set(k, now);
                    k = k + 1;
                }
                assert(unknown_names(t) =~= unknown_names(names.take(i as int)));
            },
            Err(name) => {
                let ghost before = unknown@.map_values(|u: String| u@);
                unknown.push(name);
                assert(unknown@.map_values(|u: String| u@) =~= before.push(piece@));
                assert forall|q: int| 0 <= q < 5 implies #[trigger] covered@[q] == names_cover(t, all_components()[q]) by {
                    let cq = all_components()[q];
                    if names_cover(names.take(i as int), cq) {
                        let w = choose|w: int| 0 <= w < names.take(i as int).len() && group_named(#[trigger] names.take(i as int)[w]) is Some && group_covers(group_named(names.take(i as int)[w])->0, cq);
                        assert(t[w] == names.take(i as int)[w]);
                    }
                    if names_cover(t, cq) {
                        let w = choose|w: int| 0 <= w < t.len() && group_named(#[trigger] t[w]) is Some && group_covers(group_named(t[w])->0, cq);
                        if w < i {
                            assert(names.take(i as int)[w] == t[w]);
                        } else {
                            assert(t[w] == piece@);
                        }
                    }
                }
            },
        }
        i = i + 1;
    }
    assert(names.take(pieces.len() as int) =~= names);
    assert(names == split_on(input_string@, ','));
    if unknown.len() > 0 {
        let joined = join_strings(&unknown, " ");
        let jc = chars_of(joined.as_str());
        let text = string_of(&trimmed(&jc));
        proof {
            reveal_strlit(" ");
        }
        return Err(Error::InvalidDeletableDirs(text));
    }
    let mut out: Vec<Component> = Vec::new();
    if covered[0] {
        out.push(Component::GitDB);
    }
    if covered[1] {
        out.push(Component::GitRepos);
    }
    if covered[2] {
        out.push(Component::RegistrySources);
    }
    if covered[3] {
        out.push(Component::RegistryCrateCache);
    }
    if covered[4] {
        out.push(Component::RegistryIndex);
    }
    assert(out@ =~= covered_components(names));
    Ok(out)
}

/// The directory at position `k` of the removal order.
fn all_components_at(k: usize) -> (c: Component)
    requires
        k < 5,
    ensures
        c == all_components()[k as int],
{
    if k == 0 {
        Component::GitDB
    } else if k == 1 {
        Component::GitRepos
    } else if k == 2 {
        Component::RegistrySources
    } else if k == 3 {
        Component::RegistryCrateCache
    } else {
        Component::RegistryIndex
    }
}

/// Which directories, in removal order, a group covers.
fn group_flags(g: RemovableGroup) -> (f: Vec<bool>)
    ensures
        f@.len() == 5,
        forall|q: int| 0 <= q < 5 ==> #[trigger] f@[q] == group_covers(g, all_components()[q]),
{
    let mut f: Vec<bool> = Vec::new();
    let mut k: usize = 0;
    while k < 5
        invariant
            k <= 5,
            f@.len() == k,
            forall|q: int| 0 <= q < k ==> #[trigger] f@[q] == group_covers(g, all_components()[q]),
        decreases 5 - k,
    {
        let c = all_components_at(k);
        let covers = match g {
            RemovableGroup::All => true,
            RemovableGroup::GitDB => c == Component::GitDB || c == Component::GitRepos,
            RemovableGroup::GitRepos => c == Component::GitRepos,
            RemovableGroup::RegistrySources => c == Component::RegistrySources,
            RemovableGroup::RegistryCrateCache => c == Component::RegistrySources || c
                == Component::RegistryCrateCache,
            RemovableGroup::RegistryIndex => c == Component::RegistryIndex,
            RemovableGroup::Registry => c == Component::RegistrySources || c
                == Component::RegistryCrateCache,
        };
        f.push(covers);
        k = k + 1;
    }
    f
}

/// The paths of the parts of a cargo cache.
pub struct CargoCachePaths {
    /// The cargo home.
    pub cargo_home: String,
    /// Where `cargo install` puts binaries.
    pub bin_dir: String,
    /// Where registries are stored.
    pub registry: String,
    /// Where registry archives (`.crate` files) are stored.
    pub registry_pkg_cache: String,
    /// Where registry sources are extracted.
    pub registry_sources: String,
    /// Where registry indices are stored.
    pub registry_index: String,
    /// Where bare git repositories are stored.
    pub git_repos_bare: String,
    /// Where git repositories are checked out.
    pub git_checkouts: String,
}

/// The mathematical content of a `CargoCachePaths`.
pub struct CargoCachePathsView {
    pub cargo_home: Seq<char>,
    pub bin_dir: Seq<char>,
    pub registry: Seq<char>,
    pub registry_pkg_cache: Seq<char>,
    pub registry_sources: Seq<char>,
    pub registry_index: Seq<char>,
    pub git_repos_bare: Seq<char>,
    pub git_checkouts: Seq<char>,
}

impl View for CargoCachePaths {
    type V = CargoCachePathsView;

    open spec fn view(&self) -> CargoCachePathsView {
        CargoCachePathsView {
            cargo_home: self.cargo_home@,
            bin_dir: self.bin_dir@,
            registry: self.registry@,
            registry_pkg_cache: self.registry_pkg_cache@,
            registry_sources: self.registry_sources@,
            registry_index: self.registry_index@,
            git_repos_bare: self.git_repos_bare@,
            git_checkouts: self.git_checkouts@,
        }
    }
}

/// The paths of a cache whose cargo home is `home`.
pub open spec fn cache_paths(home: Seq<char>) -> CargoCachePathsView {
    let registry = path_join(home, "registry"@);
    let git = path_join(home, "git"@);
    CargoCachePathsView {
        cargo_home: home,
        bin_dir: path_join(home, "bin"@),
        registry,
        registry_pkg_cache: path_join(registry, "cache"@),
        registry_sources: path_join(registry, "src"@),
        registry_index: path_join(registry, "index"@),
        git_repos_bare: path_join(git, "db"@),
        git_checkouts: path_join(git, "checkouts"@),
    }
}

impl CargoCachePaths {
    /// The paths of the cache whose cargo home is `cargo_home`.
    pub fn from_cargo_home(cargo_home: &str) -> (c: CargoCachePaths)
        ensures
            c@ == cache_paths(cargo_home@),
    {
        let registry = join_path(cargo_home, "registry");
        let git = join_path(cargo_home, "git");
        let mut home = String::new();
        push_str(&mut home, cargo_home);
        CargoCachePaths {
            cargo_home: home,
            bin_dir: join_path(cargo_home, "bin"),
            registry_pkg_cache: join_path(registry.as_str(), "cache"),
            registry_sources: join_path(registry.as_str(), "src"),
            registry_index: join_path(registry.as_str(), "index"),
            registry,
            git_repos_bare: join_path(git.as_str(), "db"),
            git_checkouts: join_path(git.as_str(), "checkouts"),
        }
    }

    /// The paths of the cache in `dir` (`is_dir` tells whether `dir` is an existing directory).
    pub fn new(dir: &str, is_dir: bool) -> (r: Result<CargoCachePaths, Error>)
        ensures
            match r {
                Ok(c) => is_dir && c@ == cache_paths(dir@),
                Err(Error::CargoHomeNotDirectory(p)) => !is_dir && p@ == dir@,
                Err(_) => false,
            },
    {
        if !is_dir {
            let mut p = String::new();
            push_str(&mut p, dir);
            return Err(Error::CargoHomeNotDirectory(p));
        }
        Ok(CargoCachePaths::from_cargo_home(dir))
    }

    /// The paths of the cache at the cargo home that was found (`None` when none was), which must
    /// be an existing directory (`is_dir`).
    pub fn default(cargo_home: Option<&str>, is_dir: bool) -> (r: Result<CargoCachePaths, Error>)
        ensures
            match r {
                Ok(c) => cargo_home is Some && is_dir && c@ == cache_paths(cargo_home->0@),
                Err(Error::GetCargoHomeFailed) => cargo_home is None,
                Err(Error::CargoHomeNotDirectory(p)) => cargo_home is Some && !is_dir && p@ == cargo_home->0@,
                Err(_) => false,
            },
    {
        match cargo_home {
            None => Err(Error::GetCargoHomeFailed),
            Some(home) => CargoCachePaths::new(home, is_dir),
        }
    }

    /// The list of the cache's directories (`cargo cache --list-dirs`).
    pub fn to_string(&self) -> (r: String)
        ensures
            r@ == list_dirs_text(self@),
    {
        let mut r = String::new();
        push_str(&mut r, "\ncargo home:                 ");
        push_str(&mut r, self.cargo_home.as_str());
        push_str(&mut r, "\nbinaries directory:         ");
        push_str(&mut r, self.bin_dir.as_str());
        push_str(&mut r, "\nregistry directory:         ");
        push_str(&mut r, self.registry.as_str());
        push_str(&mut r, "\nregistry index:             ");
        push_str(&mut r, self.registry_index.as_str());
        push_str(&mut r, "\ncrate source archives:      ");
        push_str(&mut r, self.registry_pkg_cache.as_str());
        push_str(&mut r, "\nunpacked crate sources:     ");
        push_str(&mut r, self.registry_sources.as_str());
        push_str(&mut r, "\nbare git repos:             ");
        push_str(&mut r, self.git_repos_bare.as_str());
        push_str(&mut r, "\ngit repo checkouts:         ");
        push_str(&mut r, self.git_checkouts.as_str());
        push_str(&mut r, "\n");
        r
    }
}

/// The list of a cache's directories, one per line after an empty line.
pub open spec fn list_dirs_text(c: CargoCachePathsView) -> Seq<char> {
    "\ncargo home:                 "@ + c.cargo_home + "\nbinaries directory:         "@ + c.bin_dir
        + "\nregistry directory:         "@ + c.registry + "\nregistry index:             "@
        + c.registry_index + "\ncrate source archives:      "@ + c.registry_pkg_cache
        + "\nunpacked crate sources:     "@ + c.registry_sources + "\nbare git repos:             "@
        + c.git_repos_bare + "\ngit repo checkouts:         "@ + c.git_checkouts + "\n"@
}

} // verus!
