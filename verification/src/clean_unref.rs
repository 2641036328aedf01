//! Removing what a project does not reference: every git checkout and extracted source goes, and
//! of the bare repositories and crate archives only those the project's dependencies use stay.
use vstd::prelude::*;

use crate::library::{CargoCachePaths, CargoCachePathsView};
use crate::paths::{
    components, first_index, is_same_path, join_all, join_path, joined, path_components, path_join,
    path_starts_with, position_of, same_path, starts_with_path, str_views,
};
use crate::remove::{remove_file, removal_message, DryRunMessage, FileRemoval};
use crate::text::{push_str, string_of, chars_of};

verus! {

/// Where the source of a dependency lies inside the cargo home: an extracted crate or a git
/// checkout.
#[derive(Debug, PartialEq, Eq)]
pub enum SourceKind {
    Crate(String),
    Git(String),
}

/// The path a `SourceKind` holds.
pub open spec fn kind_path(k: SourceKind) -> Seq<char> {
    match k {
        SourceKind::Crate(p) => p@,
        SourceKind::Git(p) => p@,
    }
}

impl SourceKind {
    /// The path it holds.
    pub fn inner(self) -> (p: String)
        ensures
            p@ == kind_path(self),
    {
        match self {
            SourceKind::Crate(p) => p,
            SourceKind::Git(p) => p,
        }
    }
}

/// The manifest path has, around its first `checkouts` component, the one before it and the two
/// after it.
pub open spec fn git_source_fits(toml: Seq<char>) -> bool {
    match first_index(components(toml), "checkouts"@) {
        Some(p) => 1 <= p && p + 3 <= components(toml).len(),
        None => true,
    }
}

/// The checkout a manifest inside `git/checkouts` belongs to: the cargo home with the component
/// before the first `checkouts`, `checkouts` itself, the repository and the revision pushed onto
/// it; nothing when there is no `checkouts` component.
pub open spec fn git_source(toml: Seq<char>, home: Seq<char>) -> Option<Seq<char>> {
    let cs = components(toml);
    match first_index(cs, "checkouts"@) {
        Some(p) => Some(joined(home, cs.subrange(p - 1, p + 3))),
        None => None,
    }
}

/// The manifest path has the three components after its first `registry` component.
pub open spec fn crate_source_fits(toml: Seq<char>) -> bool {
    match first_index(components(toml), "registry"@) {
        Some(p) => p + 4 <= components(toml).len(),
        None => true,
    }
}

/// The extracted crate a manifest inside `registry/src` belongs to: the cargo home with the first
/// `registry` component and the three after it pushed onto it; nothing when there is no
/// `registry` component.
pub open spec fn crate_source(toml: Seq<char>, home: Seq<char>) -> Option<Seq<char>> {
    let cs = components(toml);
    match first_index(cs, "registry"@) {
        Some(p) => Some(joined(home, cs.subrange(p, p + 4))),
        None => None,
    }
}

/// The git checkout that the manifest at `toml_path` belongs to.
pub fn find_crate_name_git(toml_path: &str, cargo_home: &str) -> (r: Option<SourceKind>)
    requires
        git_source_fits(toml_path@),
    ensures
        match git_source(toml_path@, cargo_home@) {
            Some(p) => r matches Some(SourceKind::Git(s)) && s@ == p,
            None => r is None,
        },
{
    let v = path_components(toml_path);
    proof {
        assert(str_views(v@) == components(toml_path@));
    }
    match position_of(&v, "checkouts") {
        None => None,
        Some(p) => Some(SourceKind::Git(join_all(cargo_home, &v, p - 1, p + 3))),
    }
}

/// The extracted crate that the manifest at `toml_path` belongs to.
pub fn find_crate_name_crate(toml_path: &str, cargo_home: &str) -> (r: Option<SourceKind>)
    requires
        crate_source_fits(toml_path@),
    ensures
        match crate_source(toml_path@, cargo_home@) {
            Some(p) => r matches Some(SourceKind::Crate(s)) && s@ == p,
            None => r is None,
        },
{
    let v = path_components(toml_path);
    proof {
        assert(str_views(v@) == components(toml_path@));
    }
    match position_of(&v, "registry") {
        None => None,
        Some(p) => Some(SourceKind::Crate(join_all(cargo_home, &v, p, p + 4))),
    }
}

/// What a dependency's manifest tells about the cache.
pub enum SourceReading {
    /// The manifest is not inside the cargo home.
    Local,
    /// The dependency needs this crate archive.
    Archive(Seq<char>),
    /// The dependency needs this bare git repository.
    BareRepo(Seq<char>),
    /// The manifest cannot be placed; the text says why.
    Fails(Seq<char>),
}

/// The line reporting a manifest that cannot be placed.
pub open spec fn placement_failure(what: Seq<char>, toml: Seq<char>) -> Seq<char> {
    "Failed to find '"@ + what + "' in "@ + toml + " "@
}

/// The line reporting a manifest whose source has too few components.
pub open spec fn source_too_short(toml: Seq<char>) -> Seq<char> {
    "Failed to find the source of "@ + toml
}

/// What the manifest at `toml` tells: outside the cargo home it is local. Inside the git
/// checkouts it names the bare repository of its checkout (the second to last component of the
/// checkout's path, under the bare repositories); inside the extracted sources it names the
/// archive of its crate (`<registry>/<name>.crate` under the archives, from the last two
/// components of the crate's path). Anything else cannot be placed.
pub open spec fn manifest_source(toml: Seq<char>, c: CargoCachePathsView) -> SourceReading {
    let cs = components(toml);
    if !path_starts_with(toml, c.cargo_home) {
        SourceReading::Local
    } else if path_starts_with(toml, c.git_checkouts) {
        match first_index(cs, "checkouts"@) {
            None => SourceReading::Fails(placement_failure("checkouts"@, toml)),
            Some(p) => if 1 <= p && p + 3 <= cs.len() {
                let q = components(joined(c.cargo_home, cs.subrange(p - 1, p + 3)));
                if q.len() >= 2 {
                    SourceReading::BareRepo(path_join(c.git_repos_bare, q[q.len() - 2]))
                } else {
                    SourceReading::Fails(source_too_short(toml))
                }
            } else {
                SourceReading::Fails(source_too_short(toml))
            },
        }
    } else if path_starts_with(toml, c.registry_sources) {
        match first_index(cs, "registry"@) {
            None => SourceReading::Fails(placement_failure("registry"@, toml)),
            Some(p) => if p + 4 <= cs.len() {
                let q = components(joined(c.cargo_home, cs.subrange(p, p + 4)));
                if q.len() >= 2 {
                    SourceReading::Archive(
                        path_join(path_join(c.registry_pkg_cache, q[q.len() - 2]), q[q.len() - 1] + ".crate"@),
                    )
                } else {
                    SourceReading::Fails(source_too_short(toml))
                }
            } else {
                SourceReading::Fails(source_too_short(toml))
            },
        }
    } else {
        SourceReading::Fails("Failed to parse toml path: '"@ + toml + "'"@)
    }
}

fn failure_text(what: &str, toml: &str) -> (r: String)
    ensures
        r@ == placement_failure(what@, toml@),
{
    let mut s = String::new();
    push_str(&mut s, "Failed to find '");
    push_str(&mut s, what);
    push_str(&mut s, "' in ");
    push_str(&mut s, toml);
    push_str(&mut s, " ");
    s
}

fn too_short_text(toml: &str) -> (r: String)
    ensures
        r@ == source_too_short(toml@),
{
    let mut s = String::new();
    push_str(&mut s, "Failed to find the source of ");
    push_str(&mut s, toml);
    s
}

/// What the manifest at `toml` needs from the cache: `None` when it lies outside the cargo home,
/// the archive (`Crate`) or bare repository (`Git`) otherwise; the error says why it cannot be
/// placed.
pub fn manifest_source_of(toml: &str, paths: &CargoCachePaths) -> (r: Result<Option<SourceKind>, String>)
    ensures
        match manifest_source(toml@, paths@) {
            SourceReading::Local => r matches Ok(None),
            SourceReading::Archive(p) => r matches Ok(Some(SourceKind::Crate(s))) && s@ == p,
            SourceReading::BareRepo(p) => r matches Ok(Some(SourceKind::Git(s))) && s@ == p,
            SourceReading::Fails(m) => r matches Err(e) && e@ == m,
        },
{
    let cs = path_components(toml);
    proof {
        assert(str_views(cs@) == components(toml@));
    }
    if !starts_with_path(toml, paths.cargo_home.as_str()) {
        return Ok(None);
    }
    if starts_with_path(toml, paths.git_checkouts.as_str()) {
        match position_of(&cs, "checkouts") {
            None => Err(failure_text("checkouts", toml)),
            Some(p) => {
                if 1 <= p && cs.len() >= 3 && p <= cs.len() - 3 {
                    let found = find_crate_name_git(toml, paths.cargo_home.as_str());
                    let checkout = match found {
                        Some(k) => k.inner(),
                        None => {
                            assert(false);
                            return Err(too_short_text(toml));
                        },
                    };
                    let q = path_components(checkout.as_str());
                    proof {
                        assert(str_views(q@) == components(checkout@));
                    }
                    if q.len() >= 2 {
                        let repo = join_path(paths.git_repos_bare.as_str(), q[q.len() - 2].as_str());
                        assert(q@[q.len() - 2]@ == str_views(q@)[q.len() - 2]);
                        Ok(Some(SourceKind::Git(repo)))
                    } else {
                        Err(too_short_text(toml))
                    }
                } else {
                    Err(too_short_text(toml))
                }
            },
        }
    } else if starts_with_path(toml, paths.registry_sources.as_str()) {
        match position_of(&cs, "registry") {
            None => Err(failure_text("registry", toml)),
            Some(p) => {
                if cs.len() >= 4 && p <= cs.len() - 4 {
                    let found = find_crate_name_crate(toml, paths.cargo_home.as_str());
                    let source = match found {
                        Some(k) => k.inner(),
                        None => {
                            assert(false);
                            return Err(too_short_text(toml));
                        },
                    };
                    let q = path_components(source.as_str());
                    proof {
                        assert(str_views(q@) == components(source@));
                    }
                    if q.len() >= 2 {
                        let reg = join_path(paths.registry_pkg_cache.as_str(), q[q.len() - 2].as_str());
                        let mut file = string_of(&chars_of(q[q.len() - 1].as_str()));
                        push_str(&mut file, ".crate");
                        let archive = join_path(reg.as_str(), file.as_str());
                        assert(q@[q.len() - 2]@ == str_views(q@)[q.len() - 2]);
                        assert(q@[q.len() - 1]@ == str_views(q@)[q.len() - 1]);
                        Ok(Some(SourceKind::Crate(archive)))
                    } else {
                        Err(too_short_text(toml))
                    }
                } else {
                    Err(too_short_text(toml))
                }
            },
        }
    } else {
        let mut m = String::new();
        push_str(&mut m, "Failed to parse toml path: '");
        push_str(&mut m, toml);
        push_str(&mut m, "'");
        Err(m)
    }
}

} // verus!

verus! {

/// The first manifest that cannot be placed, if any, with its failure.
pub open spec fn first_failure(tomls: Seq<Seq<char>>, c: CargoCachePathsView) -> Option<(int, Seq<char>)>
    decreases tomls.len(),
{
    if tomls.len() == 0 {
        None
    } else {
        match first_failure(tomls.drop_last(), c) {
            Some(f) => Some(f),
            None => match manifest_source(tomls.last(), c) {
                SourceReading::Fails(m) => Some((tomls.len() - 1, m)),
                _ => None,
            },
        }
    }
}

/// The archives the manifests need, in order.
pub open spec fn needed_archives(tomls: Seq<Seq<char>>, c: CargoCachePathsView) -> Seq<Seq<char>>
    decreases tomls.len(),
{
    if tomls.len() == 0 {
        seq![]
    } else {
        match manifest_source(tomls.last(), c) {
            SourceReading::Archive(p) => needed_archives(tomls.drop_last(), c).push(p),
            _ => needed_archives(tomls.drop_last(), c),
        }
    }
}

/// The bare repositories the manifests need, in order.
pub open spec fn needed_repos(tomls: Seq<Seq<char>>, c: CargoCachePathsView) -> Seq<Seq<char>>
    decreases tomls.len(),
{
    if tomls.len() == 0 {
        seq![]
    } else {
        match manifest_source(tomls.last(), c) {
            SourceReading::BareRepo(p) => needed_repos(tomls.drop_last(), c).push(p),
            _ => needed_repos(tomls.drop_last(), c),
        }
    }
}

/// `p` is one of the paths of `needed`.
pub open spec fn referenced(p: Seq<char>, needed: Seq<Seq<char>>) -> bool {
    exists|k: int| 0 <= k < needed.len() && same_path(#[trigger] needed[k], p)
}

/// The positions of the items that no path of `needed` names, in order.
pub open spec fn unreferenced(items: Seq<Seq<char>>, needed: Seq<Seq<char>>) -> Seq<int>
    decreases items.len(),
{
    if items.len() == 0 {
        seq![]
    } else if referenced(items.last(), needed) {
        unreferenced(items.drop_last(), needed)
    } else {
        unreferenced(items.drop_last(), needed).push(items.len() - 1)
    }
}

/// `r` removes `path` with the default messages, naming its size in a dry run.
pub open spec fn is_sized_removal(r: FileRemoval, path: Seq<char>, dry_run: bool, size: u64) -> bool {
    &&& r.path@ == path
    &&& r.message.deep_view() == removal_message(path, dry_run, None, DryRunMessage::Default, Some(size))
    &&& r.delete == !dry_run
}

/// What cleaning against a project decides: the removals to carry out, in order, and, when a
/// manifest could not be placed, why the clean-up stops after the first two.
pub struct UnrefPlan {
    pub removals: Vec<FileRemoval>,
    pub failure: Option<String>,
}

fn is_needed(p: &str, needed: &Vec<String>) -> (r: bool)
    ensures
        r == referenced(p@, str_views(needed@)),
{
    let ghost v = str_views(needed@);
    let mut k: usize = 0;
    while k < needed.len()
        invariant
            k <= needed.len(),
            v == str_views(needed@),
            forall|j: int| 0 <= j < k ==> !same_path(#[trigger] v[j], p@),
        decreases needed.len() - k,
    {
        if is_same_path(needed[k].as_str(), p) {
            assert(same_path(v[k as int], p@));
            return true;
        }
        k = k + 1;
    }
    false
}

fn remove_unneeded(
    removals: &mut Vec<FileRemoval>,
    items: &Vec<String>,
    sizes: &Vec<u64>,
    needed: &Vec<String>,
    dry_run: bool,
)
    requires
        sizes.len() == items.len(),
    ensures
        final(removals)@.len() == old(removals)@.len() + unreferenced(str_views(items@), str_views(needed@)).len(),
        forall|k: int| 0 <= k < old(removals)@.len() ==> #[trigger] final(removals)@[k] == old(removals)@[k],
        forall|k: int| 0 <= k < unreferenced(str_views(items@), str_views(needed@)).len() ==> {
            let at = unreferenced(str_views(items@), str_views(needed@))[k];
            &&& 0 <= at < items.len()
            &&& is_sized_removal(
                #[trigger] final(removals)@[old(removals)@.len() + k],
                items@[at]@,
                dry_run,
                sizes@[at],
            )
        },
{
    let ghost iv = str_views(items@);
    let ghost nv = str_views(needed@);
    let ghost start = old(removals)@;
    let mut i: usize = 0;
    while i < items.len()
        invariant
            i <= items.len(),
            sizes.len() == items.len(),
            iv == str_views(items@),
            nv == str_views(needed@),
            removals@.len() == start.len() + unreferenced(iv.take(i as int), nv).len(),
            forall|k: int| 0 <= k < start.len() ==> #[trigger] removals@[k] == start[k],
            forall|k: int| 0 <= k < unreferenced(iv.take(i as int), nv).len() ==> is_sized_removal(
                #[trigger] removals@[start.len() + k],
                items@[unreferenced(iv.take(i as int), nv)[k]]@,
                dry_run,
                sizes@[unreferenced(iv.take(i as int), nv)[k]],
            ),
        decreases items.len() - i,
    {
        assert(iv.take(i + 1).drop_last() =~= iv.take(i as int));
        assert(iv.take(i + 1).last() == items@[i as int]@);
        let ghost u_old = unreferenced(iv.take(i as int), nv);
        if !is_needed(items[i].as_str(), needed) {
            let rm = remove_file(items[i].as_str(), dry_run, None, &DryRunMessage::Default, Some(sizes[i]));
            let none: Option<String> = None;
            assert(none.deep_view() == None::<Seq<char>>);
            assert(is_sized_removal(rm, items@[i as int]@, dry_run, sizes@[i as int]));
            let ghost before_rm = removals@;
            removals.push(rm);
            let ghost u_new = unreferenced(iv.take(i + 1), nv);
            assert(u_new == u_old.push(i as int));
            assert forall|k: int| 0 <= k < u_new.len() implies is_sized_removal(
                #[trigger] removals@[start.len() + k],
                items@[u_new[k]]@,
                dry_run,
                sizes@[u_new[k]],
            ) by {
                if k < u_old.len() {
                    assert(u_new[k] == u_old[k]);
                    assert(removals@[start.len() + k] == before_rm[start.len() + k]);
                } else {
                    assert(k == u_old.len());
                    assert(u_new[k] == i as int);
                    assert(removals@[start.len() + k] == rm);
                }
            }
            assert forall|k: int| 0 <= k < start.len() implies #[trigger] removals@[k] == start[k] by {
                assert(removals@[k] == before_rm[k]);
            }
        } else {
            assert(unreferenced(iv.take(i + 1), nv) == u_old);
        }
        i = i + 1;
    }
    assert(iv.take(items.len() as int) =~= iv);
    proof {
        lemma_unreferenced_bounds(iv, nv);
    }
}

/// The positions that `unreferenced` gives are positions of the items.
pub proof fn lemma_unreferenced_bounds(items: Seq<Seq<char>>, needed: Seq<Seq<char>>)
    ensures
        forall|k: int| 0 <= k < unreferenced(items, needed).len() ==> 0 <= #[trigger] unreferenced(items, needed)[k] < items.len(),
    decreases items.len(),
{
    if items.len() > 0 {
        let rest = items.drop_last();
        lemma_unreferenced_bounds(rest, needed);
        let u = unreferenced(items, needed);
        let u2 = unreferenced(rest, needed);
        assert forall|k: int| 0 <= k < u.len() implies 0 <= #[trigger] u[k] < items.len() by {
            if k < u2.len() {
                assert(u[k] == u2[k]);
            }
        }
    }
}

/// Decides the clean-up against a project whose dependencies have the manifests `manifests`:
/// the git checkouts and the extracted sources go as a whole (with the sizes given), then each
/// bare repository and each crate archive that no dependency needs (with its size). When a
/// manifest cannot be placed, only the first two removals are decided and the failure is given.
pub fn clean_unref(
    paths: &CargoCachePaths,
    manifests: &Vec<String>,
    bare_repos: &Vec<String>,
    bare_repo_sizes: &Vec<u64>,
    crate_archives: &Vec<String>,
    crate_archive_sizes: &Vec<u64>,
    checkouts_size: u64,
    sources_size: u64,
    dry_run: bool,
) -> (r: UnrefPlan)
    requires
        bare_repo_sizes.len() == bare_repos.len(),
        crate_archive_sizes.len() == crate_archives.len(),
    ensures
        ({
            let tomls = str_views(manifests@);
            let ur = unreferenced(str_views(bare_repos@), needed_repos(tomls, paths@));
            let uc = unreferenced(str_views(crate_archives@), needed_archives(tomls, paths@));
            &&& r.removals@.len() >= 2
            &&& is_sized_removal(r.removals@[0], paths@.git_checkouts, dry_run, checkouts_size)
            &&& is_sized_removal(r.removals@[1], paths@.registry_sources, dry_run, sources_size)
            &&& match first_failure(tomls, paths@) {
                Some((_, m)) => r.failure matches Some(f) && f@ == m && r.removals@.len() == 2,
                None => {
                    &&& r.failure is None
                    &&& r.removals@.len() == 2 + ur.len() + uc.len()
                    &&& forall|k: int| 0 <= k < ur.len() ==> 0 <= #[trigger] ur[k] < bare_repos.len()
                        && is_sized_removal(r.removals@[2 + k], bare_repos@[ur[k]]@, dry_run, bare_repo_sizes@[ur[k]])
                    &&& forall|k: int| 0 <= k < uc.len() ==> 0 <= #[trigger] uc[k] < crate_archives.len()
                        && is_sized_removal(
                            r.removals@[2 + ur.len() + k],
                            crate_archives@[uc[k]]@,
                            dry_run,
                            crate_archive_sizes@[uc[k]],
                        )
                },
            }
        }),
{
    let ghost tomls = str_views(manifests@);
    let mut removals: Vec<FileRemoval> = Vec::new();
    removals.push(remove_file(paths.git_checkouts.as_str(), dry_run, None, &DryRunMessage::Default, Some(checkouts_size)));
    removals.push(
        remove_file(paths.registry_sources.as_str(), dry_run, None, &DryRunMessage::Default, Some(sources_size)),
    );
    let mut archives: Vec<String> = Vec::new();
    let mut repos: Vec<String> = Vec::new();
    let mut i: usize = 0;
    while i < manifests.len()
        invariant
            i <= manifests.len(),
            tomls == str_views(manifests@),
            removals@.len() == 2,
            is_sized_removal(removals@[0], paths@.git_checkouts, dry_run, checkouts_size),
            is_sized_removal(removals@[1], paths@.registry_sources, dry_run, sources_size),
            first_failure(tomls.take(i as int), paths@) is None,
            str_views(archives@) == needed_archives(tomls.take(i as int), paths@),
            str_views(repos@) == needed_repos(tomls.take(i as int), paths@),
        decreases manifests.len() - i,
    {
        assert(tomls.take(i + 1).drop_last() =~= tomls.take(i as int));
        assert(tomls.take(i + 1).last() == manifests@[i as int]@);
        match manifest_source_of(manifests[i].as_str(), paths) {
            Err(m) => {
                proof {
                    lemma_failure_persists(tomls, paths@, i as int + 1);
                }
                return UnrefPlan { removals, failure: Some(m) };
            },
            Ok(None) => {},
            Ok(Some(SourceKind::Crate(p))) => {
                let ghost before = str_views(archives@);
                archives.push(p);
                assert(str_views(archives@) =~= before.push(archives@[archives@.len() - 1]@));
            },
            Ok(Some(SourceKind::Git(p))) => {
                let ghost before = str_views(repos@);
                repos.push(p);
                assert(str_views(repos@) =~= before.push(repos@[repos@.len() - 1]@));
            },
        }
        i = i + 1;
    }
    assert(tomls.take(manifests.len() as int) =~= tomls);
    let ghost ur = unreferenced(str_views(bare_repos@), str_views(repos@));
    remove_unneeded(&mut removals, bare_repos, bare_repo_sizes, &repos, dry_run);
    let ghost mid = removals@;
    assert(mid.len() == 2 + ur.len());
    remove_unneeded(&mut removals, crate_archives, crate_archive_sizes, &archives, dry_run);
    assert forall|k: int| 0 <= k < ur.len() implies 0 <= #[trigger] ur[k] < bare_repos.len()
        && is_sized_removal(removals@[2 + k], bare_repos@[ur[k]]@, dry_run, bare_repo_sizes@[ur[k]]) by {
        assert(removals@[2 + k] == mid[2 + k]);
    }
    proof {
        lemma_unreferenced_bounds(str_views(crate_archives@), str_views(archives@));
        lemma_unreferenced_bounds(str_views(bare_repos@), str_views(repos@));
    }
    UnrefPlan { removals, failure: None }
}

/// Once a prefix of the manifests holds a failure, the first failure of the whole list is that
/// one.
proof fn lemma_failure_persists(tomls: Seq<Seq<char>>, c: CargoCachePathsView, n: int)
    requires
        0 < n <= tomls.len(),
        first_failure(tomls.take(n), c) is Some,
    ensures
        first_failure(tomls, c) == first_failure(tomls.take(n), c),
    decreases tomls.len() - n,
{
    if n < tomls.len() {
        assert(tomls.take(n + 1).drop_last() =~= tomls.take(n));
        lemma_failure_persists(tomls, c, n + 1);
    } else {
        assert(tomls.take(n) =~= tomls);
    }
}


/// Cleaning against a project removes exactly the cache items that none of its dependencies
/// needs: an item is among the removed ones if and only if no needed path names it.
pub proof fn lemma_removes_exactly_unneeded(items: Seq<Seq<char>>, needed: Seq<Seq<char>>, j: int)
    requires
        0 <= j < items.len(),
    ensures
        unreferenced(items, needed).contains(j) <==> !referenced(items[j], needed),
    decreases items.len(),
{
    let u = unreferenced(items, needed);
    let rest = items.drop_last();
    lemma_unreferenced_bounds(rest, needed);
    if j < items.len() - 1 {
        lemma_removes_exactly_unneeded(rest, needed, j);
        let u2 = unreferenced(rest, needed);
        assert(rest[j] == items[j]);
        if u2.contains(j) {
            let k = choose|k: int| 0 <= k < u2.len() && u2[k] == j;
            if referenced(items.last(), needed) {
                assert(u[k] == j);
            } else {
                assert(u[k] == j);
            }
        }
        if u.contains(j) {
            let k = choose|k: int| 0 <= k < u.len() && u[k] == j;
            if !referenced(items.last(), needed) && k == u2.len() {
                assert(u[k] == items.len() - 1);
            } else {
                assert(u2[k] == j);
            }
        }
    } else {
        if !referenced(items[j], needed) {
            assert(u[u.len() - 1] == j);
        } else if u.contains(j) {
            let k = choose|k: int| 0 <= k < u.len() && u[k] == j;
            assert(u == unreferenced(rest, needed));
            assert(0 <= u[k] < rest.len());
        }
    }
}

} // verus!
