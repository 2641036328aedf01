//! The largest git checkouts, counted per repository.
use vstd::prelude::*;

use crate::paths::{before_last_dash, chars_before_last_dash, components, path_components};
use crate::text::{chars_of, push_str, string_of};
use crate::top_items::common::{
    all_counted, can_group, count_list_to_string, count_listing, crate_stats, desc_views,
    group_by_crate, stats_views, summary_of, summary_text, CrateStats, FileDesc, NameRule,
};

verus! {

/// The statistics of one repository's checkouts.
pub type ChkInfo = CrateStats;

/// The repository name of a checkout at `<dir>/<name>-<hash>/<commit>`: the component before
/// the last one, without the part after its last `-`.
pub open spec fn checkout_name(path: Seq<char>) -> Seq<char> {
    before_last_dash(components(path)[components(path).len() - 2])
}

/// The repository name of the checkout at `path`.
pub fn name_from_path(path: &str) -> (r: String)
    requires
        components(path@).len() >= 2,
    ensures
        r@ == checkout_name(path@),
{
    let cs = path_components(path);
    let ghost v = cs@.map_values(|c: String| c@);
    let dir = &cs[cs.len() - 2];
    assert(dir@ == v[v.len() - 2]);
    let dc = chars_of(dir.as_str());
    string_of(&chars_before_last_dash(&dc))
}

impl FileDesc {
    /// Describes the checkout at `path` of `size` bytes, named after its repository.
    pub fn new_from_git_checkouts(path: &str, size: u64) -> (d: FileDesc)
        requires
            components(path@).len() >= 2,
        ensures
            d@.path == path@,
            d@.name == checkout_name(path@),
            d@.size == size,
    {
        let mut p = String::new();
        push_str(&mut p, path);
        FileDesc { path: p, name: name_from_path(path), size }
    }
}

/// Counts the checkouts per repository: one statistic for each run of consecutive checkouts of
/// the same repository (`on_disk` tells for each checkout whether its path exists).
pub fn stats_from_file_desc_list(file_descs: Vec<FileDesc>, on_disk: &Vec<bool>) -> (out: Vec<ChkInfo>)
    requires
        can_group(desc_views(file_descs@), on_disk@, NameRule::ParentDir),
    ensures
        stats_views(out@) == crate_stats(desc_views(file_descs@), on_disk@, NameRule::ParentDir),
{
    group_by_crate(&file_descs, on_disk, NameRule::ParentDir)
}

/// Lists the repositories with the largest checkouts: name, number of checkouts, average and
/// total size, at most `limit` of them.
pub fn chkout_list_to_string(limit: u32, collections_vec: Vec<ChkInfo>) -> (r: String)
    requires
        all_counted(stats_views(collections_vec@)),
    ensures
        r@ == count_listing(stats_views(collections_vec@), limit),
{
    count_list_to_string(limit, &collections_vec)
}

/// The summary of the git checkouts in the directory `path` (whose checkouts take `total_size`
/// bytes and are described by `file_descs`).
pub fn git_checkouts_stats(
    path: &str,
    dir_exists: bool,
    total_size: u64,
    limit: u32,
    file_descs: Vec<FileDesc>,
    on_disk: &Vec<bool>,
) -> (r: String)
    requires
        dir_exists ==> can_group(desc_views(file_descs@), on_disk@, NameRule::ParentDir),
    ensures
        r@ == summary_of(
            path@,
            dir_exists,
            total_size,
            count_listing(crate_stats(desc_views(file_descs@), on_disk@, NameRule::ParentDir), limit),
        ),
{
    if !dir_exists {
        return String::new();
    }
    let summary = stats_from_file_desc_list(file_descs, on_disk);
    proof {
        crate::top_items::common::lemma_crate_stats_counted(desc_views(file_descs@), on_disk@, NameRule::ParentDir);
    }
    let listing = chkout_list_to_string(limit, summary);
    summary_text(path, total_size, &listing)
}

} // verus!
