//! The crates whose extracted sources take the most space, counted per crate.
use vstd::prelude::*;

use crate::paths::{before_last_dash, chars_before_last_dash, file_name, path_file_name};
use crate::text::{chars_of, push_str, string_of};
use crate::top_items::common::{
    can_group, count_list_to_string, count_listing, crate_stats, desc_views, group_by_crate,
    all_counted, stats_views, summary_of, summary_text, CrateStats, FileDesc, NameRule,
};

verus! {

/// The statistics of one crate's extracted sources.
pub type RgSrcInfo = CrateStats;

/// The crate name of an entry `<name>-<version>`: its file name without the part after its last
/// `-`.
pub open spec fn entry_name(path: Seq<char>) -> Seq<char> {
    before_last_dash(file_name(path)->0)
}

/// The crate name of the entry at `path` (`.../xz2-0.1.4` gives `xz2`).
pub fn name_from_path(path: &str) -> (r: String)
    requires
        file_name(path@) is Some,
    ensures
        r@ == entry_name(path@),
{
    let n = path_file_name(path).unwrap();
    let nc = chars_of(n.as_str());
    string_of(&chars_before_last_dash(&nc))
}

impl FileDesc {
    /// Describes the extracted sources at `path` of `size` bytes, named after their crate.
    pub fn new_from_reg_src(path: &str, size: u64) -> (d: FileDesc)
        requires
            file_name(path@) is Some,
        ensures
            d@.path == path@,
            d@.name == entry_name(path@),
            d@.size == size,
    {
        let mut p = String::new();
        push_str(&mut p, path);
        FileDesc { path: p, name: name_from_path(path), size }
    }
}

/// Counts the extracted sources per crate: one statistic for each run of consecutive entries of
/// the same crate (`on_disk` tells for each entry whether its path exists).
pub fn stats_from_file_desc_list(file_descs: Vec<FileDesc>, on_disk: &Vec<bool>) -> (out: Vec<RgSrcInfo>)
    requires
        can_group(desc_views(file_descs@), on_disk@, NameRule::FileName),
    ensures
        stats_views(out@) == crate_stats(desc_views(file_descs@), on_disk@, NameRule::FileName),
{
    group_by_crate(&file_descs, on_disk, NameRule::FileName)
}

/// Lists the crates with the largest extracted sources: name, number of versions, average and
/// total size, at most `limit` of them.
pub fn reg_src_list_to_string(limit: u32, collections_vec: Vec<RgSrcInfo>) -> (r: String)
    requires
        all_counted(stats_views(collections_vec@)),
    ensures
        r@ == count_listing(stats_views(collections_vec@), limit),
{
    count_list_to_string(limit, &collections_vec)
}

/// The summary of the registry sources in the directory `path` (which take `total_size` bytes
/// and are described by `file_descs`).
pub fn registry_source_stats(
    path: &str,
    dir_exists: bool,
    total_size: u64,
    limit: u32,
    file_descs: Vec<FileDesc>,
    on_disk: &Vec<bool>,
) -> (r: String)
    requires
        dir_exists ==> can_group(desc_views(file_descs@), on_disk@, NameRule::FileName),
    ensures
        r@ == summary_of(
            path@,
            dir_exists,
            total_size,
            count_listing(crate_stats(desc_views(file_descs@), on_disk@, NameRule::FileName), limit),
        ),
{
    if !dir_exists {
        return String::new();
    }
    let summary = stats_from_file_desc_list(file_descs, on_disk);
    proof {
        crate::top_items::common::lemma_crate_stats_counted(desc_views(file_descs@), on_disk@, NameRule::FileName);
    }
    let listing = reg_src_list_to_string(limit, summary);
    summary_text(path, total_size, &listing)
}

} // verus!
