//! The crates whose downloaded archives take the most space, counted per crate.
use vstd::prelude::*;

use crate::human::{decimal_file_size, human_size};
use crate::paths::file_name;
use crate::text::{
    byte_len, decimal, lemma_seq_max_take, pad_left, pad_right, push_decimal,
    push_padded_left, push_padded_right, push_str, seq_max, str_len, string_len,
};
use crate::top_items::common::{
    all_counted, can_group, crate_stats, desc_views, group_by_crate, shown_positions, shown_stats,
    stats_views, summary_of, summary_text, CrateStats, CrateStatsView, FileDesc, NameRule,
};
use crate::top_items::registry_sources::{entry_name, name_from_path};

verus! {

/// The statistics of one crate's archives.
pub type RgchInfo = CrateStats;

/// Spaces between the widest crate name and the column after it.
pub const TOP_CRATES_SPACING: usize = 3;

impl FileDesc {
    /// Describes the archive at `path` of `size` bytes, named after its crate.
    pub fn new_from_reg_cache(path: &str, size: u64) -> (d: FileDesc)
        requires
            file_name(path@) is Some,
        ensures
            d@.path == path@,
            d@.name == entry_name(path@),
            d@.size == size,
    {
        let mut p = String::new();
        push_str(&mut p, path);
        FileDesc { path: p, name: name_from_path(path), size }
    }
}

/// Counts the archives per crate: one statistic for each run of consecutive archives of the same
/// crate (`on_disk` tells for each archive whether its path exists).
pub fn stats_from_file_desc_list(file_descs: Vec<FileDesc>, on_disk: &Vec<bool>) -> (out: Vec<RgchInfo>)
    requires
        can_group(desc_views(file_descs@), on_disk@, NameRule::FileName),
    ensures
        stats_views(out@) == crate_stats(desc_views(file_descs@), on_disk@, NameRule::FileName),
{
    group_by_crate(&file_descs, on_disk, NameRule::FileName)
}

/// Byte lengths of the names.
pub open spec fn name_lens(ss: Seq<CrateStatsView>) -> Seq<nat> {
    ss.map_values(|s: CrateStatsView| str_len(s.name) as nat)
}

/// One line of the archive listing: the name padded to `width`, the count, the average size and
/// the total size.
pub open spec fn regcache_line(s: CrateStatsView, width: nat) -> Seq<char> {
    pad_right(s.name, width) + " src ckt: "@ + pad_right(decimal(s.counter as nat), 3) + " "@
        + pad_right(
        "src avg: "@ + pad_left(decimal_file_size((s.total_size / (s.counter as u64)) as u64), 9),
        20,
    ) + " total: "@ + decimal_file_size(s.total_size) + "\n"@
}

/// The first `n` lines of the listing of `ss`.
pub open spec fn regcache_lines(ss: Seq<CrateStatsView>, width: nat, n: int) -> Seq<char>
    decreases n,
{
    if n <= 0 {
        seq![]
    } else {
        regcache_lines(ss, width, n - 1) + regcache_line(ss[n - 1], width)
    }
}

/// The listing of the crates with the largest archives: largest total first, at most `limit`
/// lines, names padded to the widest shown name plus the spacing.
pub open spec fn regcache_listing(ss: Seq<CrateStatsView>, limit: u32) -> Seq<char> {
    let shown = shown_stats(ss, limit);
    regcache_lines(shown, seq_max(name_lens(shown)) + TOP_CRATES_SPACING as nat, shown.len() as int)
}

/// Names short enough that the width of the name column fits in a `usize`.
pub open spec fn names_fit(ss: Seq<CrateStatsView>) -> bool {
    forall|k: int| 0 <= k < ss.len() ==> byte_len(#[trigger] ss[k].name) + TOP_CRATES_SPACING <= usize::MAX
}

/// Lists the crates with the largest archives, one line each: name, number of archives, average
/// and total size, at most `limit` of them.
pub fn regcache_list_to_string(limit: u32, collections_vec: Vec<RgchInfo>) -> (r: String)
    requires
        all_counted(stats_views(collections_vec@)),
        names_fit(stats_views(collections_vec@)),
    ensures
        r@ == regcache_listing(stats_views(collections_vec@), limit),
{
    let ghost ss = stats_views(collections_vec@);
    let p = shown_positions(&collections_vec, limit);
    let ghost shown = shown_stats(ss, limit);
    assert(p@.len() == shown.len());
    assert forall|a: int| 0 <= a < p@.len() implies shown[a] == ss[#[trigger] p@[a] as int] by {}
    let ghost lens = name_lens(shown);
    let mut max_len: usize = 0;
    let mut j: usize = 0;
    while j < p.len()
        invariant
            j <= p.len(),
            p@.len() == shown.len(),
            ss == stats_views(collections_vec@),
            names_fit(ss),
            forall|a: int| 0 <= a < p@.len() ==> (#[trigger] p@[a] as int) < collections_vec@.len(),
            forall|a: int| 0 <= a < p@.len() ==> shown[a] == ss[#[trigger] p@[a] as int],
            lens == name_lens(shown),
            max_len == seq_max(lens.take(j as int)),
            max_len + TOP_CRATES_SPACING <= usize::MAX,
        decreases p.len() - j,
    {
        proof {
            lemma_seq_max_take(lens, j as int);
        }
        let l = string_len(&collections_vec[p[j]].name);
        assert(lens[j as int] == l as nat);
        assert(shown[j as int] == ss[p@[j as int] as int]);
        if l > max_len {
            max_len = l;
        }
        j = j + 1;
    }
    assert(lens.take(p@.len() as int) =~= lens);
    let width = max_len + TOP_CRATES_SPACING;
    let mut output = String::new();
    let mut j: usize = 0;
    while j < p.len()
        invariant
            j <= p.len(),
            p@.len() == shown.len(),
            ss == stats_views(collections_vec@),
            all_counted(ss),
            forall|a: int| 0 <= a < p@.len() ==> (#[trigger] p@[a] as int) < collections_vec@.len(),
            forall|a: int| 0 <= a < p@.len() ==> shown[a] == ss[#[trigger] p@[a] as int],
            width == seq_max(name_lens(shown)) + TOP_CRATES_SPACING,
            output@ == regcache_lines(shown, width as nat, j as int),
        decreases p.len() - j,
    {
        let s = &collections_vec[p[j]];
        assert(s@ == shown[j as int]);
        assert(s.counter > 0);
        let ghost before = output@;
        push_padded_right(&mut output, s.name.as_str(), width);
        push_str(&mut output, " src ckt: ");
        let mut count = String::new();
        push_decimal(&mut count, s.counter as u64);
        push_padded_right(&mut output, count.as_str(), 3);
        push_str(&mut output, " ");
        let avg = human_size(s.total_size / (s.counter as u64));
        let mut avg_string = String::new();
        push_str(&mut avg_string, "src avg: ");
        push_padded_left(&mut avg_string, avg.as_str(), 9);
        push_padded_right(&mut output, avg_string.as_str(), 20);
        push_str(&mut output, " total: ");
        let total = human_size(s.total_size);
        push_str(&mut output, total.as_str());
        push_str(&mut output, "\n");
        assert(output@ =~= before + regcache_line(shown[j as int], width as nat));
        j = j + 1;
    }
    output
}

/// The summary of the registry archives in the directory `path` (which take `total_size` bytes
/// and are described by `file_descs`).
pub fn registry_cache_stats(
    path: &str,
    dir_exists: bool,
    total_size: u64,
    limit: u32,
    file_descs: Vec<FileDesc>,
    on_disk: &Vec<bool>,
) -> (r: String)
    requires
        dir_exists ==> can_group(desc_views(file_descs@), on_disk@, NameRule::FileName),
        dir_exists ==> names_fit(crate_stats(desc_views(file_descs@), on_disk@, NameRule::FileName)),
    ensures
        r@ == summary_of(
            path@,
            dir_exists,
            total_size,
            regcache_listing(crate_stats(desc_views(file_descs@), on_disk@, NameRule::FileName), limit),
        ),
{
    if !dir_exists {
        return String::new();
    }
    let summary = stats_from_file_desc_list(file_descs, on_disk);
    proof {
        crate::top_items::common::lemma_crate_stats_counted(desc_views(file_descs@), on_disk@, NameRule::FileName);
    }
    let listing = regcache_list_to_string(limit, summary);
    summary_text(path, total_size, &listing)
}

} // verus!
