//! The largest installed binaries.
use vstd::prelude::*;

use crate::human::{decimal_file_size, human_size};
use crate::order::{desc_order, order_by_key_desc};
use crate::paths::{file_name, path_file_name};
use crate::tables::{format_table, table_text};
use crate::top_items::common::{copy_string, shown_count, string_from, summary_of, summary_text};

verus! {

/// An installed binary: its file name and its size.
#[derive(Debug)]
pub struct BinInfo {
    pub name: String,
    pub size: u64,
}

/// The mathematical content of a `BinInfo`.
pub struct BinInfoView {
    pub name: Seq<char>,
    pub size: u64,
}

impl View for BinInfo {
    type V = BinInfoView;

    open spec fn view(&self) -> BinInfoView {
        BinInfoView { name: self.name@, size: self.size }
    }
}

/// The views of a list of binaries.
pub open spec fn bin_views(bs: Seq<BinInfo>) -> Seq<BinInfoView> {
    bs.map_values(|b: BinInfo| b@)
}

impl BinInfo {
    /// Describes the binary at `path` of `size` bytes by its file name.
    pub fn new(path: &str, size: u64) -> (b: BinInfo)
        requires
            file_name(path@) is Some,
        ensures
            b@.name == file_name(path@)->0,
            b@.size == size,
    {
        BinInfo { name: path_file_name(path).unwrap(), size }
    }

    /// The size in decimal units.
    pub fn size_string(&self) -> (r: String)
        ensures
            r@ == decimal_file_size(self.size),
    {
        human_size(self.size)
    }
}

/// The sizes of the binaries.
pub open spec fn bin_sizes(bs: Seq<BinInfoView>) -> Seq<u64> {
    bs.map_values(|b: BinInfoView| b.size)
}

/// The binaries a listing shows: largest first, later ones first among equal sizes, at most
/// `limit` of them.
pub open spec fn shown_bins(bs: Seq<BinInfoView>, limit: u32) -> Seq<BinInfoView> {
    desc_order(bin_sizes(bs)).take(shown_count(bs.len(), limit)).map_values(|i: int| bs[i])
}

/// A row of the binaries table: name and size.
pub open spec fn bin_row(b: BinInfoView) -> Seq<Seq<char>> {
    seq![b.name, decimal_file_size(b.size)]
}

/// The listing of the largest binaries: nothing for no binaries, else a table with a header.
pub open spec fn bin_listing(bs: Seq<BinInfoView>, limit: u32) -> Seq<char> {
    if bs.len() == 0 {
        seq![]
    } else {
        table_text(seq![seq!["Name"@, "Size"@]] + shown_bins(bs, limit).map_values(|b| bin_row(b)), 0)
    }
}

/// Lists the largest binaries as a table of name and size, at most `limit` of them.
pub fn bininfo_list_to_string(limit: u32, collections_vec: Vec<BinInfo>) -> (r: String)
    ensures
        r@ == bin_listing(bin_views(collections_vec@), limit),
{
    let ghost bs = bin_views(collections_vec@);
    if collections_vec.len() == 0 {
        return String::new();
    }
    let mut keys: Vec<u64> = Vec::new();
    let mut i: usize = 0;
    while i < collections_vec.len()
        invariant
            i <= collections_vec.len(),
            bs == bin_views(collections_vec@),
            keys@ == bin_sizes(bs).take(i as int),
        decreases collections_vec.len() - i,
    {
        keys.push(collections_vec[i].size);
        i = i + 1;
        assert(keys@ =~= bin_sizes(bs).take(i as int));
    }
    assert(keys@ =~= bin_sizes(bs));
    let order = order_by_key_desc(&keys);
    let ghost full = order@.map_values(|i: usize| i as int);
    let ghost shown = shown_bins(bs, limit);
    let count: usize = if (limit as usize) < collections_vec.len() {
        limit as usize
    } else {
        collections_vec.len()
    };
    let mut table: Vec<Vec<String>> = Vec::new();
    proof {
        reveal_strlit("Name");
        reveal_strlit("Size");
    }
    table.push(vec![string_from("Name"), string_from("Size")]);
    assert(table.deep_view()[0] =~= seq!["Name"@, "Size"@]);
    assert(shown.take(0).map_values(|b| bin_row(b)) =~= Seq::<Seq<Seq<char>>>::empty());
    let mut j: usize = 0;
    while j < count
        invariant
            j <= count,
            count == shown_count(bs.len(), limit),
            order@.len() == collections_vec@.len(),
            bs == bin_views(collections_vec@),
            full == order@.map_values(|i: usize| i as int),
            full == desc_order(bin_sizes(bs)),
            crate::order::is_desc_order(bin_sizes(bs), full),
            shown == shown_bins(bs, limit),
            shown.len() == count,
            table@.len() == j + 1,
            table.deep_view() =~= seq![seq!["Name"@, "Size"@]] + shown.take(j as int).map_values(|b| bin_row(b)),
        decreases count - j,
    {
        assert(full[j as int] == order@[j as int] as int);
        let k = order[j];
        assert(0 <= full[j as int] < bs.len());
        let b = &collections_vec[k];
        assert(b@ == shown[j as int]);
        let row = vec![copy_string(&b.name), b.size_string()];
        assert(row.deep_view() =~= bin_row(shown[j as int]));
        let ghost before = table.deep_view();
        table.push(row);
        assert(table.deep_view() =~= before.push(bin_row(shown[j as int])));
        assert(shown.take(j + 1).map_values(|b| bin_row(b)) =~= shown.take(j as int).map_values(|b| bin_row(b)).push(bin_row(shown[j as int])));
        j = j + 1;
    }
    assert(shown.take(count as int) =~= shown);
    assert forall|r: int| 0 <= r < table.deep_view().len() implies #[trigger] table.deep_view()[r].len() <= table.deep_view()[0].len() by {}
    format_table(&table, 0)
}

/// The summary of the installed binaries in the directory `path` (which take `total_size` bytes).
pub fn binary_stats(path: &str, dir_exists: bool, total_size: u64, limit: u32, bins: Vec<BinInfo>) -> (r: String)
    ensures
        r@ == summary_of(path@, dir_exists, total_size, bin_listing(bin_views(bins@), limit)),
{
    if !dir_exists {
        return String::new();
    }
    let listing = bininfo_list_to_string(limit, bins);
    summary_text(path, total_size, &listing)
}

} // verus!
