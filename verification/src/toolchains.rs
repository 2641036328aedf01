//! The toolchains installed by rustup, largest first, with their number of files and size.
use vstd::prelude::*;

use crate::human::{decimal_file_size, human_size};
use crate::order::{desc_order, is_desc_order, order_by_key_desc};
use crate::tables::{format_table, table_text};
use crate::text::{chars_of, decimal, string_of, trim, trimmed, u64_to_string};
use crate::top_items::common::{copy_string, string_from};

verus! {

/// An installed toolchain: its name, how many entries it has and their size.
pub struct Toolchain {
    pub name: String,
    pub number_files: u64,
    pub size: u64,
}

/// The mathematical content of a `Toolchain`.
pub struct ToolchainView {
    pub name: Seq<char>,
    pub number_files: u64,
    pub size: u64,
}

impl View for Toolchain {
    type V = ToolchainView;

    open spec fn view(&self) -> ToolchainView {
        ToolchainView { name: self.name@, number_files: self.number_files, size: self.size }
    }
}

/// The views of a list of toolchains.
pub open spec fn toolchain_views(ts: Seq<Toolchain>) -> Seq<ToolchainView> {
    ts.map_values(|t: Toolchain| t@)
}

/// The sizes of the toolchains.
pub open spec fn toolchain_sizes(ts: Seq<ToolchainView>) -> Seq<u64> {
    ts.map_values(|t: ToolchainView| t.size)
}

/// The toolchains sorted largest first, later ones first among equal sizes (a stable sort by
/// size, reversed).
pub open spec fn largest_first(ts: Seq<ToolchainView>) -> Seq<ToolchainView> {
    desc_order(toolchain_sizes(ts)).map_values(|i: int| ts[i])
}

/// Sorts the toolchains, largest first.
pub fn sort_toolchains(toolchains: Vec<Toolchain>) -> (r: Vec<Toolchain>)
    ensures
        toolchain_views(r@) == largest_first(toolchain_views(toolchains@)),
{
    let ghost tv = toolchain_views(toolchains@);
    let mut sizes: Vec<u64> = Vec::new();
    let mut i: usize = 0;
    while i < toolchains.len()
        invariant
            i <= toolchains.len(),
            tv == toolchain_views(toolchains@),
            sizes@ == toolchain_sizes(tv).take(i as int),
        decreases toolchains.len() - i,
    {
        sizes.push(toolchains[i].size);
        assert(sizes@ =~= toolchain_sizes(tv).take(i + 1));
        i = i + 1;
    }
    assert(sizes@ =~= toolchain_sizes(tv));
    let order = order_by_key_desc(&sizes);
    let ghost p = desc_order(toolchain_sizes(tv));
    let mut r: Vec<Toolchain> = Vec::new();
    let mut k: usize = 0;
    while k < order.len()
        invariant
            k <= order.len(),
            order@.len() == tv.len(),
            tv == toolchain_views(toolchains@),
            order@.map_values(|i: usize| i as int) == p,
            p == desc_order(toolchain_sizes(tv)),
            is_desc_order(toolchain_sizes(tv), p),
            toolchain_views(r@) == p.take(k as int).map_values(|i: int| tv[i]),
        decreases order.len() - k,
    {
        assert(p[k as int] == order@[k as int] as int);
        let t = &toolchains[order[k]];
        assert(tv[p[k as int]] == t@);
        let ghost before = toolchain_views(r@);
        r.push(Toolchain { name: copy_string(&t.name), number_files: t.number_files, size: t.size });
        assert(toolchain_views(r@) =~= before.push(t@));
        assert(p.take(k + 1).map_values(|i: int| tv[i]) =~= p.take(k as int).map_values(|i: int| tv[i]).push(tv[p[k as int]]));
        k = k + 1;
    }
    assert(p.take(order.len() as int) =~= p);
    r
}

/// The sum of the sizes of the toolchains.
pub open spec fn toolchains_size(ts: Seq<ToolchainView>) -> nat
    decreases ts.len(),
{
    if ts.len() == 0 {
        0
    } else {
        toolchains_size(ts.drop_last()) + ts.last().size as nat
    }
}

/// The number of files of the toolchains.
pub open spec fn toolchains_files(ts: Seq<ToolchainView>) -> nat
    decreases ts.len(),
{
    if ts.len() == 0 {
        0
    } else {
        toolchains_files(ts.drop_last()) + ts.last().number_files as nat
    }
}

/// The row of a toolchain: its name, number of files, size and the share given.
pub open spec fn toolchain_row(t: ToolchainView, percentage: Seq<char>) -> Seq<Seq<char>> {
    seq![t.name, decimal(t.number_files as nat), decimal_file_size(t.size), percentage]
}

/// The table of the toolchains: a header, a row per toolchain, an empty row and the totals.
pub open spec fn toolchain_rows(ts: Seq<ToolchainView>, percentages: Seq<Seq<char>>) -> Seq<Seq<Seq<char>>> {
    seq![seq!["Toolchain Name"@, "Files"@, "Size"@, "Percentage"@]] + Seq::new(
        ts.len(),
        |k: int| toolchain_row(ts[k], percentages[k]),
    ) + seq![
        seq![seq![], seq![], seq![], seq![]],
        seq!["Total"@, decimal(toolchains_files(ts)), decimal_file_size(toolchains_size(ts) as u64), "100 %"@],
    ]
}

proof fn lemma_toolchains_prefix(ts: Seq<ToolchainView>, i: int)
    requires
        0 <= i <= ts.len(),
    ensures
        toolchains_size(ts.take(i)) <= toolchains_size(ts),
        toolchains_files(ts.take(i)) <= toolchains_files(ts),
    decreases ts.len() - i,
{
    if i < ts.len() {
        lemma_toolchains_prefix(ts, i + 1);
        assert(ts.take(i + 1).drop_last() =~= ts.take(i));
    } else {
        assert(ts.take(i) =~= ts);
    }
}

/// The toolchain summary: the table of the toolchains in the order given (`percentages` gives
/// the share of each), trimmed.
pub fn toolchain_table(toolchains: &Vec<Toolchain>, percentages: &Vec<String>) -> (r: String)
    requires
        percentages.len() == toolchains.len(),
        toolchains_size(toolchain_views(toolchains@)) <= u64::MAX,
        toolchains_files(toolchain_views(toolchains@)) <= u64::MAX,
    ensures
        r@ == trim(table_text(toolchain_rows(toolchain_views(toolchains@), crate::paths::str_views(percentages@)), 1)),
{
    let ghost tv = toolchain_views(toolchains@);
    let ghost pv = crate::paths::str_views(percentages@);
    let mut table: Vec<Vec<String>> = Vec::new();
    proof {
        reveal_strlit("Toolchain Name");
        reveal_strlit("Files");
        reveal_strlit("Size");
        reveal_strlit("Percentage");
        reveal_strlit("Total");
        reveal_strlit("100 %");
    }
    table.push(vec![string_from("Toolchain Name"), string_from("Files"), string_from("Size"), string_from("Percentage")]);
    assert(table.deep_view()[0] =~= seq!["Toolchain Name"@, "Files"@, "Size"@, "Percentage"@]);
    assert(table.deep_view() =~= seq![seq!["Toolchain Name"@, "Files"@, "Size"@, "Percentage"@]] + Seq::new(
        0 as nat,
        |j: int| toolchain_row(tv[j], pv[j]),
    ));
    let mut total_size: u64 = 0;
    let mut total_files: u64 = 0;
    let mut k: usize = 0;
    while k < toolchains.len()
        invariant
            k <= toolchains.len(),
            percentages.len() == toolchains.len(),
            tv == toolchain_views(toolchains@),
            pv == crate::paths::str_views(percentages@),
            toolchains_size(tv) <= u64::MAX,
            toolchains_files(tv) <= u64::MAX,
            total_size == toolchains_size(tv.take(k as int)),
            total_files == toolchains_files(tv.take(k as int)),
            table.deep_view() =~= seq![seq!["Toolchain Name"@, "Files"@, "Size"@, "Percentage"@]] + Seq::new(
                k as nat,
                |j: int| toolchain_row(tv[j], pv[j]),
            ),
        decreases toolchains.len() - k,
    {
        let t = &toolchains[k];
        assert(tv[k as int] == t@);
        assert(tv.take(k + 1).drop_last() =~= tv.take(k as int));
        proof {
            lemma_toolchains_prefix(tv, k + 1);
        }
        total_size = total_size + t.size;
        total_files = total_files + t.number_files;
        let row = vec![copy_string(&t.name), u64_to_string(t.number_files), human_size(t.size), copy_string(&percentages[k])];
        assert(row.deep_view() =~= toolchain_row(tv[k as int], pv[k as int]));
        let ghost before = table.deep_view();
        table.push(row);
        assert(table.deep_view() =~= before.push(toolchain_row(tv[k as int], pv[k as int])));
        k = k + 1;
    }
    assert(tv.take(toolchains.len() as int) =~= tv);
    let ghost body = table.deep_view();
    let empty = vec![String::new(), String::new(), String::new(), String::new()];
    assert(empty.deep_view() =~= seq![seq![], seq![], seq![], seq![]]);
    table.push(empty);
    let totals = vec![string_from("Total"), u64_to_string(total_files), human_size(total_size), string_from("100 %")];
    assert(totals.deep_view() =~= seq!["Total"@, decimal(toolchains_files(tv)), decimal_file_size(toolchains_size(tv) as u64), "100 %"@]);
    table.push(totals);
    assert(table.deep_view() =~= body.push(seq![seq![], seq![], seq![], seq![]]).push(
        seq!["Total"@, decimal(toolchains_files(tv)), decimal_file_size(toolchains_size(tv) as u64), "100 %"@],
    ));
    assert(table.deep_view() =~= toolchain_rows(tv, pv));
    assert forall|r: int| 0 <= r < table.deep_view().len() implies #[trigger] table.deep_view()[r].len() <= table.deep_view()[0].len() by {}
    let text = format_table(&table, 1);
    let cs = chars_of(text.as_str());
    string_of(&trimmed(&cs))
}

} // verus!
