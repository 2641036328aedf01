//! Cache entries described by path, crate name and size, and their grouping per crate.
use vstd::prelude::*;

use crate::order::{desc_order, order_by_key_desc};
use crate::paths::{before_last_dash, chars_before_last_dash, components, file_name, is_normal_component, path_components, path_file_name};
use crate::human::{decimal_file_size, human_size};
use crate::tables::{format_table, table_text};
use crate::text::{chars_of, decimal, push_str, string_of, u64_to_string};

verus! {

/// An entry of the cache: its path, the name of the crate it belongs to, and its size.
pub struct FileDesc {
    pub path: String,
    pub name: String,
    pub size: u64,
}

/// The mathematical content of a `FileDesc`.
pub struct FileDescView {
    pub path: Seq<char>,
    pub name: Seq<char>,
    pub size: u64,
}

impl View for FileDesc {
    type V = FileDescView;

    open spec fn view(&self) -> FileDescView {
        FileDescView { path: self.path@, name: self.name@, size: self.size }
    }
}

/// The views of a list of entries.
pub open spec fn desc_views(ds: Seq<FileDesc>) -> Seq<FileDescView> {
    ds.map_values(|d: FileDesc| d@)
}

/// How many entries a crate has in the cache, and their total size.
pub struct CrateStats {
    pub name: String,
    pub counter: u32,
    pub total_size: u64,
}

/// The mathematical content of a `CrateStats`.
pub struct CrateStatsView {
    pub name: Seq<char>,
    pub counter: u32,
    pub total_size: u64,
}

impl View for CrateStats {
    type V = CrateStatsView;

    open spec fn view(&self) -> CrateStatsView {
        CrateStatsView { name: self.name@, counter: self.counter, total_size: self.total_size }
    }
}

/// The views of a list of statistics.
pub open spec fn stats_views(ss: Seq<CrateStats>) -> Seq<CrateStatsView> {
    ss.map_values(|s: CrateStats| s@)
}

/// A run of consecutive entries with the same crate name: the position of its last entry, how
/// many entries it has, and their total size.
pub struct Run {
    pub last: int,
    pub count: nat,
    pub total: nat,
}

/// The maximal runs of consecutive entries with equal crate names, in order.
pub open spec fn runs(ds: Seq<FileDescView>) -> Seq<Run>
    decreases ds.len(),
{
    if ds.len() == 0 {
        seq![]
    } else {
        let rest = runs(ds.drop_last());
        let i = ds.len() - 1;
        if i > 0 && ds[i].name == ds[i - 1].name {
            let r = rest.last();
            rest.update(
                rest.len() - 1,
                Run { last: i, count: r.count + 1, total: r.total + ds[i].size as nat },
            )
        } else {
            rest.push(Run { last: i, count: 1, total: ds[i].size as nat })
        }
    }
}

/// The sum of the sizes of the entries.
pub open spec fn total_size_of(ds: Seq<FileDescView>) -> nat
    decreases ds.len(),
{
    if ds.len() == 0 {
        0
    } else {
        total_size_of(ds.drop_last()) + ds.last().size as nat
    }
}

/// How the crate name shown for a run is taken from the path of its last entry.
#[derive(PartialEq, Eq, Structural, Clone, Copy, Debug)]
pub enum NameRule {
    /// From the directory that holds the entry (git checkouts: `<name>-<hash>/<commit>`).
    ParentDir,
    /// From the entry's own file name (registry sources and archives: `<name>-<version>`).
    FileName,
    /// The name the entry was described with (bare git repositories).
    Described,
}

/// The crate name shown for an entry at `path`: for an entry on disk the name of the directory
/// (`ParentDir`) or of the entry (`FileName`) without the part after its last `-`; for a path
/// that is not on disk its file name as it is.
pub open spec fn shown_name(path: Seq<char>, on_disk: bool, rule: NameRule) -> Seq<char> {
    if !on_disk {
        file_name(path)->0
    } else if rule == NameRule::ParentDir {
        before_last_dash(components(path)[components(path).len() - 2])
    } else {
        before_last_dash(file_name(path)->0)
    }
}

/// The path of an entry gives a name under `rule`: it has a file name and, for an entry on disk
/// named after its directory, that directory is a component of its path.
pub open spec fn name_defined(path: Seq<char>, on_disk: bool, rule: NameRule) -> bool {
    rule == NameRule::Described || name_from_path_defined(path, on_disk, rule)
}

/// The path of an entry gives a name under a rule that takes it from the path.
pub open spec fn name_from_path_defined(path: Seq<char>, on_disk: bool, rule: NameRule) -> bool {
    &&& file_name(path) is Some
    &&& (on_disk && rule == NameRule::ParentDir) ==> {
        let cs = components(path);
        cs.len() >= 2 && is_normal_component(cs[cs.len() - 2])
    }
}

/// The statistics of a run, named after its last entry.
pub open spec fn run_stats(
    ds: Seq<FileDescView>,
    on_disk: Seq<bool>,
    rule: NameRule,
    r: Run,
) -> CrateStatsView {
    CrateStatsView {
        name: if rule == NameRule::Described {
            ds[r.last].name
        } else {
            shown_name(ds[r.last].path, on_disk[r.last], rule)
        },
        counter: r.count as u32,
        total_size: r.total as u64,
    }
}

/// The statistics per crate of a list of entries: one for each run of consecutive entries of the
/// same crate.
pub open spec fn crate_stats(
    ds: Seq<FileDescView>,
    on_disk: Seq<bool>,
    rule: NameRule,
) -> Seq<CrateStatsView> {
    runs(ds).map_values(|r: Run| run_stats(ds, on_disk, rule, r))
}

/// The entries can be grouped without overflow and every entry gives a name.
pub open spec fn can_group(ds: Seq<FileDescView>, on_disk: Seq<bool>, rule: NameRule) -> bool {
    &&& on_disk.len() == ds.len()
    &&& ds.len() <= u32::MAX
    &&& total_size_of(ds) <= u64::MAX
    &&& forall|i: int| 0 <= i < ds.len() ==> name_defined(#[trigger] ds[i].path, on_disk[i], rule)
}

/// The crate name shown for the entry at `path`.
pub fn crate_name_of(path: &String, on_disk: bool, rule: NameRule) -> (r: String)
    requires
        name_from_path_defined(path@, on_disk, rule),
    ensures
        r@ == shown_name(path@, on_disk, rule),
{
    if !on_disk {
        path_file_name(path.as_str()).unwrap()
    } else if rule == NameRule::ParentDir {
        let cs = path_components(path.as_str());
        let ghost v = cs@.map_values(|c: String| c@);
        let dir = &cs[cs.len() - 2];
        assert(dir@ == v[v.len() - 2]);
        let dc = chars_of(dir.as_str());
        string_of(&chars_before_last_dash(&dc))
    } else {
        let n = path_file_name(path.as_str()).unwrap();
        let nc = chars_of(n.as_str());
        string_of(&chars_before_last_dash(&nc))
    }
}

/// Runs of a non-empty list end at its last entry, and a list has no more runs than entries.
pub proof fn lemma_runs_shape(ds: Seq<FileDescView>)
    ensures
        runs(ds).len() <= ds.len(),
        ds.len() > 0 ==> runs(ds).len() > 0 && runs(ds).last().last == ds.len() - 1,
        forall|k: int| 0 <= k < runs(ds).len() ==> 0 <= #[trigger] runs(ds)[k].last < ds.len(),
    decreases ds.len(),
{
    if ds.len() > 0 {
        lemma_runs_shape(ds.drop_last());
    }
}

/// The sum of a prefix is at most the sum of the whole list.
pub proof fn lemma_total_size_prefix(ds: Seq<FileDescView>, i: int)
    requires
        0 <= i <= ds.len(),
    ensures
        total_size_of(ds.take(i)) <= total_size_of(ds),
    decreases ds.len() - i,
{
    if i < ds.len() {
        lemma_total_size_prefix(ds, i + 1);
        assert(ds.take(i + 1).drop_last() =~= ds.take(i));
    } else {
        assert(ds.take(i) =~= ds);
    }
}

/// Groups consecutive entries of the same crate: one statistic per run, counting its entries,
/// summing their sizes, and named after its last entry (`on_disk` tells for each entry whether
/// its path exists).
pub fn group_by_crate(file_descs: &Vec<FileDesc>, on_disk: &Vec<bool>, rule: NameRule) -> (out: Vec<CrateStats>)
    requires
        can_group(desc_views(file_descs@), on_disk@, rule),
    ensures
        stats_views(out@) == crate_stats(desc_views(file_descs@), on_disk@, rule),
{
    let ghost ds = desc_views(file_descs@);
    let n = file_descs.len();
    let mut out: Vec<CrateStats> = Vec::new();
    let mut counter: u32 = 0;
    let mut total: u64 = 0;
    let mut last: usize = 0;
    let mut i: usize = 0;
    while i < n
        invariant
            n == file_descs.len(),
            ds == desc_views(file_descs@),
            can_group(ds, on_disk@, rule),
            i <= n,
            i == 0 ==> out@.len() == 0,
            i > 0 ==> {
                let rs = runs(ds.take(i as int));
                &&& out@.len() + 1 == rs.len()
                &&& rs.last() == (Run { last: last as int, count: counter as nat, total: total as nat })
                &&& forall|k: int| 0 <= k < out@.len() ==> #[trigger] out@[k]@ == run_stats(ds, on_disk@, rule, rs[k])
            },
            total <= total_size_of(ds.take(i as int)),
            counter <= i,
            last < n || i == 0,
        decreases n - i,
    {
        let ghost t = ds.take(i + 1);
        assert(t.drop_last() =~= ds.take(i as int));
        assert(t[i as int] == ds[i as int]);
        proof {
            lemma_total_size_prefix(ds, i + 1);
            lemma_runs_shape(ds.take(i as int));
        }
        let size = file_descs[i].size;
        if i > 0 && file_descs[i].name == file_descs[i - 1].name {
            assert(t[i - 1] == ds[i - 1]);
            counter = counter + 1;
            total = total + size;
            last = i;
        } else {
            if i > 0 {
                let ghost rs = runs(ds.take(i as int));
                let l = &file_descs[last];
                assert(ds[last as int] == l@);
        assert(name_defined(ds[last as int].path, on_disk@[last as int], rule));
                let name = if rule == NameRule::Described {
                    copy_string(&l.name)
                } else {
                    crate_name_of(&l.path, on_disk[last], rule)
                };
                out.push(CrateStats { name, counter, total_size: total });
                assert forall|k: int| 0 <= k < out@.len() implies #[trigger] out@[k]@ == run_stats(ds, on_disk@, rule, rs[k]) by {}
            }
            counter = 1;
            total = size;
            last = i;
        }
        i = i + 1;
    }
    if n > 0 {
        let ghost rs = runs(ds.take(n as int));
        proof {
            lemma_runs_shape(ds.take(n as int));
        }
        let l = &file_descs[last];
        assert(ds[last as int] == l@);
        assert(name_defined(ds[last as int].path, on_disk@[last as int], rule));
        let name = if rule == NameRule::Described {
            copy_string(&l.name)
        } else {
            crate_name_of(&l.path, on_disk[last], rule)
        };
        out.push(CrateStats { name, counter, total_size: total });
        assert forall|k: int| 0 <= k < out@.len() implies #[trigger] out@[k]@ == run_stats(ds, on_disk@, rule, rs[k]) by {}
    }
    assert(ds.take(n as int) =~= ds);
    assert(stats_views(out@) =~= crate_stats(ds, on_disk@, rule));
    out
}

/// The total sizes of the statistics.
pub open spec fn totals(ss: Seq<CrateStatsView>) -> Seq<u64> {
    ss.map_values(|s: CrateStatsView| s.total_size)
}

/// How many of `len` items a listing limited to `limit` shows.
pub open spec fn shown_count(len: nat, limit: u32) -> int {
    if (limit as nat) < len {
        limit as int
    } else {
        len as int
    }
}

/// The statistics a listing shows: largest total first, later ones first among equal totals, at
/// most `limit` of them.
pub open spec fn shown_stats(ss: Seq<CrateStatsView>, limit: u32) -> Seq<CrateStatsView> {
    desc_order(totals(ss)).take(shown_count(ss.len(), limit)).map_values(|i: int| ss[i])
}

/// The header of a table of counted crates.
pub open spec fn count_header() -> Seq<Seq<char>> {
    seq!["Name"@, "Count"@, "Average"@, "Total"@]
}

/// A row of a table of counted crates: name, count, average size and total size.
pub open spec fn count_row(s: CrateStatsView) -> Seq<Seq<char>> {
    seq![
        s.name,
        decimal(s.counter as nat),
        decimal_file_size((s.total_size / (s.counter as u64)) as u64),
        decimal_file_size(s.total_size),
    ]
}

/// The text of a listing of counted crates: nothing for no crates, else a table with a header.
pub open spec fn count_listing(ss: Seq<CrateStatsView>, limit: u32) -> Seq<char> {
    if ss.len() == 0 {
        seq![]
    } else {
        table_text(seq![count_header()] + shown_stats(ss, limit).map_values(|s| count_row(s)), 0)
    }
}

/// Every statistic counts at least one entry.
pub open spec fn all_counted(ss: Seq<CrateStatsView>) -> bool {
    forall|k: int| 0 <= k < ss.len() ==> (#[trigger] ss[k]).counter > 0
}

/// The positions of `stats` that a listing limited to `limit` shows, in order.
pub fn shown_positions(stats: &Vec<CrateStats>, limit: u32) -> (p: Vec<usize>)
    ensures
        p@.map_values(|i: usize| i as int) == desc_order(totals(stats_views(stats@))).take(
            shown_count(stats@.len(), limit),
        ),
        forall|a: int| 0 <= a < p@.len() ==> (#[trigger] p@[a] as int) < stats@.len(),
{
    let ghost ss = stats_views(stats@);
    let mut keys: Vec<u64> = Vec::new();
    let mut i: usize = 0;
    while i < stats.len()
        invariant
            i <= stats.len(),
            ss == stats_views(stats@),
            keys@ == totals(ss).take(i as int),
        decreases stats.len() - i,
    {
        keys.push(stats[i].total_size);
        i = i + 1;
        assert(keys@ =~= totals(ss).take(i as int));
    }
    assert(keys@ =~= totals(ss));
    let order = order_by_key_desc(&keys);
    let ghost full = order@.map_values(|i: usize| i as int);
    let count: usize = if (limit as usize) < stats.len() { limit as usize } else { stats.len() };
    let mut p: Vec<usize> = Vec::new();
    let mut j: usize = 0;
    while j < count
        invariant
            j <= count,
            count == shown_count(stats@.len(), limit),
            count <= order@.len(),
            order@.len() == stats@.len(),
            full == order@.map_values(|i: usize| i as int),
            full == desc_order(totals(ss)),
            crate::order::is_desc_order(totals(ss), full),
            p@.map_values(|i: usize| i as int) == full.take(j as int),
            forall|a: int| 0 <= a < p@.len() ==> (#[trigger] p@[a] as int) < stats@.len(),
        decreases count - j,
    {
        assert(full[j as int] == order@[j as int] as int);
        assert(0 <= full[j as int] < stats@.len());
        let ghost before = p@.map_values(|i: usize| i as int);
        p.push(order[j]);
        assert(p@.map_values(|i: usize| i as int) =~= before.push(full[j as int]));
        assert(full.take(j + 1) =~= full.take(j as int).push(full[j as int]));
        j = j + 1;
    }
    p
}

/// Lists counted crates as a table of name, count, average and total size, largest total first
/// and at most `limit` of them; no crates give an empty text.
pub fn count_list_to_string(limit: u32, stats: &Vec<CrateStats>) -> (r: String)
    requires
        all_counted(stats_views(stats@)),
    ensures
        r@ == count_listing(stats_views(stats@), limit),
{
    let ghost ss = stats_views(stats@);
    if stats.len() == 0 {
        return String::new();
    }
    let p = shown_positions(stats, limit);
    let ghost shown = shown_stats(ss, limit);
    let mut table: Vec<Vec<String>> = Vec::new();
    proof {
        reveal_strlit("Name");
        reveal_strlit("Count");
        reveal_strlit("Average");
        reveal_strlit("Total");
    }
    table.push(vec![string_from("Name"), string_from("Count"), string_from("Average"), string_from("Total")]);
    assert(table.deep_view()[0] =~= count_header());
    assert(shown.take(0).map_values(|s| count_row(s)) =~= Seq::<Seq<Seq<char>>>::empty());
    let mut j: usize = 0;
    while j < p.len()
        invariant
            j <= p.len(),
            ss == stats_views(stats@),
            all_counted(ss),
            shown == shown_stats(ss, limit),
            p@.len() == shown.len(),
            forall|a: int| 0 <= a < p@.len() ==> (#[trigger] p@[a] as int) < stats@.len(),
            forall|a: int| 0 <= a < p@.len() ==> shown[a] == ss[#[trigger] p@[a] as int],
            table@.len() == j + 1,
            table.deep_view() =~= seq![count_header()] + shown.take(j as int).map_values(|s| count_row(s)),
        decreases p.len() - j,
    {
        let s = &stats[p[j]];
        assert(s@ == ss[p@[j as int] as int]);
        assert(s@.counter > 0);
        let avg = human_size(s.total_size / (s.counter as u64));
        let total = human_size(s.total_size);
        let row = vec![copy_string(&s.name), u64_to_string(s.counter as u64), avg, total];
        assert(row.deep_view() =~= count_row(shown[j as int]));
        let ghost before = table.deep_view();
        table.push(row);
        assert(table.deep_view() =~= before.push(count_row(shown[j as int])));
        assert(shown.take(j + 1).map_values(|s| count_row(s)) =~= shown.take(j as int).map_values(|s| count_row(s)).push(count_row(shown[j as int])));
        j = j + 1;
        assert(table.deep_view() =~= seq![count_header()] + shown.take(j as int).map_values(|s| count_row(s)));
    }
    assert(shown.take(p@.len() as int) =~= shown);
    assert forall|r: int| 0 <= r < table.deep_view().len() implies #[trigger] table.deep_view()[r].len() <= table.deep_view()[0].len() by {}
    format_table(&table, 0)
}

/// A `String` holding `s`.
pub fn string_from(s: &str) -> (r: String)
    ensures
        r@ == s@,
{
    let mut r = String::new();
    push_str(&mut r, s);
    r
}

/// A copy of `s`.
pub fn copy_string(s: &String) -> (r: String)
    ensures
        r@ == s@,
{
    s.clone()
}

/// Every run counts at least one entry and at most as many as there are entries.
pub proof fn lemma_runs_counted(ds: Seq<FileDescView>)
    ensures
        forall|k: int| 0 <= k < runs(ds).len() ==> 1 <= (#[trigger] runs(ds)[k]).count <= ds.len(),
    decreases ds.len(),
{
    if ds.len() > 0 {
        let d = ds.drop_last();
        lemma_runs_counted(d);
        lemma_runs_shape(d);
        let rest = runs(d);
        assert forall|k: int| 0 <= k < runs(ds).len() implies 1 <= (#[trigger] runs(ds)[k]).count
            <= ds.len() by {
            if k < rest.len() && k != rest.len() - 1 {
                assert(runs(ds)[k] == rest[k]);
            }
        }
    }
}

/// The statistics of entries that can be grouped count at least one entry each.
pub proof fn lemma_crate_stats_counted(ds: Seq<FileDescView>, on_disk: Seq<bool>, rule: NameRule)
    requires
        can_group(ds, on_disk, rule),
    ensures
        all_counted(crate_stats(ds, on_disk, rule)),
{
    lemma_runs_counted(ds);
    let ss = crate_stats(ds, on_disk, rule);
    assert forall|k: int| 0 <= k < ss.len() implies (#[trigger] ss[k]).counter > 0 by {
        assert(runs(ds)[k].count <= u32::MAX);
    }
}

/// The summary of a directory's largest items: nothing when the directory does not exist, else a
/// line naming it with its total size, followed by the listing.
pub open spec fn summary_of(path: Seq<char>, dir_exists: bool, total_size: u64, listing: Seq<char>) -> Seq<char> {
    if !dir_exists {
        seq![]
    } else {
        "\nSummary of: "@ + path + " ("@ + decimal_file_size(total_size) + " total)\n"@ + listing
    }
}

/// The heading line of a summary followed by `listing`.
pub fn summary_text(path: &str, total_size: u64, listing: &String) -> (r: String)
    ensures
        r@ == summary_of(path@, true, total_size, listing@),
{
    let mut output = String::new();
    push_str(&mut output, "\nSummary of: ");
    push_str(&mut output, path);
    push_str(&mut output, " (");
    let t = human_size(total_size);
    push_str(&mut output, t.as_str());
    push_str(&mut output, " total)\n");
    push_str(&mut output, listing.as_str());
    output
}

/// The number of entries the runs count.
pub open spec fn counted_entries(rs: Seq<Run>) -> nat
    decreases rs.len(),
{
    if rs.len() == 0 {
        0
    } else {
        counted_entries(rs.drop_last()) + rs.last().count
    }
}

/// The total size the runs sum up.
pub open spec fn counted_size(rs: Seq<Run>) -> nat
    decreases rs.len(),
{
    if rs.len() == 0 {
        0
    } else {
        counted_size(rs.drop_last()) + rs.last().total
    }
}

/// Grouping loses and duplicates nothing: the runs count every entry once and sum every size
/// once.
pub proof fn lemma_runs_cover(ds: Seq<FileDescView>)
    ensures
        counted_entries(runs(ds)) == ds.len(),
        counted_size(runs(ds)) == total_size_of(ds),
    decreases ds.len(),
{
    if ds.len() > 0 {
        let d = ds.drop_last();
        lemma_runs_cover(d);
        lemma_runs_shape(d);
        let rest = runs(d);
        let i = ds.len() - 1;
        if i > 0 && ds[i].name == ds[i - 1].name {
            let rs = runs(ds);
            assert(rs.drop_last() =~= rest.drop_last());
        } else {
            assert(runs(ds).drop_last() =~= rest);
        }
    }
}

/// The position of the first entry of a run.
pub open spec fn run_start(r: Run) -> int {
    r.last - r.count + 1
}

/// The runs follow each other without gap: the first starts at the first entry and each one
/// starts right after the one before it.
pub proof fn lemma_runs_contiguous(ds: Seq<FileDescView>)
    ensures
        runs(ds).len() > 0 ==> run_start(runs(ds)[0]) == 0,
        forall|k: int| 0 < k < runs(ds).len() ==> run_start(#[trigger] runs(ds)[k]) == runs(ds)[k - 1].last + 1,
    decreases ds.len(),
{
    if ds.len() > 0 {
        let d = ds.drop_last();
        lemma_runs_contiguous(d);
        lemma_runs_shape(d);
        let rest = runs(d);
        let rs = runs(ds);
        let i = ds.len() - 1;
        if i > 0 && ds[i].name == ds[i - 1].name {
            assert forall|k: int| 0 < k < rs.len() implies run_start(#[trigger] rs[k]) == rs[k - 1].last + 1 by {
                if k < rs.len() - 1 {
                    assert(rs[k] == rest[k]);
                }
                assert(rs[k - 1] == rest[k - 1]);
            }
        } else {
            assert forall|k: int| 0 < k < rs.len() implies run_start(#[trigger] rs[k]) == rs[k - 1].last + 1 by {
                if k < rs.len() - 1 {
                    assert(rs[k] == rest[k]);
                }
                assert(rs[k - 1] == rest[k - 1]);
            }
        }
    }
}

/// Every entry of a run belongs to the crate of the run's last entry.
pub proof fn lemma_runs_uniform(ds: Seq<FileDescView>, k: int, j: int)
    requires
        0 <= k < runs(ds).len(),
        run_start(runs(ds)[k]) <= j <= runs(ds)[k].last,
    ensures
        0 <= j < ds.len(),
        ds[j].name == ds[runs(ds)[k].last].name,
    decreases ds.len(),
{
    let d = ds.drop_last();
    lemma_runs_shape(ds);
    lemma_runs_shape(d);
    lemma_runs_contiguous(ds);
    lemma_runs_counted(ds);
    let rest = runs(d);
    let rs = runs(ds);
    let i = ds.len() - 1;
    if k > 0 {
        assert(run_start(rs[k]) == rs[k - 1].last + 1);
        assert(rs[k - 1].last >= 0);
    }
    if j < i {
        assert(d[j] == ds[j]);
    }
    if i > 0 && ds[i].name == ds[i - 1].name {
        if k < rs.len() - 1 {
            assert(rs[k] == rest[k]);
            lemma_runs_uniform(d, k, j);
            assert(d[rest[k].last] == ds[rest[k].last]);
        } else if j < i {
            assert(rest.last().last == i - 1);
            assert(run_start(rs[k]) == run_start(rest.last()));
            lemma_runs_uniform(d, rest.len() - 1, j);
            assert(d[i - 1] == ds[i - 1]);
        }
    } else {
        if k < rs.len() - 1 {
            assert(rs[k] == rest[k]);
            lemma_runs_uniform(d, k, j);
            assert(d[rest[k].last] == ds[rest[k].last]);
        }
    }
}

/// Neighbouring runs belong to different crates: the first entry of a run and the last entry of
/// the run before it have different crate names.
pub proof fn lemma_runs_separated(ds: Seq<FileDescView>, k: int)
    requires
        0 < k < runs(ds).len(),
    ensures
        ds[runs(ds)[k - 1].last].name != ds[run_start(runs(ds)[k])].name,
    decreases ds.len(),
{
    let d = ds.drop_last();
    let rest = runs(d);
    let rs = runs(ds);
    let i = ds.len() - 1;
    lemma_runs_shape(d);
    lemma_runs_contiguous(ds);
    assert(rs[k - 1] == rest[k - 1]);
    let a = rs[k - 1].last;
    let b = run_start(rs[k]);
    assert(b == a + 1);
    assert(0 <= a < d.len());
    assert(d[a] == ds[a]);
    if k < rest.len() && rs[k] == rest[k] {
        lemma_runs_counted(d);
        assert(b <= rest[k].last);
        lemma_runs_separated(d, k);
        assert(d[b] == ds[b]);
    } else if k < rest.len() {
        // the last run was extended by the last entry
        assert(k == rest.len() - 1);
        assert(rest.last().last == i - 1);
        lemma_runs_counted(d);
        lemma_runs_contiguous(d);
        assert(run_start(rs[k]) == run_start(rest.last()));
        lemma_runs_separated(d, k);
        assert(d[b] == ds[b]);
    } else {
        assert(rest.last().last == i - 1);
    }
}

} // verus!
