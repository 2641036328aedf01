//! The bare git repositories that take the most space, counted per repository.
use vstd::prelude::*;

use crate::human::{decimal_file_size, human_size};
use crate::order::{is_order_by, name_before, name_order, order_by_name, string_views};
use crate::paths::{before_last_dash, chars_before_last_dash, split_chars, split_on};
use crate::text::{
    chars_of, decimal, lemma_seq_max_take, pad_left, pad_right, push_char, push_decimal,
    push_padded_left, push_padded_right, push_str, seq_max, str_len, string_len, string_of,
};
use crate::top_items::common::{
    can_group, copy_string, count_list_to_string, count_listing, crate_stats, desc_views, group_by_crate,
    lemma_crate_stats_counted, stats_views, summary_of, summary_text, CrateStatsView, FileDesc,
    FileDescView, NameRule,
};

verus! {

/// The name a bare repository is listed under: the last piece of its path split at `/`, up to
/// its last `-` (`<name>-<hash>`).
pub open spec fn bare_repo_name(path: Seq<char>) -> Seq<char> {
    before_last_dash(split_on(path, '/').last())
}

impl FileDesc {
    /// Describes the bare repository at `path` of `size` bytes, named after the repository.
    pub fn new_from_git_bare(path: &str, size: u64) -> (d: FileDesc)
        ensures
            d@.path == path@,
            d@.name == bare_repo_name(path@),
            d@.size == size,
    {
        let cs = chars_of(path);
        let pieces = split_chars(&cs, '/');
        proof {
            crate::paths::lemma_split_on_nonempty(path@, '/');
        }
        let last = &pieces[pieces.len() - 1];
        assert(last@ == split_on(path@, '/').last());
        let mut p = String::new();
        push_str(&mut p, path);
        FileDesc { path: p, name: string_of(&chars_before_last_dash(last)), size }
    }
}

/// `s` preceded by zeros up to `width` characters (`format!("{:0>width$}", s)`).
pub open spec fn zero_padded(s: Seq<char>, width: nat) -> Seq<char> {
    if s.len() < width {
        Seq::new((width - s.len()) as nat, |i: int| '0') + s
    } else {
        s
    }
}

/// One line of the repository listing: the total size zero-padded to 20 digits (the sort key),
/// the name padded to `width`, the count, the average and the total size.
pub open spec fn bare_line(s: CrateStatsView, width: nat) -> Seq<char> {
    zero_padded(decimal(s.total_size as nat), 20) + " "@ + pad_right(s.name, width) + " src ckt: "@
        + pad_right(decimal(s.counter as nat), 3) + " "@ + pad_right(
        "src avg: "@ + pad_left(decimal_file_size((s.total_size / (s.counter as u64)) as u64), 9),
        20,
    ) + "  total: "@ + decimal_file_size(s.total_size) + "\n"@
}

/// No entry is said to be on disk (bare repositories are named as described).
pub open spec fn none_on_disk(n: nat) -> Seq<bool> {
    Seq::new(n, |i: int| false)
}

/// The byte lengths of the names of the entries.
pub open spec fn desc_name_lens(ds: Seq<FileDescView>) -> Seq<nat> {
    ds.map_values(|d: FileDescView| str_len(d.name) as nat)
}

/// The lines of the repositories, one per run of the same repository, in order, with names
/// padded to the widest name.
pub open spec fn bare_lines(ds: Seq<FileDescView>) -> Seq<Seq<char>> {
    crate_stats(ds, none_on_disk(ds.len()), NameRule::Described).map_values(
        |s: CrateStatsView| bare_line(s, seq_max(desc_name_lens(ds))),
    )
}

/// The strings sorted largest first (`sort` then `reverse`).
pub open spec fn sorted_desc(lines: Seq<Seq<char>>) -> Seq<Seq<char>> {
    name_order(lines).map_values(|i: int| lines[i]).reverse()
}

/// Sorts the strings, largest first.
pub fn sort_desc(lines: Vec<String>) -> (r: Vec<String>)
    ensures
        string_views(r@) == sorted_desc(string_views(lines@)),
{
    let ghost v = string_views(lines@);
    let order = order_by_name(&lines);
    let ghost op = order@.map_values(|i: usize| i as int);
    assert(is_order_by(op, lines@.len() as int, name_before(v)));
    let ghost asc = op.map_values(|i: int| v[i]);
    let mut r: Vec<String> = Vec::new();
    let mut k: usize = order.len();
    while k > 0
        invariant
            k <= order.len(),
            order@.len() == lines@.len(),
            v == string_views(lines@),
            op == order@.map_values(|i: usize| i as int),
            op == name_order(v),
            is_order_by(op, lines@.len() as int, name_before(v)),
            asc == op.map_values(|i: int| v[i]),
            string_views(r@) == asc.reverse().take(order.len() - k),
        decreases k,
    {
        let idx = order[k - 1];
        assert(op[k - 1] == idx as int);
        assert(0 <= op[k - 1] < lines@.len());
        let ghost before = string_views(r@);
        r.push(copy_string(&lines[idx]));
        assert(string_views(r@) =~= asc.reverse().take(order.len() - k + 1)) by {
            assert(string_views(r@) =~= before.push(v[idx as int]));
            assert(asc.reverse()[order.len() - k] == asc[k - 1]);
        }
        k = k - 1;
    }
    assert(asc.reverse().take(order.len() as int) =~= asc.reverse());
    r
}

/// The lines of the repositories of `file_descs` (listed in order, one line per run of the same
/// repository), sorted largest total first.
pub fn stats_from_file_desc_list(file_descs: Vec<FileDesc>) -> (r: Vec<String>)
    requires
        can_group(desc_views(file_descs@), none_on_disk(file_descs@.len()), NameRule::Described),
    ensures
        string_views(r@) == sorted_desc(bare_lines(desc_views(file_descs@))),
{
    let ghost ds = desc_views(file_descs@);
    let mut on_disk: Vec<bool> = Vec::new();
    let mut i: usize = 0;
    while i < file_descs.len()
        invariant
            i <= file_descs.len(),
            on_disk@ == none_on_disk(i as nat),
        decreases file_descs.len() - i,
    {
        on_disk.push(false);
        assert(on_disk@ =~= none_on_disk((i + 1) as nat));
        i = i + 1;
    }
    let ghost lens = desc_name_lens(ds);
    let mut width: usize = 0;
    let mut j: usize = 0;
    while j < file_descs.len()
        invariant
            j <= file_descs.len(),
            ds == desc_views(file_descs@),
            lens == desc_name_lens(ds),
            width == seq_max(lens.take(j as int)),
        decreases file_descs.len() - j,
    {
        proof {
            lemma_seq_max_take(lens, j as int);
        }
        let l = string_len(&file_descs[j].name);
        assert(lens[j as int] == l as nat);
        if l > width {
            width = l;
        }
        j = j + 1;
    }
    assert(lens.take(file_descs.len() as int) =~= lens);
    let stats = group_by_crate(&file_descs, &on_disk, NameRule::Described);
    let ghost ss = stats_views(stats@);
    proof {
        lemma_crate_stats_counted(ds, on_disk@, NameRule::Described);
    }
    let mut lines: Vec<String> = Vec::new();
    let mut k: usize = 0;
    while k < stats.len()
        invariant
            k <= stats.len(),
            ss == stats_views(stats@),
            ss == crate_stats(ds, none_on_disk(ds.len()), NameRule::Described),
            crate::top_items::common::all_counted(ss),
            width == seq_max(desc_name_lens(ds)),
            string_views(lines@) == bare_lines(ds).take(k as int),
        decreases stats.len() - k,
    {
        let s = &stats[k];
        assert(ss[k as int] == s@);
        assert(s.counter > 0);
        let mut line = String::new();
        let mut digits = String::new();
        push_decimal(&mut digits, s.total_size);
        let dcs = chars_of(digits.as_str());
        proof {
            crate::text::lemma_decimal_len_u64(s.total_size);
        }
        let mut z: usize = dcs.len();
        while z < 20
            invariant
                dcs.len() <= z <= 20,
                line@ == Seq::new((z - dcs.len()) as nat, |i: int| '0'),
            decreases 20 - z,
        {
            push_char(&mut line, '0');
            assert(line@ =~= Seq::new((z + 1 - dcs.len()) as nat, |i: int| '0'));
            z = z + 1;
        }
        push_str(&mut line, digits.as_str());
        assert(line@ =~= zero_padded(decimal(s.total_size as nat), 20)) by {
            if dcs.len() >= 20 {
                assert(line@ =~= digits@);
            }
        }
        push_str(&mut line, " ");
        push_padded_right(&mut line, s.name.as_str(), width);
        push_str(&mut line, " src ckt: ");
        let mut count = String::new();
        push_decimal(&mut count, s.counter as u64);
        push_padded_right(&mut line, count.as_str(), 3);
        push_str(&mut line, " ");
        let avg = human_size(s.total_size / (s.counter as u64));
        let mut avg_string = String::new();
        push_str(&mut avg_string, "src avg: ");
        push_padded_left(&mut avg_string, avg.as_str(), 9);
        push_padded_right(&mut line, avg_string.as_str(), 20);
        push_str(&mut line, "  total: ");
        let total = human_size(s.total_size);
        push_str(&mut line, total.as_str());
        push_str(&mut line, "\n");
        assert(line@ =~= bare_line(s@, width as nat));
        let ghost before = string_views(lines@);
        lines.push(line);
        assert(string_views(lines@) =~= bare_lines(ds).take(k + 1)) by {
            assert(string_views(lines@) =~= before.push(bare_line(ss[k as int], width as nat)));
        }
        k = k + 1;
    }
    assert(bare_lines(ds).take(stats.len() as int) =~= bare_lines(ds));
    sort_desc(lines)
}

/// The summary of the bare repositories in the directory `path` (which take `total_size` bytes
/// and are described by `file_descs`): like the other parts, a table of the repositories with the
/// most space taken, counted per repository.
pub fn git_repos_bare_stats(
    path: &str,
    dir_exists: bool,
    total_size: u64,
    limit: u32,
    file_descs: Vec<FileDesc>,
) -> (r: String)
    requires
        dir_exists ==> can_group(desc_views(file_descs@), none_on_disk(file_descs@.len()), NameRule::Described),
    ensures
        r@ == summary_of(
            path@,
            dir_exists,
            total_size,
            count_listing(crate_stats(desc_views(file_descs@), none_on_disk(file_descs@.len()), NameRule::Described), limit),
        ),
{
    if !dir_exists {
        return String::new();
    }
    let ghost ds = desc_views(file_descs@);
    let mut on_disk: Vec<bool> = Vec::new();
    let mut i: usize = 0;
    while i < file_descs.len()
        invariant
            i <= file_descs.len(),
            on_disk@ == none_on_disk(i as nat),
        decreases file_descs.len() - i,
    {
        on_disk.push(false);
        assert(on_disk@ =~= none_on_disk((i + 1) as nat));
        i = i + 1;
    }
    let stats = group_by_crate(&file_descs, &on_disk, NameRule::Described);
    proof {
        lemma_crate_stats_counted(ds, on_disk@, NameRule::Described);
    }
    let listing = count_list_to_string(limit, &stats);
    summary_text(path, total_size, &listing)
}

} // verus!
