//! The sccache cache, summarized per day of last access: how many files were last used on each
//! day and how much space they take.
use vstd::prelude::*;

use crate::human::{decimal_file_size, human_size};
use crate::order::{asc_order, is_order_by, asc_before, order_by_key_asc};
use crate::tables::{format_table, table_text};
use crate::text::{chars_of, decimal, push_char, push_str, string_of, trim, trimmed, u64_to_string};
use crate::top_items::common::{copy_string, string_from};
use crate::top_items::git_repos_bare::zero_padded;

verus! {

/// A calendar day.
#[derive(PartialEq, Eq, Structural, Clone, Copy, Debug)]
pub struct Day {
    pub year: i32,
    pub month: u32,
    pub day: u32,
}

/// A number that orders days as the calendar does (for valid days).
pub open spec fn day_key(d: Day) -> u64 {
    ((d.year as int + 2147483648) * 512 + d.month as int * 32 + d.day as int) as u64
}

/// A day as `chrono::NaiveDate` displays it: `YYYY-MM-DD`, with a sign and at least four digits
/// for years outside 0 to 9999.
pub open spec fn day_text(d: Day) -> Seq<char> {
    let y = if 0 <= d.year <= 9999 {
        zero_padded(decimal(d.year as nat), 4)
    } else if d.year < 0 {
        seq!['-'] + zero_padded(decimal((-(d.year as int)) as nat), 4)
    } else {
        seq!['+'] + zero_padded(decimal(d.year as nat), 4)
    };
    y + "-"@ + zero_padded(decimal(d.month as nat), 2) + "-"@ + zero_padded(decimal(d.day as nat), 2)
}

fn push_zero_padded(s: &mut String, n: u64, width: usize)
    requires
        width <= 20,
    ensures
        final(s)@ == old(s)@ + zero_padded(decimal(n as nat), width as nat),
{
    let digits = u64_to_string(n);
    let dcs = chars_of(digits.as_str());
    proof {
        crate::text::lemma_decimal_len_u64(n);
    }
    let ghost start = s@;
    let mut z: usize = dcs.len();
    while z < width
        invariant
            dcs.len() <= 20,
            width <= 20,
            z >= dcs.len(),
            z <= width || z == dcs.len(),
            s@ == start + Seq::new((z - dcs.len()) as nat, |i: int| '0'),
        decreases width - z,
    {
        push_char(s, '0');
        assert(s@ =~= start + Seq::new((z + 1 - dcs.len()) as nat, |i: int| '0'));
        z = z + 1;
    }
    push_str(s, digits.as_str());
    assert(s@ =~= start + zero_padded(decimal(n as nat), width as nat)) by {
        if dcs.len() >= width {
            assert(Seq::new((z - dcs.len()) as nat, |i: int| '0') =~= Seq::<char>::empty());
        }
    }
}

/// The day as `chrono::NaiveDate` displays it.
pub fn day_to_string(d: Day) -> (s: String)
    ensures
        s@ == day_text(d),
{
    let mut s = String::new();
    if 0 <= d.year && d.year <= 9999 {
        push_zero_padded(&mut s, d.year as u64, 4);
    } else if d.year < 0 {
        push_char(&mut s, '-');
        let magnitude: u64 = (-(d.year as i64)) as u64;
        push_zero_padded(&mut s, magnitude, 4);
    } else {
        push_char(&mut s, '+');
        push_zero_padded(&mut s, d.year as u64, 4);
    }
    push_str(&mut s, "-");
    push_zero_padded(&mut s, d.month as u64, 2);
    push_str(&mut s, "-");
    push_zero_padded(&mut s, d.day as u64, 2);
    s
}

/// A file of the sccache cache: the day it was last accessed and its size (`None` when it could
/// not be read).
#[derive(Clone, Copy)]
pub struct SccacheFile {
    pub day: Day,
    pub size: Option<u64>,
}

/// How many files were last accessed on a day, and their size.
#[derive(PartialEq, Eq, Structural, Clone, Copy, Debug)]
pub struct DayStat {
    pub day: Day,
    pub files: u64,
    pub size: u64,
}

/// The size a file counts with: nothing when it could not be read.
pub open spec fn size_or_zero(f: SccacheFile) -> nat {
    match f.size {
        Some(s) => s as nat,
        None => 0,
    }
}

/// The sum of the sizes of the files.
pub open spec fn files_size(fs: Seq<SccacheFile>) -> nat
    decreases fs.len(),
{
    if fs.len() == 0 {
        0
    } else {
        files_size(fs.drop_last()) + size_or_zero(fs.last())
    }
}

/// The day keys of the files.
pub open spec fn file_keys(fs: Seq<SccacheFile>) -> Seq<u64> {
    fs.map_values(|f: SccacheFile| day_key(f.day))
}

/// The files sorted by day, keeping the order of files of the same day.
pub open spec fn files_by_day(fs: Seq<SccacheFile>) -> Seq<SccacheFile> {
    asc_order(file_keys(fs)).map_values(|i: int| fs[i])
}

/// The statistics of a list of files sorted by day: one per run of files of the same day,
/// counting them and summing their sizes.
pub open spec fn day_runs(fs: Seq<SccacheFile>) -> Seq<DayStat>
    decreases fs.len(),
{
    if fs.len() == 0 {
        seq![]
    } else {
        let rest = day_runs(fs.drop_last());
        let f = fs.last();
        if fs.len() > 1 && fs[fs.len() - 2].day == f.day {
            let r = rest.last();
            rest.update(
                rest.len() - 1,
                DayStat { day: r.day, files: (r.files + 1) as u64, size: (r.size + size_or_zero(f)) as u64 },
            )
        } else {
            rest.push(DayStat { day: f.day, files: 1, size: size_or_zero(f) as u64 })
        }
    }
}

/// The statistics per day of the files, earliest day first.
pub open spec fn day_stats(fs: Seq<SccacheFile>) -> Seq<DayStat> {
    day_runs(files_by_day(fs))
}

/// Runs of a non-empty list end at its last file, and the last run sums at most the sizes.
proof fn lemma_day_runs_shape(fs: Seq<SccacheFile>)
    ensures
        fs.len() > 0 <==> day_runs(fs).len() > 0,
        fs.len() > 0 ==> day_runs(fs).last().day == fs.last().day,
        fs.len() > 0 ==> day_runs(fs).last().size <= files_size(fs),
        fs.len() > 0 ==> day_runs(fs).last().files <= fs.len(),
    decreases fs.len(),
{
    if fs.len() > 0 {
        lemma_day_runs_shape(fs.drop_last());
    }
}

/// Sorting by day keeps the sum of the sizes.
proof fn lemma_files_size_perm(fs: Seq<SccacheFile>, p: Seq<int>, n: int)
    requires
        crate::order::is_permutation(p, fs.len() as int),
        0 <= n <= p.len(),
    ensures
        files_size(p.take(n).map_values(|i: int| fs[i])) <= files_size(fs),
{
    lemma_sum_distinct(fs, p, n, fs.len() as int);
    assert(fs.take(fs.len() as int) =~= fs);
}

/// The sizes of distinct files among the first `m` sum to at most their total.
proof fn lemma_sum_distinct(fs: Seq<SccacheFile>, p: Seq<int>, n: int, m: int)
    requires
        0 <= n <= p.len(),
        0 <= m <= fs.len(),
        forall|a: int| 0 <= a < n ==> 0 <= #[trigger] p[a] < m,
        forall|a: int, b: int| 0 <= a < b < n ==> p[a] != p[b],
    ensures
        files_size(p.take(n).map_values(|i: int| fs[i])) <= files_size(fs.take(m)),
    decreases m, n,
{
    let sel = p.take(n).map_values(|i: int| fs[i]);
    if n == 0 {
        assert(sel.len() == 0);
    } else if m == 0 {
        assert(0 <= p[0] < m);
    } else {
        let last = m - 1;
        assert(fs.take(m).drop_last() =~= fs.take(last));
        if exists|a: int| 0 <= a < n && p[a] == last {
            let a = choose|a: int| 0 <= a < n && p[a] == last;
            let q = p.take(a) + p.subrange(a + 1, n);
            assert forall|x: int| 0 <= x < n - 1 implies 0 <= #[trigger] q[x] < last by {
                if x < a {
                    assert(q[x] == p[x]);
                    assert(p[x] != p[a]);
                } else {
                    assert(q[x] == p[x + 1]);
                    assert(p[x + 1] != p[a]);
                }
            }
            assert forall|x: int, y: int| 0 <= x < y < n - 1 implies q[x] != q[y] by {
                if y < a {
                    assert(q[x] == p[x] && q[y] == p[y]);
                } else if x < a {
                    assert(q[x] == p[x] && q[y] == p[y + 1]);
                } else {
                    assert(q[x] == p[x + 1] && q[y] == p[y + 1]);
                }
            }
            lemma_sum_distinct(fs, q, n - 1, last);
            let selq = q.take(n - 1).map_values(|i: int| fs[i]);
            lemma_sum_without(sel, a);
            assert(sel.take(a) + sel.subrange(a + 1, n) =~= selq);
            assert(sel[a] == fs[last]);
        } else {
            lemma_sum_distinct(fs, p, n, last);
        }
    }
}

/// Taking one file out of a list takes its size out of the sum.
proof fn lemma_sum_without(fs: Seq<SccacheFile>, a: int)
    requires
        0 <= a < fs.len(),
    ensures
        files_size(fs) == files_size(fs.take(a) + fs.subrange(a + 1, fs.len() as int)) + size_or_zero(fs[a]),
    decreases fs.len(),
{
    let rest = fs.take(a) + fs.subrange(a + 1, fs.len() as int);
    if a == fs.len() - 1 {
        assert(rest =~= fs.drop_last());
    } else {
        let d = fs.drop_last();
        lemma_sum_without(d, a);
        assert(rest.drop_last() =~= d.take(a) + d.subrange(a + 1, d.len() as int));
        assert(rest.last() == fs.last());
    }
}

/// The statistics per day of the sccache files, earliest day first.
pub fn sccache_days(files: &Vec<SccacheFile>) -> (r: Vec<DayStat>)
    requires
        files_size(files@) <= u64::MAX,
        files@.len() <= u64::MAX,
    ensures
        r@ == day_stats(files@),
{
    let ghost fs = files@;
    let mut keys: Vec<u64> = Vec::new();
    let mut i: usize = 0;
    while i < files.len()
        invariant
            i <= files.len(),
            fs == files@,
            keys@ == file_keys(fs).take(i as int),
        decreases files.len() - i,
    {
        keys.push(day_key_of(&files[i].day));
        assert(keys@ =~= file_keys(fs).take(i + 1));
        i = i + 1;
    }
    assert(keys@ =~= file_keys(fs));
    let order = order_by_key_asc(&keys);
    let ghost p = asc_order(file_keys(fs));
    let ghost sorted = files_by_day(fs);
    let mut r: Vec<DayStat> = Vec::new();
    let mut k: usize = 0;
    while k < order.len()
        invariant
            k <= order.len(),
            order@.len() == fs.len(),
            fs == files@,
            order@.map_values(|i: usize| i as int) == p,
            p == asc_order(file_keys(fs)),
            is_order_by(p, fs.len() as int, asc_before(file_keys(fs))),
            sorted == files_by_day(fs),
            files_size(fs) <= u64::MAX,
            fs.len() <= u64::MAX,
            r@ == day_runs(sorted.take(k as int)),
        decreases order.len() - k,
    {
        assert(p[k as int] == order@[k as int] as int);
        let f = files[order[k]];
        assert(sorted[k as int] == f);
        let ghost t = sorted.take(k + 1);
        assert(t.drop_last() =~= sorted.take(k as int));
        assert(t.last() == f);
        proof {
            lemma_day_runs_shape(sorted.take(k as int));
            lemma_files_size_perm(fs, p, k + 1);
            assert(p.take(k + 1).map_values(|i: int| fs[i]) =~= t);
            lemma_day_runs_shape(t);
        }
        let size: u64 = match f.size {
            Some(s) => s,
            None => 0,
        };
        if k > 0 && files[order[k - 1]].day == f.day {
            assert(p[k - 1] == order@[k - 1] as int);
            assert(t[k - 1] == sorted[k - 1]);
            let last = r.len() - 1;
            let prev = r[last];
            assert(r@.last() == prev);
            let updated = DayStat { day: prev.day, files: prev.files + 1, size: prev.size + size };
            r.set(last, updated);
        } else {
            r.push(DayStat { day: f.day, files: 1, size });
        }
        k = k + 1;
    }
    assert(sorted.take(order.len() as int) =~= sorted);
    r
}

/// The key that orders the day.
fn day_key_of(d: &Day) -> (k: u64)
    ensures
        k == day_key(*d),
{
    let y: u64 = (d.year as i64 + 2147483648i64) as u64;
    y * 512 + (d.month as u64) * 32 + d.day as u64
}

/// The sum of the sizes of the days.
pub open spec fn days_size(days: Seq<DayStat>) -> nat
    decreases days.len(),
{
    if days.len() == 0 {
        0
    } else {
        days_size(days.drop_last()) + days.last().size as nat
    }
}

/// The number of files of the days.
pub open spec fn days_files(days: Seq<DayStat>) -> nat
    decreases days.len(),
{
    if days.len() == 0 {
        0
    } else {
        days_files(days.drop_last()) + days.last().files as nat
    }
}

/// A row of four empty cells.
pub open spec fn empty_row() -> Seq<Seq<char>> {
    seq![seq![], seq![], seq![], seq![]]
}

/// The row of a day: its files, the day, their size and the share of the cache given.
pub open spec fn day_row(d: DayStat, percentage: Seq<char>) -> Seq<Seq<char>> {
    seq![decimal(d.files as nat), day_text(d.day), decimal_file_size(d.size), percentage]
}

/// The table of the sccache summary: a header, a row per day, an empty row, and the totals.
pub open spec fn sccache_rows(days: Seq<DayStat>, percentages: Seq<Seq<char>>) -> Seq<Seq<Seq<char>>> {
    seq![seq!["Files"@, "Day"@, "Size"@, "Percentage"@]] + Seq::new(
        days.len(),
        |k: int| day_row(days[k], percentages[k]),
    ) + seq![
        empty_row(),
        seq!["Total"@, seq![], seq![], seq![]],
        seq![decimal(days_files(days)), seq![], decimal_file_size(days_size(days) as u64), "100 %"@],
    ]
}

/// The sccache summary: the table of the days (`percentages` gives the share of the cache of
/// each day), trimmed.
pub fn sccache_table(days: &Vec<DayStat>, percentages: &Vec<String>) -> (r: String)
    requires
        percentages.len() == days.len(),
        days_size(days@) <= u64::MAX,
        days_files(days@) <= u64::MAX,
    ensures
        r@ == trim(table_text(sccache_rows(days@, crate::paths::str_views(percentages@)), 1)),
{
    let ghost pv = crate::paths::str_views(percentages@);
    let mut table: Vec<Vec<String>> = Vec::new();
    proof {
        reveal_strlit("Files");
        reveal_strlit("Day");
        reveal_strlit("Size");
        reveal_strlit("Percentage");
        reveal_strlit("Total");
        reveal_strlit("100 %");
        reveal_strlit("");
    }
    table.push(vec![string_from("Files"), string_from("Day"), string_from("Size"), string_from("Percentage")]);
    assert(table.deep_view()[0] =~= seq!["Files"@, "Day"@, "Size"@, "Percentage"@]);
    assert(table.deep_view() =~= seq![seq!["Files"@, "Day"@, "Size"@, "Percentage"@]] + Seq::new(
        0 as nat,
        |j: int| day_row(days@[j], pv[j]),
    ));
    let mut total_size: u64 = 0;
    let mut total_files: u64 = 0;
    let mut k: usize = 0;
    while k < days.len()
        invariant
            k <= days.len(),
            percentages.len() == days.len(),
            pv == crate::paths::str_views(percentages@),
            days_size(days@) <= u64::MAX,
            days_files(days@) <= u64::MAX,
            total_size == days_size(days@.take(k as int)),
            total_files == days_files(days@.take(k as int)),
            table.deep_view() =~= seq![seq!["Files"@, "Day"@, "Size"@, "Percentage"@]] + Seq::new(
                k as nat,
                |j: int| day_row(days@[j], pv[j]),
            ),
        decreases days.len() - k,
    {
        let d = days[k];
        assert(days@.take(k + 1).drop_last() =~= days@.take(k as int));
        proof {
            lemma_days_prefix(days@, k + 1);
        }
        total_size = total_size + d.size;
        total_files = total_files + d.files;
        let row = vec![u64_to_string(d.files), day_to_string(d.day), human_size(d.size), copy_string(&percentages[k])];
        assert(row.deep_view() =~= day_row(days@[k as int], pv[k as int]));
        let ghost before = table.deep_view();
        table.push(row);
        assert(table.deep_view() =~= before.push(day_row(days@[k as int], pv[k as int])));
        k = k + 1;
    }
    assert(days@.take(days.len() as int) =~= days@);
    let ghost body = table.deep_view();
    let empty = vec![String::new(), String::new(), String::new(), String::new()];
    assert(empty.deep_view() =~= empty_row());
    table.push(empty);
    let total_label = vec![string_from("Total"), String::new(), String::new(), String::new()];
    assert(total_label.deep_view() =~= seq!["Total"@, seq![], seq![], seq![]]);
    table.push(total_label);
    let totals = vec![u64_to_string(total_files), String::new(), human_size(total_size), string_from("100 %")];
    assert(totals.deep_view() =~= seq![decimal(days_files(days@)), seq![], decimal_file_size(days_size(days@) as u64), "100 %"@]);
    table.push(totals);
    assert(table.deep_view() =~= body.push(empty_row()).push(seq!["Total"@, seq![], seq![], seq![]]).push(
        seq![decimal(days_files(days@)), seq![], decimal_file_size(days_size(days@) as u64), "100 %"@],
    ));
    assert(table.deep_view() =~= sccache_rows(days@, pv));
    assert forall|r: int| 0 <= r < table.deep_view().len() implies #[trigger] table.deep_view()[r].len() <= table.deep_view()[0].len() by {}
    let text = format_table(&table, 1);
    let cs = chars_of(text.as_str());
    string_of(&trimmed(&cs))
}

/// The sums over a prefix are at most the sums over the whole list.
proof fn lemma_days_prefix(days: Seq<DayStat>, i: int)
    requires
        0 <= i <= days.len(),
    ensures
        days_size(days.take(i)) <= days_size(days),
        days_files(days.take(i)) <= days_files(days),
    decreases days.len() - i,
{
    if i < days.len() {
        lemma_days_prefix(days, i + 1);
        assert(days.take(i + 1).drop_last() =~= days.take(i));
    } else {
        assert(days.take(i) =~= days);
    }
}

} // verus!
