//! Sizes and counts of the parts of a cargo cache, and the summaries printed from them.
use vstd::prelude::*;

use crate::human::{decimal_file_size, human_size, human_size_signed};
use crate::tables::{
    aligned_right_column, lemma_two_row_fits, line_views, two_row_table, two_row_text, LineView,
    TableLine,
};
use crate::library::{opt_str_view, CargoCachePaths, CargoCachePathsView};
use crate::order::{sorted_distinct, sorted_distinct_strings, string_views};
use crate::text::{
    byte_len, decimal, lemma_ascii_byte_len, lemma_byte_len_bounds, lemma_byte_len_concat,
    lemma_decimal_len_u64, push_decimal, push_str,
};

verus! {

/// Total size and number of files of a directory.
pub struct DirInfo {
    /// Size of the directory in bytes.
    pub dir_size: u64,
    /// Number of files in the directory.
    pub file_number: u64,
}

/// The mathematical content of a `DirSizes`.
pub struct DirSizesView {
    pub total_size: u64,
    pub numb_bins: usize,
    pub total_bin_size: u64,
    pub total_reg_size: u64,
    pub total_git_db_size: u64,
    pub total_git_repos_bare_size: u64,
    pub numb_git_repos_bare_repos: usize,
    pub numb_git_checkouts: usize,
    pub total_git_chk_size: u64,
    pub total_reg_cache_size: u64,
    pub total_reg_src_size: u64,
    pub total_reg_index_size: u64,
    pub total_reg_index_num: u64,
    pub numb_reg_cache_entries: usize,
    pub numb_reg_src_checkouts: usize,
    pub root_path: Seq<char>,
}

/// Sizes and numbers of files of the components of a cargo cache: a snapshot of its state.
pub struct DirSizes {
    total_size: u64,
    numb_bins: usize,
    total_bin_size: u64,
    total_reg_size: u64,
    total_git_db_size: u64,
    total_git_repos_bare_size: u64,
    numb_git_repos_bare_repos: usize,
    numb_git_checkouts: usize,
    total_git_chk_size: u64,
    total_reg_cache_size: u64,
    total_reg_src_size: u64,
    total_reg_index_size: u64,
    total_reg_index_num: u64,
    numb_reg_cache_entries: usize,
    numb_reg_src_checkouts: usize,
    root_path: String,
}

impl View for DirSizes {
    type V = DirSizesView;

    closed spec fn view(&self) -> DirSizesView {
        DirSizesView {
            total_size: self.total_size,
            numb_bins: self.numb_bins,
            total_bin_size: self.total_bin_size,
            total_reg_size: self.total_reg_size,
            total_git_db_size: self.total_git_db_size,
            total_git_repos_bare_size: self.total_git_repos_bare_size,
            numb_git_repos_bare_repos: self.numb_git_repos_bare_repos,
            numb_git_checkouts: self.numb_git_checkouts,
            total_git_chk_size: self.total_git_chk_size,
            total_reg_cache_size: self.total_reg_cache_size,
            total_reg_src_size: self.total_reg_src_size,
            total_reg_index_size: self.total_reg_index_size,
            total_reg_index_num: self.total_reg_index_num,
            numb_reg_cache_entries: self.numb_reg_cache_entries,
            numb_reg_src_checkouts: self.numb_reg_src_checkouts,
            root_path: self.root_path@,
        }
    }
}

/// The totals are the sums of their parts: the registry of its index, archives and sources, the
/// git database of its bare repos and checkouts, and the whole cache of registry, git and binaries.
pub open spec fn totals_add_up(d: DirSizesView) -> bool {
    &&& d.total_reg_size == d.total_reg_cache_size + d.total_reg_src_size + d.total_reg_index_size
    &&& d.total_git_db_size == d.total_git_repos_bare_size + d.total_git_chk_size
    &&& d.total_size == d.total_reg_size + d.total_git_db_size + d.total_bin_size
}

/// The sum of all six directory sizes fits in a `u64`.
pub open spec fn sizes_fit(
    bin_dir: DirInfo,
    git_repos_bare: DirInfo,
    git_checkouts: DirInfo,
    reg_cache: DirInfo,
    reg_src: DirInfo,
    reg_index: DirInfo,
) -> bool {
    bin_dir.dir_size + git_repos_bare.dir_size + git_checkouts.dir_size + reg_cache.dir_size
        + reg_src.dir_size + reg_index.dir_size <= u64::MAX
}

impl DirSizes {
    #[verifier::type_invariant]
    spec fn well_formed(self) -> bool {
        totals_add_up(self@)
    }

    /// Builds the snapshot from the sizes and file counts of the six cache directories, the number
    /// of registry indices and the path of the cache; the totals are summed from the parts.
    pub fn new(
        bin_dir: &DirInfo,
        git_repos_bare: &DirInfo,
        git_checkouts: &DirInfo,
        reg_cache: &DirInfo,
        reg_src: &DirInfo,
        reg_index: &DirInfo,
        reg_index_num: u64,
        root_path: &str,
    ) -> (d: DirSizes)
        requires
            sizes_fit(*bin_dir, *git_repos_bare, *git_checkouts, *reg_cache, *reg_src, *reg_index),
            bin_dir.file_number <= usize::MAX,
            git_repos_bare.file_number <= usize::MAX,
            git_checkouts.file_number <= usize::MAX,
            reg_cache.file_number <= usize::MAX,
            reg_src.file_number <= usize::MAX,
        ensures
            d@ == (DirSizesView {
                total_size: (reg_index.dir_size + reg_cache.dir_size + reg_src.dir_size
                    + git_repos_bare.dir_size + git_checkouts.dir_size + bin_dir.dir_size) as u64,
                numb_bins: bin_dir.file_number as usize,
                total_bin_size: bin_dir.dir_size,
                total_reg_size: (reg_index.dir_size + reg_cache.dir_size + reg_src.dir_size) as u64,
                total_git_db_size: (git_repos_bare.dir_size + git_checkouts.dir_size) as u64,
                total_git_repos_bare_size: git_repos_bare.dir_size,
                numb_git_repos_bare_repos: git_repos_bare.file_number as usize,
                numb_git_checkouts: git_checkouts.file_number as usize,
                total_git_chk_size: git_checkouts.dir_size,
                total_reg_cache_size: reg_cache.dir_size,
                total_reg_src_size: reg_src.dir_size,
                total_reg_index_size: reg_index.dir_size,
                total_reg_index_num: reg_index_num,
                numb_reg_cache_entries: reg_cache.file_number as usize,
                numb_reg_src_checkouts: reg_src.file_number as usize,
                root_path: root_path@,
            }),
            totals_add_up(d@),
    {
        let total_reg_size = reg_index.dir_size + reg_cache.dir_size + reg_src.dir_size;
        let total_git_db_size = git_repos_bare.dir_size + git_checkouts.dir_size;
        let mut path = String::new();
        push_str(&mut path, root_path);
        DirSizes {
            total_size: total_reg_size + total_git_db_size + bin_dir.dir_size,
            numb_bins: bin_dir.file_number as usize,
            total_bin_size: bin_dir.dir_size,
            total_reg_size,
            total_git_db_size,
            total_git_repos_bare_size: git_repos_bare.dir_size,
            numb_git_repos_bare_repos: git_repos_bare.file_number as usize,
            total_git_chk_size: git_checkouts.dir_size,
            numb_git_checkouts: git_checkouts.file_number as usize,
            total_reg_cache_size: reg_cache.dir_size,
            numb_reg_cache_entries: reg_cache.file_number as usize,
            total_reg_src_size: reg_src.dir_size,
            numb_reg_src_checkouts: reg_src.file_number as usize,
            total_reg_index_size: reg_index.dir_size,
            total_reg_index_num: reg_index_num,
            root_path: path,
        }
    }

    /// `new` with a single registry index.
    pub fn new_manually(
        bin_dir: &DirInfo,
        git_repos_bare: &DirInfo,
        git_checkouts: &DirInfo,
        reg_cache: &DirInfo,
        reg_src: &DirInfo,
        reg_index: &DirInfo,
        root_path: &str,
    ) -> (d: DirSizes)
        requires
            sizes_fit(*bin_dir, *git_repos_bare, *git_checkouts, *reg_cache, *reg_src, *reg_index),
            bin_dir.file_number <= usize::MAX,
            git_repos_bare.file_number <= usize::MAX,
            git_checkouts.file_number <= usize::MAX,
            reg_cache.file_number <= usize::MAX,
            reg_src.file_number <= usize::MAX,
        ensures
            d@ == (DirSizesView {
                total_size: (reg_index.dir_size + reg_cache.dir_size + reg_src.dir_size
                    + git_repos_bare.dir_size + git_checkouts.dir_size + bin_dir.dir_size) as u64,
                numb_bins: bin_dir.file_number as usize,
                total_bin_size: bin_dir.dir_size,
                total_reg_size: (reg_index.dir_size + reg_cache.dir_size + reg_src.dir_size) as u64,
                total_git_db_size: (git_repos_bare.dir_size + git_checkouts.dir_size) as u64,
                total_git_repos_bare_size: git_repos_bare.dir_size,
                numb_git_repos_bare_repos: git_repos_bare.file_number as usize,
                numb_git_checkouts: git_checkouts.file_number as usize,
                total_git_chk_size: git_checkouts.dir_size,
                total_reg_cache_size: reg_cache.dir_size,
                total_reg_src_size: reg_src.dir_size,
                total_reg_index_size: reg_index.dir_size,
                total_reg_index_num: 1,
                numb_reg_cache_entries: reg_cache.file_number as usize,
                numb_reg_src_checkouts: reg_src.file_number as usize,
                root_path: root_path@,
            }),
            totals_add_up(d@),
    {
        DirSizes::new(bin_dir, git_repos_bare, git_checkouts, reg_cache, reg_src, reg_index, 1, root_path)
    }

    /// Total size of the cache: the sum of the registry, the git database and the binaries. Every
    /// snapshot's totals add up (`totals_add_up`), whichever way it was made.
    pub fn total_size(&self) -> (r: u64)
        ensures
            r == self@.total_size,
            totals_add_up(self@),
    {
        proof {
            use_type_invariant(self);
        }
        self.total_size
    }

    /// Number of installed binaries.
    pub fn numb_bins(&self) -> (r: usize)
        ensures
            r == self@.numb_bins,
    {
        self.numb_bins
    }

    /// Total size of the installed binaries.
    pub fn total_bin_size(&self) -> (r: u64)
        ensures
            r == self@.total_bin_size,
    {
        self.total_bin_size
    }

    /// Total size of the registries (index, archives and sources).
    pub fn total_reg_size(&self) -> (r: u64)
        ensures
            r == self@.total_reg_size,
    {
        self.total_reg_size
    }

    /// Total size of the git database (bare repos and checkouts).
    pub fn total_git_db_size(&self) -> (r: u64)
        ensures
            r == self@.total_git_db_size,
    {
        self.total_git_db_size
    }

    /// Total size of the bare git repos.
    pub fn total_git_repos_bare_size(&self) -> (r: u64)
        ensures
            r == self@.total_git_repos_bare_size,
    {
        self.total_git_repos_bare_size
    }

    /// Number of bare git repos.
    pub fn numb_git_repos_bare_repos(&self) -> (r: usize)
        ensures
            r == self@.numb_git_repos_bare_repos,
    {
        self.numb_git_repos_bare_repos
    }

    /// Number of git checkouts.
    pub fn numb_git_checkouts(&self) -> (r: usize)
        ensures
            r == self@.numb_git_checkouts,
    {
        self.numb_git_checkouts
    }

    /// Total size of the git checkouts.
    pub fn total_git_chk_size(&self) -> (r: u64)
        ensures
            r == self@.total_git_chk_size,
    {
        self.total_git_chk_size
    }

    /// Total size of the registry archives (`.crate` files).
    pub fn total_reg_cache_size(&self) -> (r: u64)
        ensures
            r == self@.total_reg_cache_size,
    {
        self.total_reg_cache_size
    }

    /// Total size of the extracted registry sources.
    pub fn total_reg_src_size(&self) -> (r: u64)
        ensures
            r == self@.total_reg_src_size,
    {
        self.total_reg_src_size
    }

    /// Total size of the registry indices.
    pub fn total_reg_index_size(&self) -> (r: u64)
        ensures
            r == self@.total_reg_index_size,
    {
        self.total_reg_index_size
    }

    /// Number of registry indices.
    pub fn total_reg_index_num(&self) -> (r: u64)
        ensures
            r == self@.total_reg_index_num,
    {
        self.total_reg_index_num
    }

    /// Number of registry archives.
    pub fn numb_reg_cache_entries(&self) -> (r: usize)
        ensures
            r == self@.numb_reg_cache_entries,
    {
        self.numb_reg_cache_entries
    }

    /// Number of registry source checkouts.
    pub fn numb_reg_src_checkouts(&self) -> (r: usize)
        ensures
            r == self@.numb_reg_src_checkouts,
    {
        self.numb_reg_src_checkouts
    }

    /// Path of the cache.
    pub fn root_path(&self) -> (r: &str)
        ensures
            r@ == self@.root_path,
    {
        self.root_path.as_str()
    }
}

/// A line whose right column is `bytes` in decimal units, aligned as `TableLine::new` aligns it.
pub open spec fn size_line(indent: nat, left: Seq<char>, bytes: u64) -> LineView {
    LineView { indent, left, right: aligned_right_column(decimal_file_size(bytes)) }
}

/// A count followed by a label, as `format!("{} label", n)` writes it.
pub open spec fn counted(n: nat, label: Seq<char>) -> Seq<char> {
    decimal(n) + label
}

/// The heading naming the cache, and its total size.
pub open spec fn header_lines(d: DirSizesView) -> Seq<LineView> {
    seq![
        LineView { indent: 0, left: "Cargo cache '"@ + d.root_path + "':\n\n"@, right: seq![] },
        size_line(0, "Total: "@, d.total_size),
    ]
}

/// Number and size of the installed binaries.
pub open spec fn bin_lines(d: DirSizesView) -> Seq<LineView> {
    seq![size_line(1, counted(d.numb_bins as nat, " installed binaries: "@), d.total_bin_size)]
}

/// The left column naming the registry indices: singular for one index.
pub open spec fn index_label(num: u64) -> Seq<char> {
    if num == 1 {
        "Registry index: "@
    } else {
        counted(num as nat, " registry indices: "@)
    }
}

/// Sizes of the registries together and of their indices, archives and sources.
pub open spec fn registry_lines(d: DirSizesView) -> Seq<LineView> {
    seq![
        size_line(1, "Registry: "@, d.total_reg_size),
        size_line(2, index_label(d.total_reg_index_num), d.total_reg_index_size),
        size_line(2, counted(d.numb_reg_cache_entries as nat, " crate archives: "@), d.total_reg_cache_size),
        size_line(
            2,
            counted(d.numb_reg_src_checkouts as nat, " crate source checkouts: "@),
            d.total_reg_src_size,
        ),
    ]
}

/// Sizes of the git database, its bare repos and its checkouts.
pub open spec fn git_lines(d: DirSizesView) -> Seq<LineView> {
    seq![
        size_line(1, "Git db: "@, d.total_git_db_size),
        size_line(2, counted(d.numb_git_repos_bare_repos as nat, " bare git repos: "@), d.total_git_repos_bare_size),
        size_line(2, counted(d.numb_git_checkouts as nat, " git repo checkouts: "@), d.total_git_chk_size),
    ]
}

/// The lines of the default summary.
pub open spec fn summary_lines(d: DirSizesView) -> Seq<LineView> {
    header_lines(d) + bin_lines(d) + registry_lines(d) + git_lines(d)
}

/// The default summary of the cache (`cargo cache` without a subcommand).
pub open spec fn summary_text(d: DirSizesView) -> Seq<char> {
    two_row_text(summary_lines(d), 2, false)
}

/// Lines of a two-column report with short columns: every left column takes at most 400 bytes,
/// every right column at most 400 bytes, and the indentation is at most two levels.
pub open spec fn short_lines(ls: Seq<LineView>) -> bool {
    forall|i: int| 0 <= i < ls.len() ==> short_line(#[trigger] ls[i])
}

/// A line of at most 400 bytes in each column and at most two levels of indentation.
pub open spec fn short_line(l: LineView) -> bool {
    &&& byte_len(l.left) <= 400
    &&& byte_len(l.right) <= 400
    &&& l.indent <= 2
}

/// A table line for `bytes` in decimal units.
fn size_table_line(indent: usize, left: &str, bytes: u64) -> (l: TableLine)
    requires
        indent <= 2,
        left@.len() <= 100,
    ensures
        l@ == size_line(indent as nat, left@, bytes),
        short_line(l@),
{
    let s = human_size(bytes);
    let l = TableLine::new(indent, left, s.as_str());
    proof {
        lemma_aligned_right_len(s@);
        lemma_byte_len_bounds(l@.right);
        lemma_byte_len_bounds(left@);
    }
    l
}

/// Aligning a right column at most quadruples its length.
proof fn lemma_aligned_right_len(s: Seq<char>)
    ensures
        aligned_right_column(s).len() <= 4 * s.len(),
{
    crate::text::lemma_replace_all_len(s, seq![' ', 'B'], seq![' ', ' ', 'B']);
    assert(s.len() * (seq![' ', ' ', 'B'].len() + 1) == 4 * s.len()) by (nonlinear_arith)
        requires
            seq![' ', ' ', 'B'].len() == 3,
    ;
}

/// `n` followed by `label`.
fn counted_label(n: u64, label: &str) -> (s: String)
    requires
        label@.len() <= 80,
    ensures
        s@ == counted(n as nat, label@),
        s@.len() <= 100,
        byte_len(s@) >= label@.len() + 1,
{
    let mut s = String::new();
    push_decimal(&mut s, n);
    push_str(&mut s, label);
    proof {
        lemma_decimal_len_u64(n);
        lemma_byte_len_bounds(s@);
    }
    s
}

impl DirSizes {
    /// The heading naming the cache, and its total size.
    fn header(&self) -> (v: Vec<TableLine>)
        ensures
            line_views(v@) == header_lines(self@),
            short_lines(line_views(v@).drop_first()),
    {
        let mut heading = String::new();
        push_str(&mut heading, "Cargo cache '");
        push_str(&mut heading, self.root_path.as_str());
        push_str(&mut heading, "':\n\n");
        let first = TableLine::new(0, heading.as_str(), "");
        proof {
            reveal_strlit("");
            reveal_strlit("Total: ");
        }
        let second = size_table_line(0, "Total: ", self.total_size);
        let v = vec![first, second];
        proof {
            assert(aligned_right_column(""@) == Seq::<char>::empty());
            assert(line_views(v@) =~= header_lines(self@));
            assert(line_views(v@).drop_first() =~= seq![second@]);
        }
        v
    }
}

impl DirSizes {
    /// Number and size of the installed binaries.
    fn bin(&self) -> (v: Vec<TableLine>)
        ensures
            line_views(v@) == bin_lines(self@),
            short_lines(line_views(v@)),
            byte_len(line_views(v@)[0].left) >= 22,
    {
        proof {
            reveal_strlit(" installed binaries: ");
        }
        let left = counted_label(self.numb_bins as u64, " installed binaries: ");
        let l = size_table_line(1, left.as_str(), self.total_bin_size);
        let v = vec![l];
        assert(line_views(v@) =~= bin_lines(self@));
        v
    }

    /// Sizes of the registries together and of their indices, archives and sources.
    fn registries_summary(&self) -> (v: Vec<TableLine>)
        ensures
            line_views(v@) == registry_lines(self@),
            short_lines(line_views(v@)),
    {
        proof {
            reveal_strlit("Registry: ");
            reveal_strlit("Registry index: ");
            reveal_strlit(" registry indices: ");
            reveal_strlit(" crate archives: ");
            reveal_strlit(" crate source checkouts: ");
        }
        let tl1 = size_table_line(1, "Registry: ", self.total_reg_size);
        let left = if self.total_reg_index_num == 1 {
            let mut s = String::new();
            push_str(&mut s, "Registry index: ");
            s
        } else {
            counted_label(self.total_reg_index_num, " registry indices: ")
        };
        let tl2 = size_table_line(2, left.as_str(), self.total_reg_index_size);
        let archives = counted_label(self.numb_reg_cache_entries as u64, " crate archives: ");
        let tl3 = size_table_line(2, archives.as_str(), self.total_reg_cache_size);
        let sources = counted_label(self.numb_reg_src_checkouts as u64, " crate source checkouts: ");
        let tl4 = size_table_line(2, sources.as_str(), self.total_reg_src_size);
        let v = vec![tl1, tl2, tl3, tl4];
        assert(line_views(v@) =~= registry_lines(self@));
        assert(line_views(v@) =~= seq![tl1@, tl2@, tl3@, tl4@]);
        v
    }

    /// Sizes of the git database, its bare repos and its checkouts.
    fn git(&self) -> (v: Vec<TableLine>)
        ensures
            line_views(v@) == git_lines(self@),
            short_lines(line_views(v@)),
    {
        proof {
            reveal_strlit("Git db: ");
            reveal_strlit(" bare git repos: ");
            reveal_strlit(" git repo checkouts: ");
        }
        let tl1 = size_table_line(1, "Git db: ", self.total_git_db_size);
        let bare = counted_label(self.numb_git_repos_bare_repos as u64, " bare git repos: ");
        let tl2 = size_table_line(2, bare.as_str(), self.total_git_repos_bare_size);
        let chk = counted_label(self.numb_git_checkouts as u64, " git repo checkouts: ");
        let tl3 = size_table_line(2, chk.as_str(), self.total_git_chk_size);
        let v = vec![tl1, tl2, tl3];
        assert(line_views(v@) =~= git_lines(self@));
        assert(line_views(v@) =~= seq![tl1@, tl2@, tl3@]);
        v
    }

    /// The default summary of the cache: its path and total size, the installed binaries, the
    /// registries and the git database, laid out as a two-column table.
    pub fn to_string(&self) -> (r: String)
        ensures
            r@ == summary_text(self@),
    {
        let mut table = self.header();
        let mut bin = self.bin();
        let mut reg = self.registries_summary();
        let mut git = self.git();
        let ghost h = line_views(table@);
        let ghost b = line_views(bin@);
        let ghost rg = line_views(reg@);
        let ghost g = line_views(git@);
        table.append(&mut bin);
        table.append(&mut reg);
        table.append(&mut git);
        let ghost ls = line_views(table@);
        proof {
            assert(ls =~= h + b + rg + g);
            assert(ls =~= summary_lines(self@));
            let body = ls.drop_first();
            assert(body =~= h.drop_first() + b + rg + g);
            assert forall|i: int| 0 <= i < body.len() implies short_line(#[trigger] body[i]) by {
                let h1 = h.drop_first();
                if i < h1.len() {
                    assert(body[i] == h1[i]);
                } else if i < h1.len() + b.len() {
                    assert(body[i] == b[i - h1.len()]);
                } else if i < h1.len() + b.len() + rg.len() {
                    assert(body[i] == rg[i - h1.len() - b.len()]);
                } else {
                    assert(body[i] == g[i - h1.len() - b.len() - rg.len()]);
                }
            }
            reveal_strlit("Total: ");
            lemma_ascii_byte_len("Total: "@);
            assert(body[0].left == "Total: "@);
            assert(body[1] == b[0]);
            lemma_two_row_fits(ls, 2, false, 400, 400, 2);
        }
        two_row_table(2, table, false)
    }
}

/// One registry's part of a cache (its index, its archives or its extracted sources): the folder
/// that names the registry, the registry's name, the part's size and number of files or items.
pub struct RegistryPart {
    pub folder: String,
    pub name: String,
    pub total_size: u64,
    pub count: u64,
}

/// The mathematical content of a `RegistryPart`.
pub struct RegistryPartView {
    pub folder: Seq<char>,
    pub name: Seq<char>,
    pub total_size: u64,
    pub count: u64,
}

impl View for RegistryPart {
    type V = RegistryPartView;

    open spec fn view(&self) -> RegistryPartView {
        RegistryPartView {
            folder: self.folder@,
            name: self.name@,
            total_size: self.total_size,
            count: self.count,
        }
    }
}

/// The views of a list of registry parts.
pub open spec fn part_views(ps: Seq<RegistryPart>) -> Seq<RegistryPartView> {
    ps.map_values(|p: RegistryPart| p@)
}

/// The parts in the registry folder `folder`, in order.
pub open spec fn parts_in(ps: Seq<RegistryPartView>, folder: Seq<char>) -> Seq<RegistryPartView>
    decreases ps.len(),
{
    if ps.len() == 0 {
        seq![]
    } else if ps.last().folder == folder {
        parts_in(ps.drop_last(), folder).push(ps.last())
    } else {
        parts_in(ps.drop_last(), folder)
    }
}

/// The sum of the sizes of the parts.
pub open spec fn parts_total(ps: Seq<RegistryPartView>) -> nat
    decreases ps.len(),
{
    if ps.len() == 0 {
        0
    } else {
        parts_total(ps.drop_last()) + ps.last().total_size as nat
    }
}

/// Which part of a registry a line describes.
#[derive(PartialEq, Eq, Structural, Clone, Copy)]
pub enum PartKind {
    Index,
    Archives,
    Sources,
}

/// The line describing a part of a registry.
pub open spec fn part_line(kind: PartKind, p: RegistryPartView) -> LineView {
    match kind {
        PartKind::Index => size_line(2, "Registry index:"@, p.total_size),
        PartKind::Archives => size_line(2, counted(p.count as nat, " crate archives: "@), p.total_size),
        PartKind::Sources => size_line(2, counted(p.count as nat, " crate source checkouts: "@), p.total_size),
    }
}

/// The lines describing parts.
pub open spec fn part_lines(kind: PartKind, ps: Seq<RegistryPartView>) -> Seq<LineView> {
    ps.map_values(|p: RegistryPartView| part_line(kind, p))
}

/// The name a registry is shown under: the name of its first index, else of its first archive
/// part, else of its first source part.
pub open spec fn registry_name(
    index: Seq<RegistryPartView>,
    archives: Seq<RegistryPartView>,
    sources: Seq<RegistryPartView>,
) -> Option<Seq<char>> {
    if index.len() > 0 {
        Some(index[0].name)
    } else if archives.len() > 0 {
        Some(archives[0].name)
    } else if sources.len() > 0 {
        Some(sources[0].name)
    } else {
        None
    }
}

/// The lines of one registry: its name and total size, then its index, archive and source parts.
pub open spec fn registry_block(
    index: Seq<RegistryPartView>,
    sources: Seq<RegistryPartView>,
    archives: Seq<RegistryPartView>,
    folder: Seq<char>,
) -> Seq<LineView> {
    let i = parts_in(index, folder);
    let a = parts_in(archives, folder);
    let s = parts_in(sources, folder);
    let name = match registry_name(i, a, s) {
        Some(n) => n,
        None => seq![],
    };
    seq![size_line(1, "Registry: "@ + name, (parts_total(i) + parts_total(a) + parts_total(s)) as u64)]
        + part_lines(PartKind::Index, i) + part_lines(PartKind::Archives, a) + part_lines(
        PartKind::Sources,
        s,
    )
}

/// The registry folders, each once, in sorted order.
pub open spec fn registry_folders(
    index: Seq<RegistryPartView>,
    sources: Seq<RegistryPartView>,
    archives: Seq<RegistryPartView>,
) -> Seq<Seq<char>> {
    sorted_distinct(
        (index + archives + sources).map_values(|p: RegistryPartView| p.folder).to_set(),
    )
}

/// The blocks of the first `n` registry folders.
pub open spec fn registry_blocks(
    index: Seq<RegistryPartView>,
    sources: Seq<RegistryPartView>,
    archives: Seq<RegistryPartView>,
    folders: Seq<Seq<char>>,
    n: int,
) -> Seq<LineView>
    decreases n,
{
    if n <= 0 {
        seq![]
    } else {
        registry_blocks(index, sources, archives, folders, n - 1) + registry_block(
            index,
            sources,
            archives,
            folders[n - 1],
        )
    }
}

/// The lines describing each registry separately.
pub open spec fn separate_registry_lines(
    index: Seq<RegistryPartView>,
    sources: Seq<RegistryPartView>,
    archives: Seq<RegistryPartView>,
) -> Seq<LineView> {
    let fs = registry_folders(index, sources, archives);
    registry_blocks(index, sources, archives, fs, fs.len() as int)
}

/// The parts of a registry summary can be added up and laid out: their sizes sum to at most
/// `u64::MAX`, and their names are shorter than an eighth of the address space.
pub open spec fn parts_fit(
    index: Seq<RegistryPartView>,
    sources: Seq<RegistryPartView>,
    archives: Seq<RegistryPartView>,
) -> bool {
    &&& parts_total(index) + parts_total(sources) + parts_total(archives) <= u64::MAX
    &&& forall|k: int| 0 <= k < index.len() ==> byte_len(#[trigger] index[k].name) <= usize::MAX / 8
    &&& forall|k: int| 0 <= k < sources.len() ==> byte_len(#[trigger] sources[k].name) <= usize::MAX / 8
    &&& forall|k: int| 0 <= k < archives.len() ==> byte_len(#[trigger] archives[k].name) <= usize::MAX / 8
}

/// The parts in a folder are some of the parts: their total is at most the total.
pub proof fn lemma_parts_in(ps: Seq<RegistryPartView>, folder: Seq<char>)
    ensures
        parts_total(parts_in(ps, folder)) <= parts_total(ps),
        forall|k: int| 0 <= k < parts_in(ps, folder).len() ==> ps.contains(#[trigger] parts_in(ps, folder)[k]),
    decreases ps.len(),
{
    if ps.len() > 0 {
        let d = ps.drop_last();
        lemma_parts_in(d, folder);
        if ps.last().folder == folder {
            assert(parts_in(ps, folder).drop_last() =~= parts_in(d, folder));
        }
        assert forall|k: int| 0 <= k < parts_in(ps, folder).len() implies ps.contains(#[trigger] parts_in(ps, folder)[k]) by {
            if k < parts_in(d, folder).len() {
                assert(d.contains(parts_in(d, folder)[k]));
                let j = choose|j: int| 0 <= j < d.len() && d[j] == parts_in(d, folder)[k];
                assert(ps[j] == d[j]);
            } else {
                assert(ps[ps.len() - 1] == ps.last());
            }
        }
    }
}

/// A line whose left column is at most an eighth of the address space plus 400 bytes, whose
/// right column is at most 400 bytes, indented at most two levels.
pub open spec fn wide_line(l: LineView) -> bool {
    &&& byte_len(l.left) <= usize::MAX / 8 + 400
    &&& byte_len(l.right) <= 400
    &&& l.indent <= 2
}

/// A table line for `bytes` in decimal units, with any left column.
fn wide_size_table_line(indent: usize, left: &str, bytes: u64) -> (l: TableLine)
    ensures
        l@ == size_line(indent as nat, left@, bytes),
        byte_len(l@.right) <= 400,
{
    let s = human_size(bytes);
    let l = TableLine::new(indent, left, s.as_str());
    proof {
        lemma_aligned_right_len(s@);
        lemma_byte_len_bounds(l@.right);
    }
    l
}

/// The line describing the part `p` of a registry.
fn part_table_line(kind: PartKind, p: &RegistryPart) -> (l: TableLine)
    ensures
        l@ == part_line(kind, p@),
        short_line(l@),
{
    proof {
        reveal_strlit("Registry index:");
        reveal_strlit(" crate archives: ");
        reveal_strlit(" crate source checkouts: ");
    }
    match kind {
        PartKind::Index => size_table_line(2, "Registry index:", p.total_size),
        PartKind::Archives => {
            let left = counted_label(p.count, " crate archives: ");
            size_table_line(2, left.as_str(), p.total_size)
        },
        PartKind::Sources => {
            let left = counted_label(p.count, " crate source checkouts: ");
            size_table_line(2, left.as_str(), p.total_size)
        },
    }
}

/// Appends the lines of the parts in `folder`, adds their sizes to `total`, and takes the name of
/// the first of them when no name was taken yet.
fn collect_parts(
    kind: PartKind,
    parts: &Vec<RegistryPart>,
    folder: &String,
    lines: &mut Vec<TableLine>,
    total: &mut u64,
    name: &mut Option<String>,
)
    requires
        *old(total) + parts_total(parts_in(part_views(parts@), folder@)) <= u64::MAX,
        forall|k: int| 0 <= k < old(lines)@.len() ==> short_line(#[trigger] old(lines)@[k]@),
    ensures
        line_views(final(lines)@) == line_views(old(lines)@) + part_lines(kind, parts_in(part_views(parts@), folder@)),
        forall|k: int| 0 <= k < final(lines)@.len() ==> short_line(#[trigger] final(lines)@[k]@),
        *final(total) == *old(total) + parts_total(parts_in(part_views(parts@), folder@)),
        final(name).deep_view() == (if old(name).deep_view() is Some {
            old(name).deep_view()
        } else {
            registry_name(parts_in(part_views(parts@), folder@), seq![], seq![])
        }),
{
    let ghost ps = part_views(parts@);
    let ghost start_lines = line_views(lines@);
    let ghost start_total = *total;
    let ghost start_name = name.deep_view();
    let mut j: usize = 0;
    while j < parts.len()
        invariant
            j <= parts.len(),
            ps == part_views(parts@),
            start_total + parts_total(parts_in(ps, folder@)) <= u64::MAX,
            line_views(lines@) == start_lines + part_lines(kind, parts_in(ps.take(j as int), folder@)),
            forall|k: int| 0 <= k < lines@.len() ==> short_line(#[trigger] lines@[k]@),
            *total == start_total + parts_total(parts_in(ps.take(j as int), folder@)),
            name.deep_view() == (if start_name is Some {
                start_name
            } else {
                registry_name(parts_in(ps.take(j as int), folder@), seq![], seq![])
            }),
        decreases parts.len() - j,
    {
        let ghost t = ps.take(j + 1);
        assert(t.drop_last() =~= ps.take(j as int));
        assert(t.last() == parts@[j as int]@);
        proof {
            crate::dirsizes::lemma_parts_in(t, folder@);
            lemma_parts_prefix_total(ps, folder@, j + 1);
        }
        let p = &parts[j];
        if p.folder == *folder {
            let l = part_table_line(kind, p);
            let ghost before = line_views(lines@);
            lines.push(l);
            assert(line_views(lines@) =~= before.push(l@));
            assert(parts_in(t, folder@) =~= parts_in(ps.take(j as int), folder@).push(p@));
            assert(part_lines(kind, parts_in(t, folder@)) =~= part_lines(kind, parts_in(ps.take(j as int), folder@)).push(l@));
            assert(parts_in(t, folder@).drop_last() =~= parts_in(ps.take(j as int), folder@));
            *total = *total + p.total_size;
            if name.is_none() {
                *name = Some(copy_name(&p.name));
            }
        }
        j = j + 1;
    }
    assert(ps.take(parts.len() as int) =~= ps);
}

/// The sum of the parts in a folder of a prefix is at most that of the whole list.
proof fn lemma_parts_prefix_total(ps: Seq<RegistryPartView>, folder: Seq<char>, j: int)
    requires
        0 <= j <= ps.len(),
    ensures
        parts_total(parts_in(ps.take(j), folder)) <= parts_total(parts_in(ps, folder)),
    decreases ps.len() - j,
{
    if j < ps.len() {
        lemma_parts_prefix_total(ps, folder, j + 1);
        let t = ps.take(j + 1);
        assert(t.drop_last() =~= ps.take(j));
        if t.last().folder == folder {
            assert(parts_in(t, folder).drop_last() =~= parts_in(ps.take(j), folder));
        }
    } else {
        assert(ps.take(j) =~= ps);
    }
}

fn copy_name(s: &String) -> (r: String)
    ensures
        r@ == s@,
{
    s.clone()
}

impl DirSizes {
    /// The lines describing each registry separately: per registry folder (in sorted order) its
    /// name and total size, then its indices, archives and sources.
    fn registries_seperate(
        &self,
        index_caches: &Vec<RegistryPart>,
        registry_sources: &Vec<RegistryPart>,
        pkg_caches: &Vec<RegistryPart>,
    ) -> (v: Vec<TableLine>)
        requires
            parts_fit(part_views(index_caches@), part_views(registry_sources@), part_views(pkg_caches@)),
        ensures
            line_views(v@) == separate_registry_lines(
                part_views(index_caches@),
                part_views(registry_sources@),
                part_views(pkg_caches@),
            ),
            forall|k: int| 0 <= k < v@.len() ==> wide_line(#[trigger] v@[k]@),
    {
        let ghost idx = part_views(index_caches@);
        let ghost src = part_views(registry_sources@);
        let ghost pkg = part_views(pkg_caches@);
        let mut registries: Vec<String> = Vec::new();
        let ghost all = idx + pkg + src;
        let mut j: usize = 0;
        while j < index_caches.len()
            invariant
                j <= index_caches.len(),
                idx == part_views(index_caches@),
                string_views(registries@) == idx.take(j as int).map_values(|p: RegistryPartView| p.folder),
            decreases index_caches.len() - j,
        {
            let ghost before = string_views(registries@);
            registries.push(copy_name(&index_caches[j].folder));
            assert(idx[j as int].folder == index_caches@[j as int].folder@);
            assert(string_views(registries@) =~= before.push(idx[j as int].folder));
            assert(idx.take(j + 1).map_values(|p: RegistryPartView| p.folder) =~= idx.take(j as int).map_values(|p: RegistryPartView| p.folder).push(idx[j as int].folder));
            j = j + 1;
        }
        assert(idx.take(index_caches.len() as int) =~= idx);
        assert(idx + pkg.take(0) =~= idx);
        let mut j: usize = 0;
        while j < pkg_caches.len()
            invariant
                j <= pkg_caches.len(),
                pkg == part_views(pkg_caches@),
                string_views(registries@) == (idx + pkg.take(j as int)).map_values(|p: RegistryPartView| p.folder),
            decreases pkg_caches.len() - j,
        {
            let ghost before = string_views(registries@);
            registries.push(copy_name(&pkg_caches[j].folder));
            assert(pkg[j as int].folder == pkg_caches@[j as int].folder@);
            assert(string_views(registries@) =~= before.push(pkg[j as int].folder));
            assert((idx + pkg.take(j + 1)).map_values(|p: RegistryPartView| p.folder) =~= (idx + pkg.take(j as int)).map_values(|p: RegistryPartView| p.folder).push(pkg[j as int].folder));
            j = j + 1;
        }
        assert(pkg.take(pkg_caches.len() as int) =~= pkg);
        assert(idx + pkg + src.take(0) =~= idx + pkg);
        let mut j: usize = 0;
        while j < registry_sources.len()
            invariant
                j <= registry_sources.len(),
                src == part_views(registry_sources@),
                string_views(registries@) == (idx + pkg + src.take(j as int)).map_values(|p: RegistryPartView| p.folder),
            decreases registry_sources.len() - j,
        {
            let ghost before = string_views(registries@);
            registries.push(copy_name(&registry_sources[j].folder));
            assert(src[j as int].folder == registry_sources@[j as int].folder@);
            assert(string_views(registries@) =~= before.push(src[j as int].folder));
            assert((idx + pkg + src.take(j + 1)).map_values(|p: RegistryPartView| p.folder) =~= (idx + pkg + src.take(j as int)).map_values(|p: RegistryPartView| p.folder).push(src[j as int].folder));
            j = j + 1;
        }
        assert(src.take(registry_sources.len() as int) =~= src);
        let folders = sorted_distinct_strings(&registries);
        let ghost fs = registry_folders(idx, src, pkg);
        assert(string_views(folders@) == fs);
        let mut v: Vec<TableLine> = Vec::new();
        let mut k: usize = 0;
        while k < folders.len()
            invariant
                k <= folders.len(),
                idx == part_views(index_caches@),
                src == part_views(registry_sources@),
                pkg == part_views(pkg_caches@),
                parts_fit(idx, src, pkg),
                string_views(folders@) == fs,
                line_views(v@) == registry_blocks(idx, src, pkg, fs, k as int),
                forall|q: int| 0 <= q < v@.len() ==> wide_line(#[trigger] v@[q]@),
            decreases folders.len() - k,
        {
            let folder = &folders[k];
            assert(folder@ == fs[k as int]);
            proof {
                lemma_parts_in(idx, folder@);
                lemma_parts_in(src, folder@);
                lemma_parts_in(pkg, folder@);
            }
            let mut temp: Vec<TableLine> = Vec::new();
            let mut total: u64 = 0;
            let mut name: Option<String> = None;
            collect_parts(PartKind::Index, index_caches, folder, &mut temp, &mut total, &mut name);
            collect_parts(PartKind::Archives, pkg_caches, folder, &mut temp, &mut total, &mut name);
            collect_parts(PartKind::Sources, registry_sources, folder, &mut temp, &mut total, &mut name);
            let ghost ii = parts_in(idx, folder@);
            let ghost aa = parts_in(pkg, folder@);
            let ghost ss = parts_in(src, folder@);
            assert(name.deep_view() == registry_name(ii, aa, ss));
            let mut left = String::new();
            push_str(&mut left, "Registry: ");
            let ghost name_view = match registry_name(ii, aa, ss) {
                Some(n) => n,
                None => Seq::<char>::empty(),
            };
            match &name {
                Some(n) => push_str(&mut left, n.as_str()),
                None => {},
            }
            assert(left@ == "Registry: "@ + name_view);
            let header = wide_size_table_line(1, left.as_str(), total);
            proof {
                reveal_strlit("Registry: ");
                lemma_ascii_byte_len("Registry: "@);
                lemma_byte_len_concat("Registry: "@, name_view);
                if ii.len() > 0 {
                    assert(idx.contains(ii[0]));
                } else if aa.len() > 0 {
                    assert(pkg.contains(aa[0]));
                } else if ss.len() > 0 {
                    assert(src.contains(ss[0]));
                }
            }
            let ghost before = line_views(v@);
            let ghost block = line_views(temp@);
            v.push(header);
            let ghost with_header = v@;
            v.append(&mut temp);
            assert(line_views(v@) =~= before + (seq![header@] + block));
            assert(registry_block(idx, src, pkg, folder@) =~= seq![header@] + block);
            assert forall|q: int| 0 <= q < v@.len() implies wide_line(#[trigger] v@[q]@) by {
                if q < with_header.len() - 1 {
                    assert(v@[q] == with_header[q]);
                } else if q >= with_header.len() {
                    assert(short_line(v@[q]@));
                }
            }
            k = k + 1;
        }
        v
    }
}

/// The summary with details on each registry (`cargo cache registry`).
pub open spec fn per_registry_text(
    d: DirSizesView,
    index: Seq<RegistryPartView>,
    sources: Seq<RegistryPartView>,
    archives: Seq<RegistryPartView>,
) -> Seq<char> {
    two_row_text(
        header_lines(d) + bin_lines(d) + separate_registry_lines(index, sources, archives) + git_lines(d),
        2,
        false,
    )
}

/// The summary of the cache with details on each registry: the path and total size, the
/// binaries, each registry with its parts, and the git database.
pub fn per_registry_summary(
    dir_size: &DirSizes,
    index_caches: &Vec<RegistryPart>,
    registry_sources: &Vec<RegistryPart>,
    pkg_caches: &Vec<RegistryPart>,
) -> (r: String)
    requires
        parts_fit(part_views(index_caches@), part_views(registry_sources@), part_views(pkg_caches@)),
    ensures
        r@ == per_registry_text(
            dir_size@,
            part_views(index_caches@),
            part_views(registry_sources@),
            part_views(pkg_caches@),
        ),
{
    let mut table = dir_size.header();
    let mut bin = dir_size.bin();
    let mut reg = dir_size.registries_seperate(index_caches, registry_sources, pkg_caches);
    let mut git = dir_size.git();
    let ghost h = line_views(table@);
    let ghost b = line_views(bin@);
    let ghost rg = line_views(reg@);
    let ghost g = line_views(git@);
    assert forall|k: int| 0 <= k < rg.len() implies wide_line(#[trigger] rg[k]) by {
        assert(rg[k] == reg@[k]@);
    }
    table.append(&mut bin);
    table.append(&mut reg);
    table.append(&mut git);
    let ghost ls = line_views(table@);
    proof {
        assert(ls =~= h + b + rg + g);
        let body = ls.drop_first();
        assert(body =~= h.drop_first() + b + rg + g);
        assert forall|i: int| 0 <= i < body.len() implies wide_line(#[trigger] body[i]) by {
            let h1 = h.drop_first();
            if i < h1.len() {
                assert(body[i] == h1[i]);
                assert(short_line(h1[i]));
            } else if i < h1.len() + b.len() {
                assert(body[i] == b[i - h1.len()]);
                assert(short_line(b[i - h1.len()]));
            } else if i < h1.len() + b.len() + rg.len() {
                assert(body[i] == rg[i - h1.len() - b.len()]);
            } else {
                assert(body[i] == g[i - h1.len() - b.len() - rg.len()]);
                assert(short_line(g[i - h1.len() - b.len() - rg.len()]));
            }
        }
        reveal_strlit("Total: ");
        lemma_ascii_byte_len("Total: "@);
        assert(body[0].left == "Total: "@);
        assert(body[1] == b[0]);
        lemma_two_row_fits(ls, 2, false, (usize::MAX / 8 + 400) as nat, 400, 2);
    }
    two_row_table(2, table, false)
}

/// A size that may have changed: the size when it did not, else the old and the new size.
pub open spec fn change_text(old: u64, new: u64) -> Seq<char> {
    if old == new {
        decimal_file_size(old)
    } else {
        decimal_file_size(old) + " => "@ + decimal_file_size(new)
    }
}

/// A count that may have changed, followed by `label`; `same_label` follows an unchanged count.
pub open spec fn change_count(old: nat, new: nat, same_label: Seq<char>, label: Seq<char>) -> Seq<char> {
    if old == new {
        decimal(new) + same_label
    } else {
        decimal(old) + " => "@ + decimal(new) + label
    }
}

/// A line whose right column is a size that may have changed.
pub open spec fn change_line(indent: nat, left: Seq<char>, old: u64, new: u64) -> LineView {
    LineView { indent, left, right: aligned_right_column(change_text(old, new)) }
}

/// The lines comparing the sizes of a cache before and after a clean-up.
pub open spec fn difference_lines(o: DirSizesView, n: DirSizesView) -> Seq<LineView> {
    seq![
        LineView { indent: 0, left: "Cargo cache '"@ + o.root_path + "':\n\n"@, right: seq![] },
        change_line(0, "Total: "@, o.total_size, n.total_size),
    ] + bin_lines(n) + seq![
        change_line(1, "Registry: "@, o.total_reg_size, n.total_reg_size),
        change_line(2, index_label(o.total_reg_index_num), o.total_reg_index_size, n.total_reg_index_size),
        change_line(
            2,
            change_count(o.numb_reg_cache_entries as nat, n.numb_reg_cache_entries as nat, " crate archives: "@, " crate archives: "@),
            o.total_reg_cache_size,
            n.total_reg_cache_size,
        ),
        change_line(
            2,
            change_count(o.numb_reg_src_checkouts as nat, n.numb_reg_src_checkouts as nat, " crate source checkouts: "@, " crate source checkouts: "@),
            o.total_reg_src_size,
            n.total_reg_src_size,
        ),
        change_line(1, "Git db: "@, o.total_git_db_size, n.total_git_db_size),
        change_line(
            2,
            change_count(o.numb_git_repos_bare_repos as nat, n.numb_git_repos_bare_repos as nat, " bare git repos:"@, " bare git repos: "@),
            o.total_git_repos_bare_size,
            n.total_git_repos_bare_size,
        ),
        change_line(
            2,
            change_count(o.numb_git_checkouts as nat, n.numb_git_checkouts as nat, " git repo checkouts: "@, " git repo checkouts: "@),
            o.total_git_chk_size,
            n.total_git_chk_size,
        ),
    ]
}

/// A change of size in words: the sizes, and unless they are equal the signed difference and the
/// change in percent (`percentage`, as the caller computed it).
pub open spec fn size_diff_text(before: u64, after: u64, display_size_before: bool, percentage: Seq<char>) -> Seq<char> {
    let diff = after - before;
    let sign = if diff > 0 { "+"@ } else { seq![] };
    let diff_text = (if diff < 0 { seq!['-'] } else { Seq::<char>::empty() }) + decimal_file_size(
        (if diff < 0 { -diff } else { diff }) as u64,
    );
    if before == after {
        if display_size_before {
            decimal_file_size(before) + " => "@ + decimal_file_size(after)
        } else {
            decimal_file_size(after)
        }
    } else if display_size_before {
        decimal_file_size(before) + " => "@ + decimal_file_size(after) + " ("@ + sign + diff_text + ", "@
            + percentage + "%)"@
    } else {
        decimal_file_size(after) + " ("@ + sign + diff_text + ", "@ + percentage + "%)"@
    }
}

/// The summary of a clean-up: the table comparing the sizes before and after it, and when the
/// total changed a line saying by how much.
pub open spec fn difference_text(o: DirSizesView, n: DirSizesView, percentage: Seq<char>) -> Seq<char> {
    two_row_text(difference_lines(o, n), 3, false) + if o.total_size != n.total_size {
        "\n"@ + "Size changed "@ + size_diff_text(o.total_size, n.total_size, true, percentage)
    } else {
        seq![]
    }
}

/// Describes a change of size: the sizes before and after (or only after), and unless they are
/// equal the signed difference and the change in percent, which the caller computes.
pub fn size_diff_format(size_before: u64, size_after: u64, display_size_before: bool, percentage: &str) -> (r: String)
    requires
        size_before <= i64::MAX,
        size_after <= i64::MAX,
    ensures
        r@ == size_diff_text(size_before, size_after, display_size_before, percentage@),
{
    let size_diff: i64 = size_after as i64 - size_before as i64;
    let after_text = human_size(size_after);
    let before_text = human_size(size_before);
    let diff_text = human_size_signed(size_diff);
    let mut r = String::new();
    if size_before == size_after {
        if display_size_before {
            push_str(&mut r, before_text.as_str());
            push_str(&mut r, " => ");
        }
        push_str(&mut r, after_text.as_str());
        return r;
    }
    if display_size_before {
        push_str(&mut r, before_text.as_str());
        push_str(&mut r, " => ");
    }
    push_str(&mut r, after_text.as_str());
    push_str(&mut r, " (");
    if size_diff > 0 {
        push_str(&mut r, "+");
    }
    push_str(&mut r, diff_text.as_str());
    push_str(&mut r, ", ");
    push_str(&mut r, percentage);
    push_str(&mut r, "%)");
    r
}

/// The text of a size that may have changed.
fn change_string(old: u64, new: u64) -> (r: String)
    ensures
        r@ == change_text(old, new),
        r@.len() <= 24,
{
    let o = human_size(old);
    if old == new {
        return o;
    }
    let n = human_size(new);
    let mut r = String::new();
    push_str(&mut r, o.as_str());
    proof {
        reveal_strlit(" => ");
    }
    push_str(&mut r, " => ");
    push_str(&mut r, n.as_str());
    r
}

/// The text of a count that may have changed, followed by its label.
fn change_count_string(old: u64, new: u64, same_label: &str, label: &str) -> (r: String)
    requires
        same_label@.len() <= 25,
        label@.len() <= 25,
    ensures
        r@ == change_count(old as nat, new as nat, same_label@, label@),
        r@.len() <= 100,
{
    let mut r = String::new();
    proof {
        lemma_decimal_len_u64(old);
        lemma_decimal_len_u64(new);
        reveal_strlit(" => ");
    }
    if old == new {
        push_decimal(&mut r, new);
        push_str(&mut r, same_label);
    } else {
        push_decimal(&mut r, old);
        push_str(&mut r, " => ");
        push_decimal(&mut r, new);
        push_str(&mut r, label);
    }
    r
}

/// A table line for a size that may have changed.
fn change_table_line(indent: usize, left: &str, old: u64, new: u64) -> (l: TableLine)
    requires
        indent <= 2,
        left@.len() <= 100,
    ensures
        l@ == change_line(indent as nat, left@, old, new),
        short_line(l@),
{
    let s = change_string(old, new);
    let l = TableLine::new(indent, left, s.as_str());
    proof {
        lemma_aligned_right_len(s@);
        lemma_byte_len_bounds(l@.right);
        lemma_byte_len_bounds(left@);
    }
    l
}

/// The lines comparing the sizes of a cache before (`o`) and after (`n`) a clean-up.
#[verifier::rlimit(40)]
fn difference_table_lines(o: &DirSizes, n: &DirSizes) -> (v: Vec<TableLine>)
    ensures
        line_views(v@) == difference_lines(o@, n@),
        short_lines(line_views(v@).drop_first()),
        line_views(v@).len() > 2,
        byte_len(line_views(v@)[2].left) >= 22,
{
    proof {
        reveal_strlit("");
        reveal_strlit("Total: ");
        reveal_strlit("Registry: ");
        reveal_strlit("Registry index: ");
        reveal_strlit(" registry indices: ");
        reveal_strlit(" crate archives: ");
        reveal_strlit(" crate source checkouts: ");
        reveal_strlit("Git db: ");
        reveal_strlit(" bare git repos:");
        reveal_strlit(" bare git repos: ");
        reveal_strlit(" git repo checkouts: ");
    }
    let mut heading = String::new();
    push_str(&mut heading, "Cargo cache '");
    push_str(&mut heading, o.root_path.as_str());
    push_str(&mut heading, "':\n\n");
    let first = TableLine::new(0, heading.as_str(), "");
    assert(aligned_right_column(""@) == Seq::<char>::empty());
    let total = change_table_line(0, "Total: ", o.total_size, n.total_size);
    let mut bin = n.bin();
    let reg = change_table_line(1, "Registry: ", o.total_reg_size, n.total_reg_size);
    let index_left = if o.total_reg_index_num == 1 {
        let mut s = String::new();
        push_str(&mut s, "Registry index: ");
        s
    } else {
        counted_label(o.total_reg_index_num, " registry indices: ")
    };
    let index = change_table_line(2, index_left.as_str(), o.total_reg_index_size, n.total_reg_index_size);
    let archives_left = change_count_string(
        o.numb_reg_cache_entries as u64,
        n.numb_reg_cache_entries as u64,
        " crate archives: ",
        " crate archives: ",
    );
    let archives = change_table_line(2, archives_left.as_str(), o.total_reg_cache_size, n.total_reg_cache_size);
    let sources_left = change_count_string(
        o.numb_reg_src_checkouts as u64,
        n.numb_reg_src_checkouts as u64,
        " crate source checkouts: ",
        " crate source checkouts: ",
    );
    let sources = change_table_line(2, sources_left.as_str(), o.total_reg_src_size, n.total_reg_src_size);
    let git = change_table_line(1, "Git db: ", o.total_git_db_size, n.total_git_db_size);
    let bare_left = change_count_string(
        o.numb_git_repos_bare_repos as u64,
        n.numb_git_repos_bare_repos as u64,
        " bare git repos:",
        " bare git repos: ",
    );
    let bare = change_table_line(2, bare_left.as_str(), o.total_git_repos_bare_size, n.total_git_repos_bare_size);
    let chk_left = change_count_string(
        o.numb_git_checkouts as u64,
        n.numb_git_checkouts as u64,
        " git repo checkouts: ",
        " git repo checkouts: ",
    );
    let chk = change_table_line(2, chk_left.as_str(), o.total_git_chk_size, n.total_git_chk_size);
    let mut v = vec![first, total];
    let ghost b = line_views(bin@);
    v.append(&mut bin);
    let mut rest = vec![reg, index, archives, sources, git, bare, chk];
    let ghost rs = line_views(rest@);
    assert(rs =~= seq![reg@, index@, archives@, sources@, git@, bare@, chk@]);
    v.append(&mut rest);
    let ghost ls = line_views(v@);
    proof {
        assert(ls =~= seq![first@, total@] + b + rs);
        assert(ls =~= difference_lines(o@, n@));
        let body = ls.drop_first();
        assert(body =~= seq![total@] + b + rs);
        assert forall|i: int| 0 <= i < body.len() implies short_line(#[trigger] body[i]) by {
            if i == 0 {
            } else if i < 1 + b.len() {
                assert(body[i] == b[i - 1]);
            } else {
                assert(body[i] == rs[i - 1 - b.len()]);
            }
        }
        assert(ls[2] == b[0]);
    }
    v
}

/// The summary of a clean-up, comparing the sizes of the cache before (`cache_sizes_old`) and
/// after it (`cache_sizes_new`); `percentage` is the change of the total in percent, as the caller
/// computed it.
pub fn size_difference_summary(cache_sizes_old: &DirSizes, cache_sizes_new: &DirSizes, percentage: &str) -> (r: String)
    requires
        cache_sizes_old@.total_size <= i64::MAX,
        cache_sizes_new@.total_size <= i64::MAX,
    ensures
        r@ == difference_text(cache_sizes_old@, cache_sizes_new@, percentage@),
{
    let o = cache_sizes_old;
    let n = cache_sizes_new;
    let v = difference_table_lines(o, n);
    proof {
        let ls = line_views(v@);
        let body = ls.drop_first();
        reveal_strlit("Total: ");
        lemma_ascii_byte_len("Total: "@);
        assert(body[0].left == "Total: "@);
        assert(body[1] == ls[2]);
        assert forall|i: int| 0 <= i < body.len() implies short_line(#[trigger] body[i]) by {}
        lemma_two_row_fits(ls, 3, false, 400, 400, 2);
    }
    let mut summary = two_row_table(3, v, false);
    if o.total_size != n.total_size {
        push_str(&mut summary, "\n");
        push_str(&mut summary, "Size changed ");
        let d = size_diff_format(o.total_size, n.total_size, true, percentage);
        push_str(&mut summary, d.as_str());
    }
    summary
}

/// The first line of the information text: where the cache was found.
pub open spec fn cargo_home_line(home: Seq<char>, env: Option<Seq<char>>) -> Seq<char> {
    match env {
        Some(p) => "${CARGO_HOME} env var set to '"@ + p + "', using that!\n"@,
        None => "Default cache dir found: '"@ + home + "', using that!\n"@,
    }
}

/// The information text on the cache (`cargo cache --info`): where it is, its total size, and
/// for each part its path, its size and what it holds.
pub open spec fn info_text(c: CargoCachePathsView, d: DirSizesView, env: Option<Seq<char>>) -> Seq<char> {
    cargo_home_line(c.cargo_home, env) + "\n"@ + "Total cache size: "@ + decimal_file_size(d.total_size) + "\n\n"@ + c.bin_dir + "\n"@ + "\t"@ + decimal(d.numb_bins as nat) + " binaries installed in binary directory, total size: "@ + decimal_file_size(d.total_bin_size) + "\n"@ + "\tThese are the binaries installed via 'cargo install'.\n"@ + "\tUse 'cargo uninstall' to remove binaries if needed.\n"@ + "\n"@ + c.registry + "\n"@ + "\tRegistry root dir, size: "@ + decimal_file_size(d.total_reg_size) + "\n"@ + "\tCrate registries are stored here.\n"@ + "\n"@ + c.registry_index + "\n"@ + "\tRegistry index, size: "@ + decimal_file_size(d.total_reg_index_size) + "\n"@ + "\tA git repo holding information on what crates are available.\n"@ + "\tWill be recloned as needed.\n"@ + "\n"@ + c.registry_pkg_cache + "\n"@ + "\tCrate source package archive, size: "@ + decimal_file_size(d.total_reg_cache_size) + "\n"@ + "\tCrates source packages of the registries are downloaded into this folder.\n"@ + "\tThey will be redownloaded as needed.\n"@ + "\n"@ + c.registry_sources + "\n"@ + "\tCrate sources, size: "@ + decimal_file_size(d.total_reg_src_size) + "\n"@ + "\tSource archives are extracted into this dir.\n"@ + "\tThey will be reextracted from the package archive as needed.\n"@ + "\n"@ + c.git_repos_bare + "\n"@ + "\tGit database, size: "@ + decimal_file_size(d.total_git_repos_bare_size) + "\n"@ + "\tBare repos of git dependencies are stored here.\n"@ + "\tRemoved git repositories will be recloned as needed.\n"@ + "\n"@ + c.git_checkouts + "\n"@ + "\tGit repo checkouts, size: "@ + decimal_file_size(d.total_git_chk_size) + "\n"@ + "\tSpecific commits of the bare repos will be checked out into here.\n"@ + "\tGit checkouts will be rechecked-out from repo database as needed."@
}

/// The information text on the cache at the paths `c` with the sizes `s`; `cargo_home_env` is the
/// value of the `CARGO_HOME` environment variable, if set.
pub fn get_info(c: &CargoCachePaths, s: &DirSizes, cargo_home_env: Option<&str>) -> (r: String)
    ensures
        r@ == info_text(c@, s@, opt_str_view(cargo_home_env)),
{
    let mut strn = String::new();
    match cargo_home_env {
        Some(p) => {
            push_str(&mut strn, "${CARGO_HOME} env var set to '");
            push_str(&mut strn, p);
            push_str(&mut strn, "', using that!\n");
        },
        None => {
            push_str(&mut strn, "Default cache dir found: '");
            push_str(&mut strn, c.cargo_home.as_str());
            push_str(&mut strn, "', using that!\n");
        },
    }
    push_str(&mut strn, "\n");
    push_str(&mut strn, "Total cache size: ");
    let t = human_size(s.total_size);
    push_str(&mut strn, t.as_str());
    push_str(&mut strn, "\n\n");
    push_str(&mut strn, c.bin_dir.as_str());
    push_str(&mut strn, "\n");
    push_str(&mut strn, "\t");
    push_decimal(&mut strn, s.numb_bins as u64);
    push_str(&mut strn, " binaries installed in binary directory, total size: ");
    let t = human_size(s.total_bin_size);
    push_str(&mut strn, t.as_str());
    push_str(&mut strn, "\n");
    push_str(&mut strn, "\tThese are the binaries installed via 'cargo install'.\n");
    push_str(&mut strn, "\tUse 'cargo uninstall' to remove binaries if needed.\n");
    push_str(&mut strn, "\n");
    push_str(&mut strn, c.registry.as_str());
    push_str(&mut strn, "\n");
    push_str(&mut strn, "\tRegistry root dir, size: ");
    let t = human_size(s.total_reg_size);
    push_str(&mut strn, t.as_str());
    push_str(&mut strn, "\n");
    push_str(&mut strn, "\tCrate registries are stored here.\n");
    push_str(&mut strn, "\n");
    push_str(&mut strn, c.registry_index.as_str());
    push_str(&mut strn, "\n");
    push_str(&mut strn, "\tRegistry index, size: ");
    let t = human_size(s.total_reg_index_size);
    push_str(&mut strn, t.as_str());
    push_str(&mut strn, "\n");
    push_str(&mut strn, "\tA git repo holding information on what crates are available.\n");
    push_str(&mut strn, "\tWill be recloned as needed.\n");
    push_str(&mut strn, "\n");
    push_str(&mut strn, c.registry_pkg_cache.as_str());
    push_str(&mut strn, "\n");
    push_str(&mut strn, "\tCrate source package archive, size: ");
    let t = human_size(s.total_reg_cache_size);
    push_str(&mut strn, t.as_str());
    push_str(&mut strn, "\n");
    push_str(&mut strn, "\tCrates source packages of the registries are downloaded into this folder.\n");
    push_str(&mut strn, "\tThey will be redownloaded as needed.\n");
    push_str(&mut strn, "\n");
    push_str(&mut strn, c.registry_sources.as_str());
    push_str(&mut strn, "\n");
    push_str(&mut strn, "\tCrate sources, size: ");
    let t = human_size(s.total_reg_src_size);
    push_str(&mut strn, t.as_str());
    push_str(&mut strn, "\n");
    push_str(&mut strn, "\tSource archives are extracted into this dir.\n");
    push_str(&mut strn, "\tThey will be reextracted from the package archive as needed.\n");
    push_str(&mut strn, "\n");
    push_str(&mut strn, c.git_repos_bare.as_str());
    push_str(&mut strn, "\n");
    push_str(&mut strn, "\tGit database, size: ");
    let t = human_size(s.total_git_repos_bare_size);
    push_str(&mut strn, t.as_str());
    push_str(&mut strn, "\n");
    push_str(&mut strn, "\tBare repos of git dependencies are stored here.\n");
    push_str(&mut strn, "\tRemoved git repositories will be recloned as needed.\n");
    push_str(&mut strn, "\n");
    push_str(&mut strn, c.git_checkouts.as_str());
    push_str(&mut strn, "\n");
    push_str(&mut strn, "\tGit repo checkouts, size: ");
    let t = human_size(s.total_git_chk_size);
    push_str(&mut strn, t.as_str());
    push_str(&mut strn, "\n");
    push_str(&mut strn, "\tSpecific commits of the bare repos will be checked out into here.\n");
    push_str(&mut strn, "\tGit checkouts will be rechecked-out from repo database as needed.");
    strn
}

} // verus!

verus! {

/// The line reporting a size change of the whole cache (`percentage` is the change in percent,
/// as text).
pub fn size_changed_line(previous_total_size: u64, new_total_size: u64, percentage: &str) -> (r: String)
    requires
        previous_total_size <= i64::MAX,
        new_total_size <= i64::MAX,
    ensures
        r@ == "\nSize changed from "@ + decimal_file_size(previous_total_size) + " to "@ + size_diff_text(
            previous_total_size,
            new_total_size,
            false,
            percentage@,
        ),
{
    let mut r = String::new();
    push_str(&mut r, "\nSize changed from ");
    let b = human_size(previous_total_size);
    push_str(&mut r, b.as_str());
    push_str(&mut r, " to ");
    let d = size_diff_format(previous_total_size, new_total_size, false, percentage);
    push_str(&mut r, d.as_str());
    r
}

} // verus!
