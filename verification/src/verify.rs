//! Checking extracted crate sources against their `.crate` archives: which files are missing,
//! which are additional and which differ in size.
use vstd::prelude::*;

use unicode_normalization::UnicodeNormalization;

use crate::paths::{
    components, file_name, first_index, join_all, path_components, position_of, same_path,
    is_same_path, path_file_name, str_views,
};
use crate::remove::{remove_file, DryRunMessage, FileRemoval, removal_message};
use crate::text::{decimal, join_strings, join_with, push_decimal, push_str, str_equals};

verus! {

/// Whether a text is in Unicode normalization form KC.
pub uninterp spec fn is_nfkc_text(s: Seq<char>) -> bool;

/// The Unicode normalization form C of a text.
pub uninterp spec fn nfc_text(s: Seq<char>) -> Seq<char>;

/// `unicode_normalization::is_nfkc`: whether the text is in normalization form KC; a function of
/// the text alone.
#[verifier::external_body]
fn text_is_nfkc(s: &str) -> (r: bool)
    ensures
        r == is_nfkc_text(s@),
{
    unicode_normalization::is_nfkc(s)
}

/// `UnicodeNormalization::nfc` on the characters of the text, collected into a string: the
/// normalization form C of the text, a function of the text alone.
#[verifier::external_body]
fn nfc_of(s: &str) -> (r: String)
    ensures
        r@ == nfc_text(s@),
{
    s.chars().nfc().collect::<String>()
}

/// A path as the comparison sees it: in normalization form C unless it is already in form KC
/// (the same file may be named with different Unicode representations).
pub open spec fn normalized_path(p: Seq<char>) -> Seq<char> {
    if !is_nfkc_text(p) {
        nfc_text(p)
    } else {
        p
    }
}

/// The path as the comparison sees it.
pub fn normalized(path: &str) -> (r: String)
    ensures
        r@ == normalized_path(path@),
{
    if !text_is_nfkc(path) {
        nfc_of(path)
    } else {
        let mut s = String::new();
        push_str(&mut s, path);
        s
    }
}

/// A file of a crate, by its path inside the crate, and its size.
pub struct FileWithSize {
    pub path: String,
    pub size: u64,
}

/// The mathematical content of a `FileWithSize`.
pub struct FileWithSizeView {
    pub path: Seq<char>,
    pub size: u64,
}

impl View for FileWithSize {
    type V = FileWithSizeView;

    open spec fn view(&self) -> FileWithSizeView {
        FileWithSizeView { path: self.path@, size: self.size }
    }
}

/// The views of a list of files.
pub open spec fn file_views(fs: Seq<FileWithSize>) -> Seq<FileWithSizeView> {
    fs.map_values(|f: FileWithSize| f@)
}

/// The path of a file inside its crate: its components from the first one named `krate_root`
/// on, normalized.
pub open spec fn path_in_crate(path: Seq<char>, krate_root: Seq<char>) -> Seq<char> {
    let cs = components(path);
    normalized_path(crate::paths::joined(seq![], cs.subrange(first_index(cs, krate_root)->0, cs.len() as int)))
}

impl FileWithSize {
    /// A file of an extracted source of `size` bytes, by its path from the crate's root directory
    /// `krate_root` on (which must be one of the path's components).
    pub fn from_disk(path_orig: &str, krate_root: &str, size: u64) -> (f: FileWithSize)
        requires
            first_index(components(path_orig@), krate_root@) is Some,
        ensures
            f@.path == path_in_crate(path_orig@, krate_root@),
            f@.size == size,
    {
        let cs = path_components(path_orig);
        proof {
            assert(str_views(cs@) == components(path_orig@));
        }
        let index = match position_of(&cs, krate_root) {
            Some(i) => i,
            None => {
                assert(false);
                0
            },
        };
        let path = join_all("", &cs, index, cs.len());
        proof {
            reveal_strlit("");
        assert(""@ =~= Seq::<char>::empty());
        }
        FileWithSize { path: normalized(path.as_str()), size }
    }

    /// A file of an archive, by the path its entry gives, of `size` bytes.
    pub fn from_archive(path: &str, size: u64) -> (f: FileWithSize)
        ensures
            f@.path == normalized_path(path@),
            f@.size == size,
    {
        FileWithSize { path: normalized(path), size }
    }
}

/// A file whose size in the archive and in the extracted source differ.
pub struct FileSizeDifference {
    pub path: String,
    pub size_archive: u64,
    pub size_source: u64,
}

/// The mathematical content of a `FileSizeDifference`.
pub struct FileSizeDifferenceView {
    pub path: Seq<char>,
    pub size_archive: u64,
    pub size_source: u64,
}

impl View for FileSizeDifference {
    type V = FileSizeDifferenceView;

    open spec fn view(&self) -> FileSizeDifferenceView {
        FileSizeDifferenceView { path: self.path@, size_archive: self.size_archive, size_source: self.size_source }
    }
}

/// The views of a list of size differences.
pub open spec fn difference_views(ds: Seq<FileSizeDifference>) -> Seq<FileSizeDifferenceView> {
    ds.map_values(|d: FileSizeDifference| d@)
}

/// How an extracted source differs from its archive.
pub struct Diff {
    /// The crate compared.
    pub krate_name: String,
    /// Files of the archive that the source lacks.
    pub files_missing_in_checkout: Vec<String>,
    /// Files of the source that the archive lacks.
    pub additional_files_in_checkout: Vec<String>,
    /// Files whose sizes differ.
    pub files_size_difference: Vec<FileSizeDifference>,
    /// The extracted source.
    pub source_path: Option<String>,
}

/// The mathematical content of a `Diff`.
pub struct DiffView {
    pub krate_name: Seq<char>,
    pub missing: Seq<Seq<char>>,
    pub additional: Seq<Seq<char>>,
    pub size_differences: Seq<FileSizeDifferenceView>,
    pub source_path: Option<Seq<char>>,
}

impl View for Diff {
    type V = DiffView;

    open spec fn view(&self) -> DiffView {
        DiffView {
            krate_name: self.krate_name@,
            missing: str_views(self.files_missing_in_checkout@),
            additional: str_views(self.additional_files_in_checkout@),
            size_differences: difference_views(self.files_size_difference@),
            source_path: match self.source_path {
                Some(p) => Some(p@),
                None => None,
            },
        }
    }
}

/// No file is missing, additional or of another size.
pub open spec fn diff_is_ok(d: DiffView) -> bool {
    d.missing.len() == 0 && d.additional.len() == 0 && d.size_differences.len() == 0
}

/// The line describing one size difference.
pub open spec fn difference_line(d: FileSizeDifferenceView) -> Seq<char> {
    "File: "@ + d.path + ", size in archive: "@ + decimal(d.size_archive as nat) + "b, size in checkout: "@
        + decimal(d.size_source as nat) + "b\n"@
}

/// The lines describing the first `n` size differences.
pub open spec fn difference_lines(ds: Seq<FileSizeDifferenceView>, n: int) -> Seq<char>
    decreases n,
{
    if n <= 0 {
        seq![]
    } else {
        difference_lines(ds, n - 1) + difference_line(ds[n - 1])
    }
}

/// The report of a diff: the crate, then the missing files, the additional files and the size
/// differences, each part only where there is something to say.
pub open spec fn diff_details(d: DiffView) -> Seq<char> {
    "Crate: "@ + d.krate_name + "\n"@ + (if d.missing.len() > 0 {
        "Missing from source:\n"@ + join_with(d.missing, ", "@) + "\n"@
    } else {
        seq![]
    }) + (if d.additional.len() > 0 {
        "Not found in archive/additional:\n"@ + join_with(d.additional, ", "@) + "\n"@
    } else {
        seq![]
    }) + difference_lines(d.size_differences, d.size_differences.len() as int)
}

impl Diff {
    /// An empty diff.
    pub fn new() -> (d: Diff)
        ensures
            d@.krate_name.len() == 0,
            d@.missing.len() == 0,
            d@.additional.len() == 0,
            d@.size_differences.len() == 0,
            d@.source_path is None,
    {
        Diff {
            krate_name: String::new(),
            files_missing_in_checkout: Vec::new(),
            additional_files_in_checkout: Vec::new(),
            files_size_difference: Vec::new(),
            source_path: None,
        }
    }

    /// Whether the source matches its archive.
    pub fn is_ok(&self) -> (b: bool)
        ensures
            b == diff_is_ok(self@),
    {
        self.files_missing_in_checkout.len() == 0 && self.additional_files_in_checkout.len() == 0
            && self.files_size_difference.len() == 0
    }

    /// The report of the diff.
    pub fn details(&self) -> (s: String)
        ensures
            s@ == diff_details(self@),
    {
        let mut s = String::new();
        push_str(&mut s, "Crate: ");
        push_str(&mut s, self.krate_name.as_str());
        push_str(&mut s, "\n");
        if self.files_missing_in_checkout.len() > 0 {
            push_str(&mut s, "Missing from source:\n");
            let joined = join_strings(&self.files_missing_in_checkout, ", ");
            push_str(&mut s, joined.as_str());
            push_str(&mut s, "\n");
        }
        if self.additional_files_in_checkout.len() > 0 {
            push_str(&mut s, "Not found in archive/additional:\n");
            let joined = join_strings(&self.additional_files_in_checkout, ", ");
            push_str(&mut s, joined.as_str());
            push_str(&mut s, "\n");
        }
        let ghost head = s@;
        let ghost ds = difference_views(self.files_size_difference@);
        let mut i: usize = 0;
        while i < self.files_size_difference.len()
            invariant
                i <= self.files_size_difference.len(),
                ds == difference_views(self.files_size_difference@),
                s@ == head + difference_lines(ds, i as int),
            decreases self.files_size_difference.len() - i,
        {
            let d = &self.files_size_difference[i];
            push_str(&mut s, "File: ");
            push_str(&mut s, d.path.as_str());
            push_str(&mut s, ", size in archive: ");
            push_decimal(&mut s, d.size_archive);
            push_str(&mut s, "b, size in checkout: ");
            push_decimal(&mut s, d.size_source);
            push_str(&mut s, "b\n");
            assert(ds[i as int] == d@);
            i = i + 1;
        }
        s
    }
}

/// The archive that the extracted source at `src` came from: its registry directory `src`
/// replaced by `cache`, and `.crate` added to its name.
pub open spec fn cache_path_of(src: Seq<char>) -> Seq<char> {
    let cs = components(src);
    let n = cs.len() as int;
    crate::paths::joined(
        seq![],
        cs.take(n - 3).push("cache"@).push(cs[n - 2]).push(cs[n - 1] + ".crate"@),
    )
}

/// The path of the archive that the extracted source at `src_path` came from.
pub fn map_src_path_to_cache_path(src_path: &str) -> (r: String)
    requires
        components(src_path@).len() >= 3,
    ensures
        r@ == cache_path_of(src_path@),
{
    let cs = path_components(src_path);
    proof {
        assert(str_views(cs@) == components(src_path@));
    }
    let n = cs.len();
    let mut dir: Vec<String> = Vec::new();
    let mut i: usize = 0;
    while i < n - 3
        invariant
            n == cs.len(),
            n >= 3,
            i <= n - 3,
            str_views(dir@) == str_views(cs@).take(i as int),
        decreases n - 3 - i,
    {
        let ghost before = str_views(dir@);
        dir.push(crate::top_items::common::copy_string(&cs[i]));
        assert(str_views(dir@) =~= before.push(cs@[i as int]@));
        assert(str_views(cs@).take(i + 1) =~= str_views(cs@).take(i as int).push(cs@[i as int]@));
        i = i + 1;
    }
    let ghost before = str_views(dir@);
    dir.push(crate::top_items::common::string_from("cache"));
    dir.push(crate::top_items::common::copy_string(&cs[n - 2]));
    let mut last = crate::top_items::common::copy_string(&cs[n - 1]);
    push_str(&mut last, ".crate");
    dir.push(last);
    let ghost n_int = n as int;
    assert(str_views(dir@) =~= before.push("cache"@).push(cs@[n_int - 2]@).push(cs@[n_int - 1]@ + ".crate"@));
    let r = join_all("", &dir, 0, dir.len());
    proof {
        reveal_strlit("");
        assert(""@ =~= Seq::<char>::empty());
        assert(str_views(dir@).subrange(0, dir@.len() as int) =~= str_views(dir@));
    }
    r
}

} // verus!

verus! {

/// Some file of `fs` has the path `p`.
pub open spec fn in_files(p: Seq<char>, fs: Seq<FileWithSizeView>) -> bool {
    exists|k: int| 0 <= k < fs.len() && same_path(#[trigger] fs[k].path, p)
}

/// `i` is the first file of `fs` with the path `p`.
pub open spec fn first_same_at(fs: Seq<FileWithSizeView>, p: Seq<char>, i: int) -> bool {
    &&& 0 <= i < fs.len()
    &&& same_path(fs[i].path, p)
    &&& forall|j: int| 0 <= j < i ==> !same_path(#[trigger] fs[j].path, p)
}

/// The first file of `fs` with the path `p`.
pub open spec fn first_same(fs: Seq<FileWithSizeView>, p: Seq<char>) -> int {
    choose|i: int| first_same_at(fs, p, i)
}

/// The files of the archive that the source lacks, in order.
pub open spec fn missing_files(arch: Seq<FileWithSizeView>, src: Seq<FileWithSizeView>) -> Seq<Seq<char>>
    decreases arch.len(),
{
    if arch.len() == 0 {
        seq![]
    } else if !in_files(arch.last().path, src) {
        missing_files(arch.drop_last(), src).push(arch.last().path)
    } else {
        missing_files(arch.drop_last(), src)
    }
}

/// The files of the archive whose first namesake in the source has another size, in order.
pub open spec fn size_differences(arch: Seq<FileWithSizeView>, src: Seq<FileWithSizeView>) -> Seq<FileSizeDifferenceView>
    decreases arch.len(),
{
    if arch.len() == 0 {
        seq![]
    } else {
        let a = arch.last();
        let rest = size_differences(arch.drop_last(), src);
        if in_files(a.path, src) && src[first_same(src, a.path)].size != a.size {
            let s = src[first_same(src, a.path)];
            rest.push(FileSizeDifferenceView { path: s.path, size_archive: a.size, size_source: s.size })
        } else {
            rest
        }
    }
}

/// The files of the source that the archive lacks, in order, leaving out the `.cargo-ok` marker
/// and the paths that name directories (`is_dir`).
pub open spec fn additional_files(src: Seq<FileWithSizeView>, is_dir: Seq<bool>, arch: Seq<FileWithSizeView>) -> Seq<Seq<char>>
    decreases src.len(),
{
    if src.len() == 0 {
        seq![]
    } else {
        let s = src.last();
        let rest = additional_files(src.drop_last(), is_dir, arch);
        if file_name(s.path) != Some(".cargo-ok"@) && !is_dir[src.len() - 1] && !in_files(s.path, arch) {
            rest.push(s.path)
        } else {
            rest
        }
    }
}

fn find_same(fs: &Vec<FileWithSize>, p: &str) -> (r: Option<usize>)
    ensures
        match r {
            Some(i) => first_same_at(file_views(fs@), p@, i as int) && in_files(p@, file_views(fs@)),
            None => !in_files(p@, file_views(fs@)),
        },
{
    let ghost v = file_views(fs@);
    let mut i: usize = 0;
    while i < fs.len()
        invariant
            i <= fs.len(),
            v == file_views(fs@),
            forall|j: int| 0 <= j < i ==> !same_path(#[trigger] v[j].path, p@),
        decreases fs.len() - i,
    {
        if is_same_path(fs[i].path.as_str(), p) {
            assert(v[i as int].path == fs@[i as int].path@);
            return Some(i);
        }
        i = i + 1;
    }
    None
}

proof fn lemma_first_same(fs: Seq<FileWithSizeView>, p: Seq<char>, i: int)
    requires
        first_same_at(fs, p, i),
    ensures
        first_same(fs, p) == i,
{
    let j = choose|j: int| first_same_at(fs, p, j);
    assert(first_same_at(fs, p, j));
    if j < i {
        assert(!same_path(fs[j].path, p));
    } else if i < j {
        assert(!same_path(fs[i].path, p));
    }
}

/// Some file named `p` lies at or before position `k`: the first such file exists.
proof fn lemma_first_namesake(fs: Seq<FileWithSizeView>, p: Seq<char>, k: int) -> (i: int)
    requires
        0 <= k < fs.len(),
        same_path(fs[k].path, p),
    ensures
        first_same_at(fs, p, i),
        i <= k,
    decreases k,
{
    if exists|j: int| 0 <= j < k && same_path(#[trigger] fs[j].path, p) {
        let j = choose|j: int| 0 <= j < k && same_path(#[trigger] fs[j].path, p);
        lemma_first_namesake(fs, p, j)
    } else {
        k
    }
}

/// Every archive file whose first namesake in the source has another size is reported, with the
/// source's path and both sizes.
pub proof fn lemma_size_mismatch_reported(arch: Seq<FileWithSizeView>, src: Seq<FileWithSizeView>, i: int, j: int)
    requires
        0 <= i < arch.len(),
        first_same_at(src, arch[i].path, j),
        src[j].size != arch[i].size,
    ensures
        size_differences(arch, src).contains(
            FileSizeDifferenceView { path: src[j].path, size_archive: arch[i].size, size_source: src[j].size },
        ),
    decreases arch.len(),
{
    let d = FileSizeDifferenceView { path: src[j].path, size_archive: arch[i].size, size_source: src[j].size };
    let rest = size_differences(arch.drop_last(), src);
    if i == arch.len() - 1 {
        lemma_first_same(src, arch[i].path, j);
        assert(in_files(arch[i].path, src));
        assert(size_differences(arch, src) == rest.push(d));
        assert(size_differences(arch, src)[rest.len() as int] == d);
    } else {
        assert(arch.drop_last()[i] == arch[i]);
        lemma_size_mismatch_reported(arch.drop_last(), src, i, j);
        let k = choose|k: int| 0 <= k < rest.len() && rest[k] == d;
        assert(size_differences(arch, src)[k] == d);
    }
}

/// Every reported size difference comes from an archive file and its first namesake in the
/// source, and the two sizes it gives differ.
pub proof fn lemma_reported_sizes_differ(arch: Seq<FileWithSizeView>, src: Seq<FileWithSizeView>, k: int)
    requires
        0 <= k < size_differences(arch, src).len(),
    ensures
        size_differences(arch, src)[k].size_archive != size_differences(arch, src)[k].size_source,
        exists|i: int, j: int|
            0 <= i < arch.len() && first_same_at(src, arch[i].path, j) && size_differences(arch, src)[k] == (
            FileSizeDifferenceView { path: src[j].path, size_archive: arch[i].size, size_source: src[j].size }),
    decreases arch.len(),
{
    let rest = size_differences(arch.drop_last(), src);
    if k < rest.len() {
        lemma_reported_sizes_differ(arch.drop_last(), src, k);
        let (i, j) = choose|i: int, j: int|
            0 <= i < arch.drop_last().len() && first_same_at(src, arch.drop_last()[i].path, j) && rest[k] == (
            FileSizeDifferenceView { path: src[j].path, size_archive: arch.drop_last()[i].size, size_source: src[j].size });
        assert(arch.drop_last()[i] == arch[i]);
        assert(size_differences(arch, src)[k] == rest[k]);
    } else {
        let a = arch.last();
        assert(in_files(a.path, src));
        let w = choose|w: int| 0 <= w < src.len() && same_path(#[trigger] src[w].path, a.path);
        let j = lemma_first_namesake(src, a.path, w);
        lemma_first_same(src, a.path, j);
        assert(arch[arch.len() - 1] == a);
        assert(size_differences(arch, src)[k] == (FileSizeDifferenceView {
            path: src[j].path,
            size_archive: a.size,
            size_source: src[j].size,
        }));
    }
}

/// The missing files are exactly the archive's files that no file of the source has the path of:
/// each such file is listed, and each listed path is such a file's.
pub proof fn lemma_missing_files_exact(arch: Seq<FileWithSizeView>, src: Seq<FileWithSizeView>)
    ensures
        forall|i: int| 0 <= i < arch.len() && !in_files(#[trigger] arch[i].path, src) ==> missing_files(arch, src).contains(
            arch[i].path,
        ),
        forall|x: int| 0 <= x < missing_files(arch, src).len() ==> exists|i: int|
            0 <= i < arch.len() && arch[i].path == #[trigger] missing_files(arch, src)[x] && !in_files(arch[i].path, src),
    decreases arch.len(),
{
    if arch.len() > 0 {
        let rest = missing_files(arch.drop_last(), src);
        let all = missing_files(arch, src);
        lemma_missing_files_exact(arch.drop_last(), src);
        assert forall|i: int| 0 <= i < arch.len() && !in_files(#[trigger] arch[i].path, src) implies all.contains(arch[i].path) by {
            if i < arch.len() - 1 {
                assert(arch.drop_last()[i] == arch[i]);
                let x = choose|x: int| 0 <= x < rest.len() && rest[x] == arch[i].path;
                assert(all[x] == rest[x]);
            } else {
                assert(all[rest.len() as int] == arch[i].path);
            }
        }
        assert forall|x: int| 0 <= x < all.len() implies exists|i: int|
            0 <= i < arch.len() && arch[i].path == #[trigger] all[x] && !in_files(arch[i].path, src) by {
            if x < rest.len() {
                let i = choose|i: int|
                    0 <= i < arch.drop_last().len() && arch.drop_last()[i].path == #[trigger] rest[x] && !in_files(
                        arch.drop_last()[i].path,
                        src,
                    );
                assert(arch[i] == arch.drop_last()[i]);
                assert(all[x] == rest[x]);
            } else {
                assert(arch[arch.len() - 1].path == all[x]);
            }
        }
    }
}

/// The additional files are exactly the source's files that the archive lacks, apart from the
/// `.cargo-ok` marker and directories: each such file is listed, and each listed path is such a
/// file's.
pub proof fn lemma_additional_files_exact(src: Seq<FileWithSizeView>, is_dir: Seq<bool>, arch: Seq<FileWithSizeView>)
    requires
        is_dir.len() == src.len(),
    ensures
        forall|i: int|
            0 <= i < src.len() && file_name(src[i].path) != Some(".cargo-ok"@) && !is_dir[i] && !in_files(
                #[trigger] src[i].path,
                arch,
            ) ==> additional_files(src, is_dir, arch).contains(src[i].path),
        forall|x: int| 0 <= x < additional_files(src, is_dir, arch).len() ==> exists|i: int|
            0 <= i < src.len() && src[i].path == #[trigger] additional_files(src, is_dir, arch)[x] && file_name(
                src[i].path,
            ) != Some(".cargo-ok"@) && !is_dir[i] && !in_files(src[i].path, arch),
    decreases src.len(),
{
    if src.len() > 0 {
        let sd = src.drop_last();
        let dd = is_dir.drop_last();
        let rest = additional_files(sd, is_dir, arch);
        let all = additional_files(src, is_dir, arch);
        lemma_additional_files_prefix(sd, is_dir, dd, arch);
        lemma_additional_files_exact(sd, dd, arch);
        assert forall|i: int|
            0 <= i < src.len() && file_name(src[i].path) != Some(".cargo-ok"@) && !is_dir[i] && !in_files(
                #[trigger] src[i].path,
                arch,
            ) implies all.contains(src[i].path) by {
            if i < src.len() - 1 {
                assert(sd[i] == src[i]);
                assert(dd[i] == is_dir[i]);
                let x = choose|x: int| 0 <= x < rest.len() && rest[x] == src[i].path;
                assert(all[x] == rest[x]);
            } else {
                assert(all[rest.len() as int] == src[i].path);
            }
        }
        assert forall|x: int| 0 <= x < all.len() implies exists|i: int|
            0 <= i < src.len() && src[i].path == #[trigger] all[x] && file_name(src[i].path) != Some(".cargo-ok"@)
                && !is_dir[i] && !in_files(src[i].path, arch) by {
            if x < rest.len() {
                let i = choose|i: int|
                    0 <= i < sd.len() && sd[i].path == #[trigger] additional_files(sd, dd, arch)[x] && file_name(
                        sd[i].path,
                    ) != Some(".cargo-ok"@) && !dd[i] && !in_files(sd[i].path, arch);
                assert(src[i] == sd[i]);
                assert(is_dir[i] == dd[i]);
                assert(all[x] == rest[x]);
            } else {
                assert(src[src.len() - 1].path == all[x]);
            }
        }
    }
}

/// The additional files of a list depend only on the flags of its own positions.
proof fn lemma_additional_files_prefix(src: Seq<FileWithSizeView>, d1: Seq<bool>, d2: Seq<bool>, arch: Seq<FileWithSizeView>)
    requires
        src.len() <= d1.len(),
        src.len() <= d2.len(),
        forall|i: int| 0 <= i < src.len() ==> d1[i] == d2[i],
    ensures
        additional_files(src, d1, arch) == additional_files(src, d2, arch),
    decreases src.len(),
{
    if src.len() > 0 {
        lemma_additional_files_prefix(src.drop_last(), d1, d2, arch);
    }
}

/// The paths of all files of the source have a file name.
pub open spec fn all_named(fs: Seq<FileWithSizeView>) -> bool {
    forall|k: int| 0 <= k < fs.len() ==> (#[trigger] file_name(fs[k].path)) is Some
}

/// Compares the files of a crate archive with those of its extracted source at `source`
/// (`is_dir` tells, for each source file, whether its path names a directory): the files the
/// source lacks, those whose sizes differ, and those the archive lacks.
pub fn diff_crate_and_source(
    files_of_archive: &Vec<FileWithSize>,
    files_of_source: &Vec<FileWithSize>,
    source: &str,
    is_dir: &Vec<bool>,
) -> (d: Diff)
    requires
        components(source@).len() > 0,
        is_dir.len() == files_of_source.len(),
        all_named(file_views(files_of_source@)),
    ensures
        d@.krate_name == components(source@).last(),
        d@.source_path == Some(source@),
        d@.missing == missing_files(file_views(files_of_archive@), file_views(files_of_source@)),
        d@.size_differences == size_differences(file_views(files_of_archive@), file_views(files_of_source@)),
        d@.additional == additional_files(file_views(files_of_source@), is_dir@, file_views(files_of_archive@)),
{
    let ghost arch = file_views(files_of_archive@);
    let ghost src = file_views(files_of_source@);
    let cs = path_components(source);
    proof {
        assert(str_views(cs@) == components(source@));
        assert(cs@[cs.len() - 1]@ == str_views(cs@)[cs.len() - 1]);
    }
    let krate_name = crate::top_items::common::copy_string(&cs[cs.len() - 1]);
    let mut missing: Vec<String> = Vec::new();
    let mut diffs: Vec<FileSizeDifference> = Vec::new();
    let mut i: usize = 0;
    while i < files_of_archive.len()
        invariant
            i <= files_of_archive.len(),
            arch == file_views(files_of_archive@),
            src == file_views(files_of_source@),
            str_views(missing@) == missing_files(arch.take(i as int), src),
            difference_views(diffs@) == size_differences(arch.take(i as int), src),
        decreases files_of_archive.len() - i,
    {
        let a = &files_of_archive[i];
        assert(arch.take(i + 1).drop_last() =~= arch.take(i as int));
        assert(arch.take(i + 1).last() == a@);
        match find_same(files_of_source, a.path.as_str()) {
            None => {
                let ghost before = str_views(missing@);
                missing.push(crate::top_items::common::copy_string(&a.path));
                assert(str_views(missing@) =~= before.push(a@.path));
            },
            Some(j) => {
                proof {
                    lemma_first_same(src, a@.path, j as int);
                }
                let s = &files_of_source[j];
                assert(src[j as int] == s@);
                if s.size != a.size {
                    let ghost before = difference_views(diffs@);
                    diffs.push(
                        FileSizeDifference {
                            path: crate::top_items::common::copy_string(&s.path),
                            size_archive: a.size,
                            size_source: s.size,
                        },
                    );
                    assert(difference_views(diffs@) =~= before.push(
                        FileSizeDifferenceView { path: s@.path, size_archive: a.size, size_source: s.size },
                    ));
                }
            },
        }
        i = i + 1;
    }
    assert(arch.take(files_of_archive.len() as int) =~= arch);
    let mut additional: Vec<String> = Vec::new();
    let mut k: usize = 0;
    while k < files_of_source.len()
        invariant
            k <= files_of_source.len(),
            is_dir.len() == files_of_source.len(),
            arch == file_views(files_of_archive@),
            src == file_views(files_of_source@),
            all_named(src),
            str_views(additional@) == additional_files(src.take(k as int), is_dir@, arch),
        decreases files_of_source.len() - k,
    {
        let s = &files_of_source[k];
        assert(src.take(k + 1).drop_last() =~= src.take(k as int));
        assert(src.take(k + 1).last() == s@);
        assert(src[k as int] == s@);
        assert(file_name(src[k as int].path) is Some);
        let name = match path_file_name(s.path.as_str()) {
            Some(n) => n,
            None => {
                assert(false);
                String::new()
            },
        };
        if !str_equals(name.as_str(), ".cargo-ok") && !is_dir[k] && find_same(files_of_archive, s.path.as_str()).is_none() {
            let ghost before = str_views(additional@);
            additional.push(crate::top_items::common::copy_string(&s.path));
            assert(str_views(additional@) =~= before.push(s@.path));
        }
        k = k + 1;
    }
    assert(src.take(files_of_source.len() as int) =~= src);
    let mut source_path = String::new();
    push_str(&mut source_path, source);
    Diff {
        krate_name,
        files_missing_in_checkout: missing,
        additional_files_in_checkout: additional,
        files_size_difference: diffs,
        source_path: Some(source_path),
    }
}

/// The line reporting a source that does not match its archive.
pub open spec fn corrupted_line(d: DiffView) -> Seq<char> {
    "Possibly corrupted source: "@ + d.krate_name
}

/// The line reporting a source that does not match its archive.
pub fn corrupted_source_line(d: &Diff) -> (s: String)
    ensures
        s@ == corrupted_line(d@),
{
    let mut s = String::new();
    push_str(&mut s, "Possibly corrupted source: ");
    push_str(&mut s, d.krate_name.as_str());
    s
}

/// The diffs that are not ok, in order.
pub open spec fn bad_diffs(ds: Seq<DiffView>) -> Seq<DiffView>
    decreases ds.len(),
{
    if ds.len() == 0 {
        seq![]
    } else if diff_is_ok(ds.last()) {
        bad_diffs(ds.drop_last())
    } else {
        bad_diffs(ds.drop_last()).push(ds.last())
    }
}

/// The views of a list of diffs.
pub open spec fn diff_views(ds: Seq<Diff>) -> Seq<DiffView> {
    ds.map_values(|d: Diff| d@)
}

/// The outcome of checking the sources, given the diff of each: ok when all match their
/// archives, else the diffs of those that do not, in order.
pub fn verify_crates(diffs: Vec<Diff>) -> (r: Result<(), Vec<Diff>>)
    ensures
        match r {
            Ok(()) => bad_diffs(diff_views(diffs@)).len() == 0,
            Err(bad) => bad_diffs(diff_views(diffs@)).len() > 0 && diff_views(bad@) == bad_diffs(diff_views(diffs@)),
        },
{
    let ghost all = diff_views(diffs@);
    let mut bad: Vec<Diff> = Vec::new();
    let mut rest = diffs;
    let ghost mut t: int = 0;
    while rest.len() > 0
        invariant
            0 <= t <= all.len(),
            diff_views(rest@) == all.skip(t),
            diff_views(bad@) == bad_diffs(all.take(t)),
        decreases rest.len(),
    {
        let ghost before_rest = rest@;
        assert(t < all.len()) by {
            assert(diff_views(before_rest).len() == before_rest.len());
        }
        let d = rest.remove(0);
        assert(d == before_rest[0]);
        assert(d@ == all[t]) by {
            assert(diff_views(before_rest)[0] == before_rest[0]@);
            assert(diff_views(before_rest)[0] == all.skip(t)[0]);
        }
        assert(all.take(t + 1).drop_last() =~= all.take(t));
        assert(all.take(t + 1).last() == all[t]);
        if !d.is_ok() {
            let ghost before = diff_views(bad@);
            bad.push(d);
            assert(diff_views(bad@) =~= before.push(all[t]));
        }
        assert(rest@ =~= before_rest.skip(1));
        assert forall|k: int| 0 <= k < rest@.len() implies #[trigger] diff_views(rest@)[k] == all.skip(t + 1)[k] by {
            assert(diff_views(rest@)[k] == rest@[k]@);
            assert(rest@[k] == before_rest[k + 1]);
            assert(diff_views(before_rest)[k + 1] == before_rest[k + 1]@);
            assert(diff_views(before_rest)[k + 1] == all.skip(t)[k + 1]);
        }
        assert(diff_views(rest@) =~= all.skip(t + 1));
        proof {
            t = t + 1;
        }
    }
    assert(all.skip(t).len() == 0);
    assert(all.take(t) =~= all);
    if bad.len() == 0 {
        Ok(())
    } else {
        Err(bad)
    }
}

/// The sources of the first `n` diffs that are directories (`is_dir`), in order.
pub open spec fn corrupted_sources(ds: Seq<DiffView>, is_dir: Seq<bool>, n: int) -> Seq<Seq<char>>
    decreases n,
{
    if n <= 0 {
        seq![]
    } else {
        let rest = corrupted_sources(ds, is_dir, n - 1);
        match ds[n - 1].source_path {
            Some(p) => if is_dir[n - 1] {
                rest.push(p)
            } else {
                rest
            },
            None => rest,
        }
    }
}

/// `rs` removes the sources `ps`, in order, announcing each as corrupted.
pub open spec fn removes_corrupted(rs: Seq<FileRemoval>, ps: Seq<Seq<char>>, dry_run: bool) -> bool {
    &&& rs.len() == ps.len()
    &&& forall|k: int| 0 <= k < rs.len() ==> {
        let r = #[trigger] rs[k];
        &&& r.path@ == ps[k]
        &&& r.message.deep_view() == removal_message(
            ps[k],
            dry_run,
            Some("removing corrupted source: "@ + ps[k]),
            DryRunMessage::Default,
            None,
        )
        &&& r.delete == !dry_run
    }
}

/// Decides the removal of the sources found corrupted: each diff's source that is a directory
/// (`is_dir`, one per diff) goes, announced as a corrupted source.
pub fn clean_corrupted(diff_list: &Vec<Diff>, is_dir: &Vec<bool>, dry_run: bool) -> (r: Vec<FileRemoval>)
    requires
        is_dir.len() == diff_list.len(),
    ensures
        removes_corrupted(r@, corrupted_sources(diff_views(diff_list@), is_dir@, diff_list.len() as int), dry_run),
{
    let ghost ds = diff_views(diff_list@);
    let mut r: Vec<FileRemoval> = Vec::new();
    let mut i: usize = 0;
    while i < diff_list.len()
        invariant
            i <= diff_list.len(),
            is_dir.len() == diff_list.len(),
            ds == diff_views(diff_list@),
            removes_corrupted(r@, corrupted_sources(ds, is_dir@, i as int), dry_run),
        decreases diff_list.len() - i,
    {
        let d = &diff_list[i];
        assert(ds[i as int] == d@);
        match &d.source_path {
            Some(p) => {
                if is_dir[i] {
                    let mut msg = String::new();
                    push_str(&mut msg, "removing corrupted source: ");
                    push_str(&mut msg, p.as_str());
                    let rm = remove_file(p.as_str(), dry_run, Some(msg), &DryRunMessage::Default, None);
                    let ghost before = r@;
                    r.push(rm);
                    assert(corrupted_sources(ds, is_dir@, i + 1) == corrupted_sources(ds, is_dir@, i as int).push(p@));
                    assert forall|k: int| 0 <= k < r@.len() - 1 implies #[trigger] r@[k] == before[k] by {}
                }
            },
            None => {},
        }
        i = i + 1;
    }
    r
}

/// Checking succeeds exactly when every source matches its archive.
pub proof fn lemma_verify_ok_iff_all_match(ds: Seq<DiffView>)
    ensures
        bad_diffs(ds).len() == 0 <==> forall|k: int| 0 <= k < ds.len() ==> diff_is_ok(#[trigger] ds[k]),
    decreases ds.len(),
{
    if ds.len() > 0 {
        let rest = ds.drop_last();
        lemma_verify_ok_iff_all_match(rest);
        if forall|k: int| 0 <= k < ds.len() ==> diff_is_ok(#[trigger] ds[k]) {
            assert forall|k: int| 0 <= k < rest.len() implies diff_is_ok(#[trigger] rest[k]) by {
                assert(rest[k] == ds[k]);
            }
            assert(diff_is_ok(ds[ds.len() - 1]));
        }
        if bad_diffs(ds).len() == 0 {
            assert forall|k: int| 0 <= k < ds.len() implies diff_is_ok(#[trigger] ds[k]) by {
                if k < ds.len() - 1 {
                    assert(rest[k] == ds[k]);
                }
            }
        }
    }
}

} // verus!
