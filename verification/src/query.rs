//! Querying the cache: the items whose names match a regular expression, sorted by name or size.
use vstd::prelude::*;

use regex::Regex;

use crate::human::{decimal_file_size, human_size};
use crate::library::Error;
use crate::order::{asc_order, name_order, order_by_key_asc, order_by_name, string_views};
use crate::paths::{file_name, path_file_name};
use crate::remove::stem_of;
use crate::text::{chars_of, decimal, push_decimal, push_str, string_of, trim, trimmed};

verus! {

/// Whether `pattern` is a regular expression that the `regex` crate accepts.
pub uninterp spec fn regex_compiles(pattern: Seq<char>) -> bool;

/// Whether the regular expression `pattern` matches somewhere in `text`.
pub uninterp spec fn regex_is_match(pattern: Seq<char>, text: Seq<char>) -> bool;

/// The message of the error the `regex` crate gives for `pattern`.
pub uninterp spec fn regex_error_text(pattern: Seq<char>) -> Seq<char>;

/// `regex::Regex::new`: whether `pattern` compiles, and the error's message when it does not.
/// Both depend on the pattern alone; the contract names them.
#[verifier::external_body]
fn regex_check(pattern: &str) -> (r: Result<(), String>)
    ensures
        r is Ok <==> regex_compiles(pattern@),
        r matches Err(e) ==> e@ == regex_error_text(pattern@),
{
    match Regex::new(pattern) {
        Ok(_) => Ok(()),
        Err(e) => Err(e.to_string()),
    }
}

/// `regex::Regex::is_match` on the compiled `pattern`: whether it matches somewhere in `text`.
/// The result depends on the pattern and the text alone; the contract names it.
#[verifier::external_body]
fn regex_matches(pattern: &str, text: &str) -> (r: bool)
    requires
        regex_compiles(pattern@),
    ensures
        r == regex_is_match(pattern@, text@),
{
    Regex::new(pattern).unwrap().is_match(text)
}

/// An item of the cache found by a query: its name and size.
pub struct QueryFile {
    pub name: String,
    pub size: u64,
}

/// The mathematical content of a `QueryFile`.
pub struct QueryFileView {
    pub name: Seq<char>,
    pub size: u64,
}

impl View for QueryFile {
    type V = QueryFileView;

    open spec fn view(&self) -> QueryFileView {
        QueryFileView { name: self.name@, size: self.size }
    }
}

/// The views of a list of items.
pub open spec fn file_views(fs: Seq<QueryFile>) -> Seq<QueryFileView> {
    fs.map_values(|f: QueryFile| f@)
}

/// The name an item is queried by: the file stem of its path.
pub fn path_to_name(path: &str) -> (r: String)
    requires
        file_name(path@) is Some,
    ensures
        r@ == stem_of(file_name(path@)->0),
{
    let n = path_file_name(path).unwrap();
    let nc = chars_of(n.as_str());
    string_of(&crate::remove::file_stem_of(&nc))
}

impl QueryFile {
    /// The item at `path` of `size` bytes, named by the file stem of its path.
    pub fn new(path: &str, size: u64) -> (f: QueryFile)
        requires
            file_name(path@) is Some,
        ensures
            f@.name == stem_of(file_name(path@)->0),
            f@.size == size,
    {
        QueryFile { name: path_to_name(path), size }
    }
}

/// How a query sorts what it found.
#[derive(PartialEq, Eq, Structural, Clone, Copy, Debug)]
pub enum SortBy {
    Name,
    Size,
}

/// The items whose names the pattern matches, in order.
pub open spec fn matching(pattern: Seq<char>, fs: Seq<QueryFileView>) -> Seq<QueryFileView>
    decreases fs.len(),
{
    if fs.len() == 0 {
        seq![]
    } else if regex_is_match(pattern, fs.last().name) {
        matching(pattern, fs.drop_last()).push(fs.last())
    } else {
        matching(pattern, fs.drop_last())
    }
}

/// The items sorted by name or by size, stably.
pub open spec fn sorted_files(fs: Seq<QueryFileView>, by: SortBy) -> Seq<QueryFileView> {
    let order = if by == SortBy::Name {
        name_order(fs.map_values(|f: QueryFileView| f.name))
    } else {
        asc_order(fs.map_values(|f: QueryFileView| f.size))
    };
    order.map_values(|i: int| fs[i])
}

/// The size of an item as a query shows it: in decimal units, or as a plain number.
pub open spec fn size_text(size: u64, human_readable: bool) -> Seq<char> {
    if human_readable {
        decimal_file_size(size)
    } else {
        decimal(size as nat)
    }
}

/// The line showing an item: a tab, its name, a colon and its size.
pub open spec fn file_line(f: QueryFileView, human_readable: bool) -> Seq<char> {
    "\t"@ + f.name + ": "@ + size_text(f.size, human_readable)
}

/// The lines of the first `n` items, each followed by a newline.
pub open spec fn file_lines(fs: Seq<QueryFileView>, human_readable: bool, n: int) -> Seq<char>
    decreases n,
{
    if n <= 0 {
        seq![]
    } else {
        file_lines(fs, human_readable, n - 1) + file_line(fs[n - 1], human_readable) + "\n"@
    }
}

/// A section of the query output: nothing when no item matched, else its title and the sorted
/// items.
pub open spec fn section(title: Seq<char>, fs: Seq<QueryFileView>, by: SortBy, human_readable: bool) -> Seq<char> {
    if fs.len() == 0 {
        seq![]
    } else {
        title + file_lines(sorted_files(fs, by), human_readable, fs.len() as int)
    }
}

/// The title of a section.
pub open spec fn section_title(first: bool, kind: Seq<char>, by: SortBy) -> Seq<char> {
    (if first && by == SortBy::Name { seq![] } else { "\n"@ }) + kind + (if by == SortBy::Name {
        " sorted by name:\n"@
    } else {
        " sorted by size:\n"@
    })
}

/// What a query prints: lines printed right away (the binaries, when sorting by size), then the
/// collected text, trimmed.
pub struct QueryOutput {
    pub printed_first: Vec<String>,
    pub output: String,
}

/// The items of the cache that a query looks at, per part.
pub struct QueryInput {
    pub binaries: Vec<QueryFile>,
    pub git_checkouts: Vec<QueryFile>,
    pub bare_repos: Vec<QueryFile>,
    pub registry_cache: Vec<QueryFile>,
    pub registry_sources: Vec<QueryFile>,
}

/// The text a query collects for the matching items of each part.
pub open spec fn query_text(
    pattern: Seq<char>,
    by: SortBy,
    hr: bool,
    bins: Seq<QueryFileView>,
    chk: Seq<QueryFileView>,
    bare: Seq<QueryFileView>,
    rc: Seq<QueryFileView>,
    rs: Seq<QueryFileView>,
) -> Seq<char> {
    let b = matching(pattern, bins);
    (if by == SortBy::Name {
        section(section_title(true, "Binaries"@, by), b, by, hr)
    } else if b.len() > 0 {
        section_title(true, "Binaries"@, by)
    } else {
        seq![]
    }) + section(section_title(false, "Git checkouts"@, by), matching(pattern, chk), by, hr) + section(
        section_title(false, "Bare git repos"@, by),
        matching(pattern, bare),
        by,
        hr,
    ) + section(section_title(false, "Registry cache"@, by), matching(pattern, rc), by, hr) + section(
        section_title(false, "Registry source cache"@, by),
        matching(pattern, rs),
        by,
        hr,
    )
}

/// The items of `fs` whose names `pattern` matches.
fn filter_matches(pattern: &str, fs: &Vec<QueryFile>) -> (r: Vec<QueryFile>)
    requires
        regex_compiles(pattern@),
    ensures
        file_views(r@) == matching(pattern@, file_views(fs@)),
{
    let ghost all = file_views(fs@);
    let mut r: Vec<QueryFile> = Vec::new();
    let mut i: usize = 0;
    while i < fs.len()
        invariant
            i <= fs.len(),
            regex_compiles(pattern@),
            all == file_views(fs@),
            file_views(r@) == matching(pattern@, all.take(i as int)),
        decreases fs.len() - i,
    {
        let f = &fs[i];
        assert(all.take(i + 1).drop_last() =~= all.take(i as int));
        assert(all.take(i + 1).last() == f@);
        if regex_matches(pattern, f.name.as_str()) {
            let ghost before = file_views(r@);
            r.push(QueryFile { name: copy_string(&f.name), size: f.size });
            assert(file_views(r@) =~= before.push(f@));
        }
        i = i + 1;
    }
    assert(all.take(fs.len() as int) =~= all);
    r
}

/// The lines of the items of `fs`, sorted; each line without its newline.
fn sorted_lines(fs: &Vec<QueryFile>, by: SortBy, human_readable: bool) -> (r: Vec<String>)
    ensures
        r@.len() == fs@.len(),
        sorted_files(file_views(fs@), by).len() == fs@.len(),
        forall|k: int| 0 <= k < r@.len() ==> #[trigger] r@[k]@ == file_line(sorted_files(file_views(fs@), by)[k], human_readable),
{
    let ghost v = file_views(fs@);
    let ghost sorted = sorted_files(v, by);
    let order = if by == SortBy::Name {
        let mut names: Vec<String> = Vec::new();
        let mut i: usize = 0;
        while i < fs.len()
            invariant
                i <= fs.len(),
                v == file_views(fs@),
                names@.len() == i,
                forall|q: int| 0 <= q < i ==> #[trigger] names@[q]@ == v[q].name,
            decreases fs.len() - i,
        {
            names.push(copy_string(&fs[i].name));
            i = i + 1;
        }
        assert(string_views(names@) =~= v.map_values(|f: QueryFileView| f.name));
        order_by_name(&names)
    } else {
        let mut sizes: Vec<u64> = Vec::new();
        let mut i: usize = 0;
        while i < fs.len()
            invariant
                i <= fs.len(),
                v == file_views(fs@),
                sizes@.len() == i,
                forall|q: int| 0 <= q < i ==> #[trigger] sizes@[q] == v[q].size,
            decreases fs.len() - i,
        {
            sizes.push(fs[i].size);
            i = i + 1;
        }
        assert(sizes@ =~= v.map_values(|f: QueryFileView| f.size));
        order_by_key_asc(&sizes)
    };
    let ghost op = order@.map_values(|i: usize| i as int);
    assert(op.len() == fs@.len());
    assert forall|k: int| 0 <= k < op.len() implies 0 <= #[trigger] op[k] < fs@.len() by {}
    let mut r: Vec<String> = Vec::new();
    let mut k: usize = 0;
    while k < order.len()
        invariant
            k <= order.len(),
            order@.len() == fs@.len(),
            v == file_views(fs@),
            op == order@.map_values(|i: usize| i as int),
            sorted == sorted_files(v, by),
            sorted == op.map_values(|i: int| v[i]),
            forall|q: int| 0 <= q < op.len() ==> 0 <= #[trigger] op[q] < fs@.len(),
            r@.len() == k,
            forall|q: int| 0 <= q < k ==> #[trigger] r@[q]@ == file_line(sorted[q], human_readable),
        decreases order.len() - k,
    {
        assert(op[k as int] == order@[k as int] as int);
        let f = &fs[order[k]];
        assert(f@ == sorted[k as int]);
        let mut line = String::new();
        push_str(&mut line, "\t");
        push_str(&mut line, f.name.as_str());
        push_str(&mut line, ": ");
        if human_readable {
            let t = human_size(f.size);
            push_str(&mut line, t.as_str());
        } else {
            push_decimal(&mut line, f.size);
        }
        r.push(line);
        k = k + 1;
    }
    r
}

/// Appends a section: its title and the sorted lines, when any item matched.
fn push_section(out: &mut String, title: &str, fs: &Vec<QueryFile>, by: SortBy, human_readable: bool)
    ensures
        final(out)@ == old(out)@ + section(title@, file_views(fs@), by, human_readable),
{
    if fs.len() == 0 {
        return;
    }
    push_str(out, title);
    let lines = sorted_lines(fs, by, human_readable);
    let ghost start = out@;
    let ghost sorted = sorted_files(file_views(fs@), by);
    let mut k: usize = 0;
    while k < lines.len()
        invariant
            k <= lines.len(),
            lines@.len() == fs@.len(),
            sorted == sorted_files(file_views(fs@), by),
            forall|q: int| 0 <= q < lines@.len() ==> #[trigger] lines@[q]@ == file_line(sorted[q], human_readable),
            out@ == start + file_lines(sorted, human_readable, k as int),
        decreases lines.len() - k,
    {
        push_str(out, lines[k].as_str());
        push_str(out, "\n");
        k = k + 1;
    }
}

/// Runs a query: the items of each part of the cache whose names `query` matches, sorted by name
/// or by size, with their sizes in decimal units or as plain numbers. A query that is no valid
/// regular expression is an error.
pub fn run_query(query: &str, sorting: SortBy, hr_size: bool, input: &QueryInput) -> (r: Result<QueryOutput, Error>)
    ensures
        match r {
            Ok(out) => regex_compiles(query@) && out.output@ == trim(query_text(
                query@,
                sorting,
                hr_size,
                file_views(input.binaries@),
                file_views(input.git_checkouts@),
                file_views(input.bare_repos@),
                file_views(input.registry_cache@),
                file_views(input.registry_sources@),
            )) && string_views(out.printed_first@) == (if sorting == SortBy::Size {
                sorted_files(matching(query@, file_views(input.binaries@)), SortBy::Size).map_values(
                    |f: QueryFileView| file_line(f, hr_size),
                )
            } else {
                Seq::<Seq<char>>::empty()
            }),
            Err(Error::QueryRegexFailedParsing(q)) => !regex_compiles(query@) && q@ == query@,
            Err(_) => false,
        },
{
    if regex_check(query).is_err() {
        let mut q = String::new();
        push_str(&mut q, query);
        return Err(Error::QueryRegexFailedParsing(q));
    }
    let bins = filter_matches(query, &input.binaries);
    let chk = filter_matches(query, &input.git_checkouts);
    let bare = filter_matches(query, &input.bare_repos);
    let rc = filter_matches(query, &input.registry_cache);
    let rs = filter_matches(query, &input.registry_sources);
    proof {
        reveal_strlit("Binaries sorted by name:\n");
        reveal_strlit("\nBinaries sorted by size:\n");
        reveal_strlit("\nGit checkouts sorted by name:\n");
        reveal_strlit("\nGit checkouts sorted by size:\n");
        reveal_strlit("\nBare git repos sorted by name:\n");
        reveal_strlit("\nBare git repos sorted by size:\n");
        reveal_strlit("\nRegistry cache sorted by name:\n");
        reveal_strlit("\nRegistry cache sorted by size:\n");
        reveal_strlit("\nRegistry source cache sorted by name:\n");
        reveal_strlit("\nRegistry source cache sorted by size:\n");
        reveal_strlit("Binaries");
        reveal_strlit("Git checkouts");
        reveal_strlit("Bare git repos");
        reveal_strlit("Registry cache");
        reveal_strlit("Registry source cache");
        reveal_strlit(" sorted by name:\n");
        reveal_strlit(" sorted by size:\n");
        reveal_strlit("\n");
        assert("Binaries sorted by name:\n"@ =~= section_title(true, "Binaries"@, SortBy::Name));
        assert("\nBinaries sorted by size:\n"@ =~= section_title(true, "Binaries"@, SortBy::Size));
        assert("\nGit checkouts sorted by name:\n"@ =~= section_title(false, "Git checkouts"@, SortBy::Name));
        assert("\nGit checkouts sorted by size:\n"@ =~= section_title(false, "Git checkouts"@, SortBy::Size));
        assert("\nBare git repos sorted by name:\n"@ =~= section_title(false, "Bare git repos"@, SortBy::Name));
        assert("\nBare git repos sorted by size:\n"@ =~= section_title(false, "Bare git repos"@, SortBy::Size));
        assert("\nRegistry cache sorted by name:\n"@ =~= section_title(false, "Registry cache"@, SortBy::Name));
        assert("\nRegistry cache sorted by size:\n"@ =~= section_title(false, "Registry cache"@, SortBy::Size));
        assert("\nRegistry source cache sorted by name:\n"@ =~= section_title(false, "Registry source cache"@, SortBy::Name));
        assert("\nRegistry source cache sorted by size:\n"@ =~= section_title(false, "Registry source cache"@, SortBy::Size));
    }
    let mut output = String::new();
    let mut printed_first: Vec<String> = Vec::new();
    if sorting == SortBy::Name {
        push_section(&mut output, "Binaries sorted by name:\n", &bins, sorting, hr_size);
    } else if bins.len() > 0 {
        push_str(&mut output, "\nBinaries sorted by size:\n");
        printed_first = sorted_lines(&bins, sorting, hr_size);
        assert(string_views(printed_first@) =~= sorted_files(file_views(bins@), SortBy::Size).map_values(
            |f: QueryFileView| file_line(f, hr_size),
        ));
    } else {
        proof {
            let keys = file_views(bins@).map_values(|f: QueryFileView| f.size);
            assert(crate::order::is_order_by(Seq::<int>::empty(), 0, crate::order::asc_before(keys)));
            assert(crate::order::is_order_by(asc_order(keys), 0, crate::order::asc_before(keys)));
        }
        assert(string_views(printed_first@) =~= sorted_files(file_views(bins@), SortBy::Size).map_values(
            |f: QueryFileView| file_line(f, hr_size),
        ));
    }
    if sorting == SortBy::Name {
        push_section(&mut output, "\nGit checkouts sorted by name:\n", &chk, sorting, hr_size);
        push_section(&mut output, "\nBare git repos sorted by name:\n", &bare, sorting, hr_size);
        push_section(&mut output, "\nRegistry cache sorted by name:\n", &rc, sorting, hr_size);
        push_section(&mut output, "\nRegistry source cache sorted by name:\n", &rs, sorting, hr_size);
    } else {
        push_section(&mut output, "\nGit checkouts sorted by size:\n", &chk, sorting, hr_size);
        push_section(&mut output, "\nBare git repos sorted by size:\n", &bare, sorting, hr_size);
        push_section(&mut output, "\nRegistry cache sorted by size:\n", &rc, sorting, hr_size);
        push_section(&mut output, "\nRegistry source cache sorted by size:\n", &rs, sorting, hr_size);
    }
    if sorting == SortBy::Name && bins.len() == 0 {
        assert(section_title(true, "Binaries"@, sorting) + file_lines(Seq::<QueryFileView>::empty(), hr_size, 0) == section_title(true, "Binaries"@, sorting));
    }
    let oc = chars_of(output.as_str());
    let t = trimmed(&oc);
    Ok(QueryOutput { printed_first, output: string_of(&t) })
}

fn copy_string(s: &String) -> (r: String)
    ensures
        r@ == s@,
{
    s.clone()
}

} // verus!
