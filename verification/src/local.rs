//! The report on a project's own target directory (`cargo cache local`): its total size, the
//! sizes of the build directories it knows by name, and the size of everything else in it.
use vstd::prelude::*;

use crate::human::{decimal_file_size, human_size};
use crate::paths::{join_path, path_join, path_starts_with, starts_with_path, str_views};
use crate::text::{pad_left, pad_right, push_padded_left, push_padded_right, push_str, spaces};

verus! {

/// `e` lies inside one of the build directories of `target` that the report lists by name.
pub open spec fn under_named_subdir(target: Seq<char>, e: Seq<char>) -> bool {
    ||| path_starts_with(e, path_join(target, "debug"@))
    ||| path_starts_with(e, path_join(target, "release"@))
    ||| path_starts_with(e, path_join(target, "rls"@))
    ||| path_starts_with(e, path_join(target, "package"@))
    ||| path_starts_with(e, path_join(target, "doc"@))
}

/// Whether the entry `e` lies inside one of the named build directories of `target`.
pub fn is_under_named_subdir(target: &str, e: &str) -> (r: bool)
    ensures
        r == under_named_subdir(target@, e@),
{
    starts_with_path(e, join_path(target, "debug").as_str())
        || starts_with_path(e, join_path(target, "release").as_str())
        || starts_with_path(e, join_path(target, "rls").as_str())
        || starts_with_path(e, join_path(target, "package").as_str())
        || starts_with_path(e, join_path(target, "doc").as_str())
}

/// The entries of `es`, in order, that lie in none of the named build directories of `target`.
pub open spec fn other_entries_of(target: Seq<char>, es: Seq<Seq<char>>) -> Seq<Seq<char>>
    decreases es.len(),
{
    if es.len() == 0 {
        es
    } else {
        let rest = other_entries_of(target, es.drop_last());
        if under_named_subdir(target, es.last()) {
            rest
        } else {
            rest.push(es.last())
        }
    }
}

/// The entries of the target directory whose contents count as `other` in the report.
pub fn other_entries(target: &str, entries: &Vec<String>) -> (r: Vec<String>)
    ensures
        str_views(r@) == other_entries_of(target@, str_views(entries@)),
{
    let mut r: Vec<String> = Vec::new();
    let mut i: usize = 0;
    while i < entries.len()
        invariant
            i <= entries.len(),
            str_views(r@) == other_entries_of(target@, str_views(entries@).take(i as int)),
        decreases entries.len() - i,
    {
        let e = &entries[i];
        let under = is_under_named_subdir(target, e.as_str());
        proof {
            let es = str_views(entries@).take(i as int + 1);
            assert(es.drop_last() =~= str_views(entries@).take(i as int));
            assert(es.last() == e@);
        }
        if !under {
            let ghost before = r@;
            r.push(e.clone());
            proof {
                assert(str_views(r@) =~= str_views(before).push(e@));
            }
        }
        i = i + 1;
    }
    proof {
        assert(str_views(entries@).take(entries.len() as int) =~= str_views(entries@));
    }
    r
}

/// The sizes that the report on a target directory shows.
pub struct TargetSizes {
    /// The whole target directory.
    pub total: u64,
    pub debug: u64,
    pub rls: u64,
    pub release: u64,
    pub package: u64,
    pub doc: u64,
    /// Everything outside the named build directories.
    pub other: u64,
}

/// The line for the whole target directory: the label in 15 columns, the size right-aligned in
/// 10.
pub open spec fn total_line(size: u64) -> Seq<char> {
    pad_right("Total size: "@, 15) + pad_left(decimal_file_size(size), 10) + "\n"@
}

/// The line for one part, indented by two spaces: the label (`name: `) in 13 columns, the size
/// right-aligned in 10; nothing when the part is empty.
pub open spec fn part_line(name: Seq<char>, size: u64) -> Seq<char> {
    if size > 0 {
        spaces(2) + pad_right(name + ": "@, 13) + pad_left(decimal_file_size(size), 10) + "\n"@
    } else {
        Seq::empty()
    }
}

/// The lines of the non-empty parts, in the order debug, rls, release, package, doc, other.
pub open spec fn parts_text(s: TargetSizes) -> Seq<char> {
    part_line("debug"@, s.debug) + part_line("rls"@, s.rls) + part_line("release"@, s.release)
        + part_line("package"@, s.package) + part_line("doc"@, s.doc) + part_line("other"@, s.other)
}

/// What the report says of an existing target directory: its path, the total and the parts.
pub open spec fn target_text(t: Seq<char>, s: TargetSizes) -> Seq<char> {
    "Target dir: "@ + t + "\n\n"@ + total_line(s.total) + parts_text(s)
}

/// The report: the project line (`project` is the workspace root as Rust's `Debug` writes a
/// string), then without a target directory a note saying so; with one its path, the total and
/// the non-empty parts.
pub open spec fn local_report_text(project: Seq<char>, target: Option<Seq<char>>, s: TargetSizes) -> Seq<char> {
    "Project "@ + project + "\n"@ + match target {
        None => "No target dir found!"@,
        Some(t) => target_text(t, s),
    }
}

fn push_part(out: &mut String, name: &str, size: u64)
    ensures
        final(out)@ == old(out)@ + part_line(name@, size),
{
    if size > 0 {
        let mut label = String::new();
        push_str(&mut label, name);
        push_str(&mut label, ": ");
        let hr = human_size(size);
        let ghost start = out@;
        push_str(out, "  ");
        push_padded_right(out, label.as_str(), 13);
        push_padded_left(out, hr.as_str(), 10);
        push_str(out, "\n");
        proof {
            reveal_strlit("  ");
            assert(spaces(2) =~= "  "@);
            assert(out@ =~= start + part_line(name@, size));
        }
    }
}

fn push_parts(out: &mut String, sizes: &TargetSizes)
    ensures
        final(out)@ == old(out)@ + parts_text(*sizes),
{
    let ghost start = out@;
    push_part(out, "debug", sizes.debug);
    push_part(out, "rls", sizes.rls);
    push_part(out, "release", sizes.release);
    push_part(out, "package", sizes.package);
    push_part(out, "doc", sizes.doc);
    push_part(out, "other", sizes.other);
    assert(out@ =~= start + parts_text(*sizes));
}

fn push_target(out: &mut String, t: &str, sizes: &TargetSizes)
    ensures
        final(out)@ == old(out)@ + target_text(t@, *sizes),
{
    let ghost start = out@;
    push_str(out, "Target dir: ");
    push_str(out, t);
    push_str(out, "\n\n");
    push_padded_right(out, "Total size: ", 15);
    let hr = human_size(sizes.total);
    push_padded_left(out, hr.as_str(), 10);
    push_str(out, "\n");
    let ghost mid = out@;
    assert(mid =~= start + "Target dir: "@ + t@ + "\n\n"@ + total_line(sizes.total));
    push_parts(out, sizes);
    assert(out@ =~= start + target_text(t@, *sizes));
}

/// The report on the project's target directory.
pub fn local_report(project: &str, target: Option<&str>, sizes: &TargetSizes) -> (r: String)
    ensures
        r@ == local_report_text(
            project@,
            match target {
                Some(t) => Some(t@),
                None => None,
            },
            *sizes,
        ),
{
    let mut out = String::new();
    push_str(&mut out, "Project ");
    push_str(&mut out, project);
    push_str(&mut out, "\n");
    match target {
        None => {
            push_str(&mut out, "No target dir found!");
        },
        Some(t) => {
            push_target(&mut out, t, sizes);
        },
    }
    out
}

} // verus!
