//! Recompressing and checking the git repositories of the cache: what is printed, where the
//! registry indices are, and how the sizes of the repositories add up.
use vstd::prelude::*;

use crate::dirsizes::{size_diff_format, size_diff_text};
use crate::human::{decimal_file_size, human_size};
use crate::library::{error_message, Error};
use crate::paths::{components, join_all, path_components, path_join, str_views, joined, join_path};
use crate::text::push_str;

verus! {

/// The name of a repository: the last component of its path, or `<unknown>` when it has none.
pub open spec fn repo_name_of(path: Seq<char>) -> Seq<char> {
    let cs = components(path);
    if cs.len() > 0 {
        cs.last()
    } else {
        "<unknown>"@
    }
}

/// The name of the repository at `path`.
pub fn repo_name(path: &str) -> (r: String)
    ensures
        r@ == repo_name_of(path@),
{
    let cs = path_components(path);
    proof {
        assert(str_views(cs@) == components(path@));
    }
    let mut r = String::new();
    if cs.len() > 0 {
        assert(cs@[cs.len() - 1]@ == str_views(cs@)[cs.len() - 1]);
        push_str(&mut r, cs[cs.len() - 1].as_str());
    } else {
        push_str(&mut r, "<unknown>");
    }
    r
}

/// The directory of the registry indices, next to the directory of the registry archives: the
/// archives' directory without its last component (when it has one to give up), with `index`
/// pushed onto it.
pub open spec fn index_dir_of(pkg_cache_dir: Seq<char>) -> Seq<char> {
    let cs = components(pkg_cache_dir);
    if cs.len() > 1 || (cs.len() == 1 && cs[0] != seq!['/']) {
        path_join(joined(seq![], cs.drop_last()), "index"@)
    } else {
        path_join(pkg_cache_dir, "index"@)
    }
}

/// The directory of the registry indices next to `registry_pkg_cache_dir`.
pub fn registry_index_dir(registry_pkg_cache_dir: &str) -> (r: String)
    ensures
        r@ == index_dir_of(registry_pkg_cache_dir@),
{
    let cs = path_components(registry_pkg_cache_dir);
    proof {
        assert(str_views(cs@) == components(registry_pkg_cache_dir@));
    }
    proof {
        reveal_strlit("");
        reveal_strlit("/");
        assert("/"@ =~= seq!['/']);
        if cs.len() > 0 {
            assert(str_views(cs@)[0] == cs@[0]@);
        }
    }
    let has_parent = cs.len() > 1 || (cs.len() == 1 && !crate::text::str_equals(cs[0].as_str(), "/"));
    let ghost cv = components(registry_pkg_cache_dir@);
    assert(cv.len() == cs.len());
    assert(has_parent == (cv.len() > 1 || (cv.len() == 1 && cv[0] != seq!['/'])));
    if has_parent {
        let parent = join_all("", &cs, 0, cs.len() - 1);
        proof {
            assert(""@ =~= Seq::<char>::empty());
            assert(str_views(cs@).subrange(0, cs.len() - 1) =~= str_views(cs@).drop_last());
        }
        join_path(parent.as_str(), "index")
    } else {
        join_path(registry_pkg_cache_dir, "index")
    }
}

/// The start of the line reporting the recompression of the repository at `path`.
pub open spec fn gc_start_text(path: Seq<char>) -> Seq<char> {
    "Recompressing '"@ + repo_name_of(path) + "': "@
}

/// The start of the line reporting the recompression of the repository at `path`.
pub fn gc_start(path: &str) -> (r: String)
    ensures
        r@ == gc_start_text(path@),
{
    let mut r = String::new();
    push_str(&mut r, "Recompressing '");
    let name = repo_name(path);
    push_str(&mut r, name.as_str());
    push_str(&mut r, "': ");
    r
}

/// The size of a repository before it is recompressed, as the line continues.
pub fn gc_size_before(size_before: u64) -> (r: String)
    ensures
        r@ == decimal_file_size(size_before) + " => "@,
{
    let mut r = human_size(size_before);
    push_str(&mut r, " => ");
    r
}

/// The end of the line of a dry run: the size does not change.
pub fn gc_dry_run_end(size_before: u64) -> (r: String)
    ensures
        r@ == decimal_file_size(size_before) + " (+0)"@,
{
    let mut r = human_size(size_before);
    push_str(&mut r, " (+0)");
    r
}

/// The sizes of the repositories recompressed so far, before and after.
pub struct GcTally {
    pub before: u64,
    pub after: u64,
}

/// What recording the outcome of one repository does.
pub enum GcStep {
    /// The sizes were added.
    Counted,
    /// The repository failed in a way that is reported (the text) and skipped.
    Reported(String),
    /// The repository failed in a way that recompression does not expect.
    Unexpected,
}

/// The failures of a repository that recompression reports and skips.
pub open spec fn skipped_failure(e: Error) -> bool {
    e is GitGCFailed || e is GitRepoDirNotFound || e is GitRepoNotOpened
}

/// The failures of a repository that a check reports and skips.
pub open spec fn skipped_fsck_failure(e: Error) -> bool {
    e is GitFsckFailed || e is GitRepoDirNotFound || e is GitRepoNotOpened
}

impl GcTally {
    /// Nothing recompressed yet.
    pub fn new() -> (t: GcTally)
        ensures
            t.before == 0,
            t.after == 0,
    {
        GcTally { before: 0, after: 0 }
    }

    /// Records the outcome of recompressing one repository: its sizes before and after are
    /// added, a failure that recompression expects is reported, any other is unexpected.
    pub fn record(&mut self, outcome: &Result<(u64, u64), Error>) -> (step: GcStep)
        requires
            *outcome matches Ok((b, a)) ==> old(self).before + b <= u64::MAX && old(self).after + a <= u64::MAX,
        ensures
            match *outcome {
                Ok((b, a)) => step is Counted && final(self).before == old(self).before + b && final(self).after
                    == old(self).after + a,
                Err(e) => final(self).before == old(self).before && final(self).after == old(self).after && if skipped_failure(e) {
                    step matches GcStep::Reported(m) && m@ == error_message(e)
                } else {
                    step is Unexpected
                },
            },
    {
        match outcome {
            Ok((b, a)) => {
                self.before = self.before + *b;
                self.after = self.after + *a;
                GcStep::Counted
            },
            Err(e) => {
                match e {
                    Error::GitGCFailed(_, _) | Error::GitRepoDirNotFound(_) | Error::GitRepoNotOpened(_) => {
                        GcStep::Reported(e.message())
                    },
                    _ => GcStep::Unexpected,
                }
            },
        }
    }
}

/// Records the outcome of checking one repository: a failure that a check expects is reported
/// (`Some` with the text), any other is unexpected (`None`); success says nothing.
pub fn fsck_report(outcome: &Result<(), Error>) -> (r: Result<Option<String>, ()>)
    ensures
        match *outcome {
            Ok(()) => r == Ok::<Option<String>, ()>(None),
            Err(e) => if skipped_fsck_failure(e) {
                r matches Ok(Some(m)) && m@ == error_message(e)
            } else {
                r is Err
            },
        },
{
    match outcome {
        Ok(()) => Ok(None),
        Err(e) => match e {
            Error::GitFsckFailed(_, _) | Error::GitRepoDirNotFound(_) | Error::GitRepoNotOpened(_) => Ok(Some(e.message())),
            _ => Err(()),
        },
    }
}

/// The line that ends a recompression: the size before and how it changed (`percentage` is the
/// change in percent, as text).
pub open spec fn gc_summary_text(before: u64, after: u64, percentage: Seq<char>) -> Seq<char> {
    "\nCompressed "@ + decimal_file_size(before) + " to "@ + size_diff_text(before, after, false, percentage)
}

/// The line that ends a recompression.
pub fn gc_summary(before: u64, after: u64, percentage: &str) -> (r: String)
    requires
        before <= i64::MAX,
        after <= i64::MAX,
    ensures
        r@ == gc_summary_text(before, after, percentage@),
{
    let mut r = String::new();
    push_str(&mut r, "\nCompressed ");
    let b = human_size(before);
    push_str(&mut r, b.as_str());
    push_str(&mut r, " to ");
    let d = size_diff_format(before, after, false, percentage);
    push_str(&mut r, d.as_str());
    r
}

/// The line reporting the check of the repository at `path`.
pub fn fsck_start(path: &str) -> (r: String)
    ensures
        r@ == "Fscking '"@ + repo_name_of(path@) + "'"@,
{
    let mut r = String::new();
    push_str(&mut r, "Fscking '");
    let name = repo_name(path);
    push_str(&mut r, name.as_str());
    push_str(&mut r, "'");
    r
}

} // verus!
