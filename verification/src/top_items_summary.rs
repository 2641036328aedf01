//! The summary of the largest items of every part of the cache, one part after the other.
use vstd::prelude::*;

use crate::text::{chars_of, push_str, string_of, trim, trimmed};

verus! {

/// The summaries of the binaries, the registry sources, the registry archives, the bare
/// repositories and the git checkouts, one after the other, trimmed.
pub open spec fn top_crates_text(
    binaries: Seq<char>,
    reg_src: Seq<char>,
    reg_cache: Seq<char>,
    bare_repos: Seq<char>,
    repo_checkouts: Seq<char>,
) -> Seq<char> {
    trim(binaries + reg_src + reg_cache + bare_repos + repo_checkouts)
}

/// Puts the summaries of the parts of the cache together.
pub fn get_top_crates(
    binaries: &str,
    reg_src: &str,
    reg_cache: &str,
    bare_repos: &str,
    repo_checkouts: &str,
) -> (r: String)
    ensures
        r@ == top_crates_text(binaries@, reg_src@, reg_cache@, bare_repos@, repo_checkouts@),
{
    let mut output = String::new();
    push_str(&mut output, binaries);
    push_str(&mut output, reg_src);
    push_str(&mut output, reg_cache);
    push_str(&mut output, bare_repos);
    push_str(&mut output, repo_checkouts);
    let cs = chars_of(output.as_str());
    string_of(&trimmed(&cs))
}

} // verus!
