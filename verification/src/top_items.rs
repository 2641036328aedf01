//! Summaries of the largest items in each part of the cache: installed binaries, registry
//! sources and archives, and git checkouts.

pub mod common;
pub mod binaries;
pub mod git_checkouts;
pub mod registry_sources;
pub mod registry_cache;
pub mod git_repos_bare;
