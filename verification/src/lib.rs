//! Size accounting, report formatting and clean-up decisions for the cargo cache.

pub mod text;
pub mod tables;
pub mod human;
pub mod dirsizes;
pub mod remove_dir_all;
pub mod order;
pub mod paths;
pub mod top_items;
pub mod library;
pub mod remove;
pub mod query;
pub mod date;
pub mod clean_unref;
pub mod verify;
pub mod trim;
pub mod sccache;
pub mod toolchains;
pub mod top_items_summary;
pub mod git;
pub mod local;
pub mod cli;
