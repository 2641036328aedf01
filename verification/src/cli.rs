//! The command to run, decided from what the command line holds.
use vstd::prelude::*;

use crate::date::{all_ascii_digits, digits_value, parse_u32, u32_text};
use crate::paths::str_views;
use crate::text::{chars_of, str_equals};
use crate::top_items::common::copy_string;

verus! {

/// What `str::parse::<u64>` accepts: an optional `+` and at least one ASCII digit, of a value
/// that fits in a `u64`; and that value.
pub open spec fn u64_text(s: Seq<char>) -> Option<u64> {
    let digits = if s.len() > 0 && s[0] == '+' {
        s.drop_first()
    } else {
        s
    };
    if digits.len() > 0 && all_ascii_digits(digits) && digits_value(digits) <= u64::MAX {
        Some(digits_value(digits) as u64)
    } else {
        None
    }
}

/// A prefix of a string of digits has at most its value.
proof fn lemma_digits_prefix(s: Seq<char>, k: int)
    requires
        0 <= k <= s.len(),
        all_ascii_digits(s),
    ensures
        digits_value(s.take(k)) <= digits_value(s),
    decreases s.len() - k,
{
    if k < s.len() {
        lemma_digits_prefix(s, k + 1);
        let t = s.take(k + 1);
        assert(t.drop_last() =~= s.take(k));
        assert('0' <= t.last() <= '9');
    } else {
        assert(s.take(k) =~= s);
    }
}

/// Reads a `u64` as `str::parse` does.
pub fn parse_u64(s: &str) -> (r: Option<u64>)
    ensures
        r == u64_text(s@),
{
    let cs = chars_of(s);
    let start: usize = if cs.len() > 0 && cs[0] == '+' { 1 } else { 0 };
    let ghost digits = if s@.len() > 0 && s@[0] == '+' { s@.drop_first() } else { s@ };
    assert(cs@ == s@);
    let ghost expected = if digits.len() > 0 && all_ascii_digits(digits) && digits_value(digits) <= u64::MAX {
        Some(digits_value(digits) as u64)
    } else {
        None
    };
    assert(u64_text(s@) == expected);
    assert(digits =~= cs@.skip(start as int));
    if cs.len() <= start {
        return None;
    }
    let mut i: usize = start;
    while i < cs.len()
        invariant
            start <= i <= cs.len(),
            digits == cs@.skip(start as int),
            u64_text(s@) == expected,
            expected == (if digits.len() > 0 && all_ascii_digits(digits) && digits_value(digits) <= u64::MAX {
                Some(digits_value(digits) as u64)
            } else {
                None
            }),
            forall|j: int| start <= j < i ==> '0' <= #[trigger] cs@[j] && cs@[j] <= '9',
        decreases cs.len() - i,
    {
        if cs[i] < '0' || cs[i] > '9' {
            assert(digits[i - start] == cs@[i as int]);
            assert(!all_ascii_digits(digits));
            assert(u64_text(s@) is None);
            return None;
        }
        i = i + 1;
    }
    assert(all_ascii_digits(digits)) by {
        assert forall|j: int| 0 <= j < digits.len() implies '0' <= #[trigger] digits[j] && digits[j] <= '9' by {
            assert(digits[j] == cs@[j + start]);
        }
    }
    let mut value: u64 = 0;
    let mut k: usize = start;
    while k < cs.len()
        invariant
            start <= k <= cs.len(),
            digits == cs@.skip(start as int),
            u64_text(s@) == expected,
            expected == (if digits.len() > 0 && all_ascii_digits(digits) && digits_value(digits) <= u64::MAX {
                Some(digits_value(digits) as u64)
            } else {
                None
            }),
            all_ascii_digits(digits),
            value == digits_value(digits.take(k - start)),
        decreases cs.len() - k,
    {
        let ghost t = digits.take(k - start + 1);
        assert(t.drop_last() =~= digits.take(k - start));
        assert(t.last() == cs@[k as int]);
        let d: u64 = (cs[k] as u32 - '0' as u32) as u64;
        if value > (u64::MAX - d) / 10 {
            proof {
                assert(digits_value(t) > u64::MAX) by (nonlinear_arith)
                    requires
                        digits_value(t) == 10 * value + d,
                        value > (u64::MAX - d) / 10,
                        d <= 9,
                ;
                lemma_digits_prefix(digits, k - start + 1);
                assert(digits_value(digits) > u64::MAX);
                assert(u64_text(s@) is None);
            }
            return None;
        }
        assert(10 * value + d <= u64::MAX) by (nonlinear_arith)
            requires
                value <= (u64::MAX - d) / 10,
                d <= 9,
        ;
        value = value * 10 + d;
        k = k + 1;
    }
    assert(digits.take(cs.len() - start) =~= digits);
    Some(value)
}

/// The arguments of `trim`.
pub struct TrimArgs {
    pub dry_run: bool,
    pub limit: Option<String>,
}

/// The arguments of `clean-unref`.
pub struct CleanUnrefArgs {
    pub dry_run: bool,
    pub manifest_path: Option<String>,
}

/// The arguments of `verify`.
pub struct VerifyArgs {
    pub dry_run: bool,
    pub clean_corrupted: bool,
}

/// What the command line holds: the raw arguments (the program's path first), and for each flag
/// and subcommand whether it was given, with its value where it takes one.
pub struct CliFlags {
    pub args: Vec<String>,
    pub dry_run: bool,
    pub version: bool,
    pub version_subcommand: bool,
    pub sccache: bool,
    pub toolchain: bool,
    pub trim: Option<TrimArgs>,
    pub clean_unref: Option<CleanUnrefArgs>,
    pub top_cache_items: Option<Option<String>>,
    pub query: bool,
    pub local: bool,
    pub info: bool,
    pub remove_dir: Option<Option<String>>,
    pub autoclean_expensive: bool,
    pub gc_repos: bool,
    pub autoclean: bool,
    pub fsck_repos: bool,
    pub keep_duplicate_crates: Option<Option<String>>,
    pub registries: bool,
    pub list_dirs: bool,
    pub remove_if_younger_than: Option<Option<String>>,
    pub remove_if_older_than: Option<Option<String>>,
    pub verify: Option<VerifyArgs>,
}

/// The operations cargo-cache performs, one at a time.
#[allow(inconsistent_fields)]
pub enum CargoCacheCommands {
    FSCKRepos,
    GitGCRepos { dry_run: bool },
    Info,
    KeepDuplicateCrates { dry_run: bool, limit: u64 },
    ListDirs,
    RemoveDir { dry_run: bool },
    AutoClean { dry_run: bool },
    AutoCleanExpensive { dry_run: bool },
    TopCacheItems { limit: u32 },
    Version,
    Verify { clean_corrupted: bool, dry_run: bool },
    Query,
    Local,
    Registries,
    SCCache,
    CleanUnref { dry_run: bool, manifest_path: Option<String> },
    Trim { dry_run: bool, trim_limit: Option<String> },
    Toolchain,
    RemoveIfDate { dry_run: bool, arg_younger: Option<String>, arg_older: Option<String>, dirs: Option<String> },
    OnlyDryRun,
    DefaultSummary,
}

/// Why no command came out of the command line.
pub enum CliError {
    /// A value did not read; the text says so.
    Fatal(String),
    /// None of the flags maps to a command.
    Unmapped,
}

/// The outcome of reading the command line, with texts as sequences.
pub enum Decision {
    FSCKRepos,
    GitGCRepos(bool),
    Info,
    KeepDuplicateCrates(bool, u64),
    ListDirs,
    RemoveDir(bool),
    AutoClean(bool),
    AutoCleanExpensive(bool),
    TopCacheItems(u32),
    Version,
    Verify(bool, bool),
    Query,
    Local,
    Registries,
    SCCache,
    CleanUnref(bool, Option<Seq<char>>),
    Trim(bool, Option<Seq<char>>),
    Toolchain,
    RemoveIfDate(bool, Option<Seq<char>>, Option<Seq<char>>, Option<Seq<char>>),
    OnlyDryRun,
    DefaultSummary,
    Fatal(Seq<char>),
    Unmapped,
}

/// The view of an optional string.
pub open spec fn opt_view(o: Option<String>) -> Option<Seq<char>> {
    match o {
        Some(s) => Some(s@),
        None => None,
    }
}

/// The outcome of `clap_to_enum` as a `Decision`.
pub open spec fn decision_of(r: Result<CargoCacheCommands, CliError>) -> Decision {
    match r {
        Ok(c) => match c {
            CargoCacheCommands::FSCKRepos => Decision::FSCKRepos,
            CargoCacheCommands::GitGCRepos { dry_run } => Decision::GitGCRepos(dry_run),
            CargoCacheCommands::Info => Decision::Info,
            CargoCacheCommands::KeepDuplicateCrates { dry_run, limit } => Decision::KeepDuplicateCrates(dry_run, limit),
            CargoCacheCommands::ListDirs => Decision::ListDirs,
            CargoCacheCommands::RemoveDir { dry_run } => Decision::RemoveDir(dry_run),
            CargoCacheCommands::AutoClean { dry_run } => Decision::AutoClean(dry_run),
            CargoCacheCommands::AutoCleanExpensive { dry_run } => Decision::AutoCleanExpensive(dry_run),
            CargoCacheCommands::TopCacheItems { limit } => Decision::TopCacheItems(limit),
            CargoCacheCommands::Version => Decision::Version,
            CargoCacheCommands::Verify { clean_corrupted, dry_run } => Decision::Verify(clean_corrupted, dry_run),
            CargoCacheCommands::Query => Decision::Query,
            CargoCacheCommands::Local => Decision::Local,
            CargoCacheCommands::Registries => Decision::Registries,
            CargoCacheCommands::SCCache => Decision::SCCache,
            CargoCacheCommands::CleanUnref { dry_run, manifest_path } => Decision::CleanUnref(dry_run, opt_view(manifest_path)),
            CargoCacheCommands::Trim { dry_run, trim_limit } => Decision::Trim(dry_run, opt_view(trim_limit)),
            CargoCacheCommands::Toolchain => Decision::Toolchain,
            CargoCacheCommands::RemoveIfDate { dry_run, arg_younger, arg_older, dirs } => Decision::RemoveIfDate(
                dry_run,
                opt_view(arg_younger),
                opt_view(arg_older),
                opt_view(dirs),
            ),
            CargoCacheCommands::OnlyDryRun => Decision::OnlyDryRun,
            CargoCacheCommands::DefaultSummary => Decision::DefaultSummary,
        },
        Err(CliError::Fatal(m)) => Decision::Fatal(m@),
        Err(CliError::Unmapped) => Decision::Unmapped,
    }
}

/// The raw arguments ask for the default summary: nothing after the program, or only `cache`,
/// `--debug`, or `cache --debug`.
pub open spec fn default_summary_args(args: Seq<Seq<char>>) -> bool {
    ||| args.len() == 1
    ||| args.len() == 2 && (args[1] == "cache"@ || args[1] == "--debug"@)
    ||| args.len() == 3 && args[1] == "cache"@ && args[2] == "--debug"@
}

/// The value of a flag that was given, if it has one.
pub open spec fn flag_value(o: Option<Option<String>>) -> Option<Seq<char>> {
    match o {
        Some(v) => opt_view(v),
        None => None,
    }
}

/// The limit of `--top-cache-items`: its value when it reads as a `u32`, else 20.
pub open spec fn top_limit(v: Option<Seq<char>>) -> u32 {
    match v {
        Some(t) => match u32_text(t) {
            Some(n) => n,
            None => 20,
        },
        None => 20,
    }
}

/// The message when `--keep-duplicate-crates` has no integer.
pub open spec fn keep_duplicates_error() -> Seq<char> {
    "Error: \"--keep-duplicate-crates\" expected an integer argument"@
}

/// The command the command line asks for. The raw arguments first pick the default summary;
/// then the flags are looked at in a fixed order, the first one given deciding. A top-level dry
/// run reaches every command that takes one. A date given with `--remove-if-younger-than` or
/// `--remove-if-older-than` turns `--remove-dir` into a removal by date within those directories,
/// of the items younger or older than that date.
pub open spec fn command_of(f: CliFlags) -> Decision {
    let dry_run = f.dry_run;
    if default_summary_args(str_views(f.args@)) {
        Decision::DefaultSummary
    } else if f.version || f.version_subcommand {
        Decision::Version
    } else if f.sccache {
        Decision::SCCache
    } else if f.toolchain {
        Decision::Toolchain
    } else if f.trim is Some {
        Decision::Trim(dry_run || f.trim->0.dry_run, opt_view(f.trim->0.limit))
    } else if f.clean_unref is Some {
        Decision::CleanUnref(dry_run || f.clean_unref->0.dry_run, opt_view(f.clean_unref->0.manifest_path))
    } else if f.top_cache_items is Some {
        Decision::TopCacheItems(top_limit(flag_value(f.top_cache_items)))
    } else if f.query {
        Decision::Query
    } else if f.local {
        Decision::Local
    } else if f.info {
        Decision::Info
    } else if f.remove_if_younger_than is Some || f.remove_if_older_than is Some {
        Decision::RemoveIfDate(
            dry_run,
            flag_value(f.remove_if_younger_than),
            flag_value(f.remove_if_older_than),
            flag_value(f.remove_dir),
        )
    } else if f.remove_dir is Some {
        Decision::RemoveDir(dry_run)
    } else if f.autoclean_expensive || (f.gc_repos && f.autoclean) {
        Decision::AutoCleanExpensive(dry_run)
    } else if f.fsck_repos {
        Decision::FSCKRepos
    } else if f.gc_repos {
        Decision::GitGCRepos(dry_run)
    } else if f.autoclean {
        Decision::AutoClean(dry_run)
    } else if f.keep_duplicate_crates is Some {
        match flag_value(f.keep_duplicate_crates) {
            Some(t) => match u64_text(t) {
                Some(n) => Decision::KeepDuplicateCrates(dry_run, n),
                None => Decision::Fatal(keep_duplicates_error()),
            },
            None => Decision::Fatal(keep_duplicates_error()),
        }
    } else if f.registries {
        Decision::Registries
    } else if f.list_dirs {
        Decision::ListDirs
    } else if f.verify is Some {
        Decision::Verify(f.verify->0.clean_corrupted, f.verify->0.dry_run || dry_run)
    } else if dry_run {
        Decision::OnlyDryRun
    } else {
        Decision::Unmapped
    }
}

fn copy_opt(o: &Option<String>) -> (r: Option<String>)
    ensures
        opt_view(r) == opt_view(*o),
{
    match o {
        Some(s) => Some(copy_string(s)),
        None => None,
    }
}

fn value_of(o: &Option<Option<String>>) -> (r: Option<String>)
    ensures
        opt_view(r) == flag_value(*o),
{
    match o {
        Some(v) => copy_opt(v),
        None => None,
    }
}

fn is_default_summary(args: &Vec<String>) -> (b: bool)
    ensures
        b == default_summary_args(str_views(args@)),
{
    proof {
        reveal_strlit("cache");
        reveal_strlit("--debug");
    }
    let ghost v = str_views(args@);
    if args.len() == 1 {
        return true;
    }
    if args.len() == 2 {
        assert(v[1] == args@[1]@);
        return str_equals(args[1].as_str(), "cache") || str_equals(args[1].as_str(), "--debug");
    }
    if args.len() == 3 {
        assert(v[1] == args@[1]@);
        assert(v[2] == args@[2]@);
        return str_equals(args[1].as_str(), "cache") && str_equals(args[2].as_str(), "--debug");
    }
    false
}

/// Decides the command the command line asks for (see `command_of`).
pub fn clap_to_enum(config: &CliFlags) -> (r: Result<CargoCacheCommands, CliError>)
    ensures
        decision_of(r) == command_of(*config),
{
    let dry_run = config.dry_run;
    if is_default_summary(&config.args) {
        return Ok(CargoCacheCommands::DefaultSummary);
    }
    if config.version || config.version_subcommand {
        Ok(CargoCacheCommands::Version)
    } else if config.sccache {
        Ok(CargoCacheCommands::SCCache)
    } else if config.toolchain {
        Ok(CargoCacheCommands::Toolchain)
    } else if let Some(t) = &config.trim {
        Ok(CargoCacheCommands::Trim { dry_run: dry_run || t.dry_run, trim_limit: copy_opt(&t.limit) })
    } else if let Some(c) = &config.clean_unref {
        Ok(CargoCacheCommands::CleanUnref { dry_run: dry_run || c.dry_run, manifest_path: copy_opt(&c.manifest_path) })
    } else if config.top_cache_items.is_some() {
        let limit = match value_of(&config.top_cache_items) {
            Some(t) => match parse_u32(t.as_str()) {
                Ok(n) => n,
                Err(_) => 20,
            },
            None => 20,
        };
        Ok(CargoCacheCommands::TopCacheItems { limit })
    } else if config.query {
        Ok(CargoCacheCommands::Query)
    } else if config.local {
        Ok(CargoCacheCommands::Local)
    } else if config.info {
        Ok(CargoCacheCommands::Info)
    } else if config.remove_if_younger_than.is_some() || config.remove_if_older_than.is_some() {
        Ok(
            CargoCacheCommands::RemoveIfDate {
                dry_run,
                arg_younger: value_of(&config.remove_if_younger_than),
                arg_older: value_of(&config.remove_if_older_than),
                dirs: value_of(&config.remove_dir),
            },
        )
    } else if config.remove_dir.is_some() {
        Ok(CargoCacheCommands::RemoveDir { dry_run })
    } else if config.autoclean_expensive || (config.gc_repos && config.autoclean) {
        Ok(CargoCacheCommands::AutoCleanExpensive { dry_run })
    } else if config.fsck_repos {
        Ok(CargoCacheCommands::FSCKRepos)
    } else if config.gc_repos {
        Ok(CargoCacheCommands::GitGCRepos { dry_run })
    } else if config.autoclean {
        Ok(CargoCacheCommands::AutoClean { dry_run })
    } else if config.keep_duplicate_crates.is_some() {
        let parsed = match value_of(&config.keep_duplicate_crates) {
            Some(t) => parse_u64(t.as_str()),
            None => None,
        };
        match parsed {
            Some(limit) => Ok(CargoCacheCommands::KeepDuplicateCrates { dry_run, limit }),
            None => {
                let mut m = String::new();
                crate::text::push_str(&mut m, "Error: \"--keep-duplicate-crates\" expected an integer argument");
                Err(CliError::Fatal(m))
            },
        }
    } else if config.registries {
        Ok(CargoCacheCommands::Registries)
    } else if config.list_dirs {
        Ok(CargoCacheCommands::ListDirs)
    } else if let Some(v) = &config.verify {
        Ok(CargoCacheCommands::Verify { clean_corrupted: v.clean_corrupted, dry_run: v.dry_run || dry_run })
    } else if dry_run {
        Ok(CargoCacheCommands::OnlyDryRun)
    } else {
        Err(CliError::Unmapped)
    }
}

} // verus!
